//! Life-cycle state machines: the state of one runner and the status of one
//! instance, together with the transitions each is allowed to take.

use vstd::prelude::*;

verus! {

/// The state of the runner that drives one node.
///
/// `start` takes `Idle` to `Running`, `abort` takes `Running` back to `Idle`
/// (and is a no-op on `Idle`); a failing resume hook takes `Idle` to
/// `Failed`, which is terminal until the owning instance is deleted.
#[derive(Clone, Copy, Debug, PartialEq, Eq, Structural)]
pub enum RunnerState {
    Idle,
    Running,
    Failed,
}

/// One legal transition of a runner.
pub open spec fn runner_step(pre: RunnerState, post: RunnerState) -> bool {
    ||| (pre == RunnerState::Idle && post == RunnerState::Running)
    ||| (pre == RunnerState::Running && post == RunnerState::Idle)
    ||| (pre == RunnerState::Idle && post == RunnerState::Failed)
}

/// A runner either stays put or takes one legal transition.
pub open spec fn runner_step_or_stutter(pre: RunnerState, post: RunnerState) -> bool {
    pre == post || runner_step(pre, post)
}

/// Every runner state is reachable from `Idle` in at most one legal
/// transition, so any state a runner can hold can also arise in a live
/// instance, whose runners all begin `Idle`.
pub proof fn lemma_runner_state_reachable(s: RunnerState)
    ensures
        s == RunnerState::Idle || runner_step(RunnerState::Idle, s),
{
}

/// What a failed transition was trying to do when the instance was
/// quarantined.
#[derive(Clone, Copy, Debug, PartialEq, Eq, Structural)]
pub enum FailureKind {
    Load,
    Start,
    Abort,
}

/// The status of one data-flow instance.
///
/// Legal transitions: an instance is registered `Creating`, becomes
/// `Created` once its nodes are instantiated, then moves between `Running`
/// and `Aborted`; deletion is legal from `Created`, `Aborted` and `Failed`.
/// `Failed` may be entered from any transitional state and only deletion
/// leaves it. An instance never re-enters `Creating`.
#[derive(Clone, Copy, Debug, PartialEq, Eq, Structural)]
pub enum InstanceStatus {
    Creating,
    Created,
    Running,
    Aborted,
    Failed(FailureKind),
}

/// One legal transition of an instance status.
pub open spec fn status_step(pre: InstanceStatus, post: InstanceStatus) -> bool {
    ||| (pre == InstanceStatus::Creating && post == InstanceStatus::Created)
    ||| (pre == InstanceStatus::Created && post == InstanceStatus::Running)
    ||| (pre == InstanceStatus::Aborted && post == InstanceStatus::Running)
    ||| (pre == InstanceStatus::Running && post == InstanceStatus::Aborted)
    ||| (post matches InstanceStatus::Failed(_) && !(pre matches InstanceStatus::Failed(_)))
}

/// A status either stays put or takes one legal transition.
pub open spec fn status_step_or_stutter(pre: InstanceStatus, post: InstanceStatus) -> bool {
    pre == post || status_step(pre, post)
}

/// The statuses from which deletion is legal: `Running` nodes must be
/// aborted first and `Creating` must settle.
pub open spec fn deletable(s: InstanceStatus) -> bool {
    ||| s == InstanceStatus::Created
    ||| s == InstanceStatus::Aborted
    ||| s matches InstanceStatus::Failed(_)
}

} // verus!
