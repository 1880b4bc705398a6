//! The runner that drives one node: a cooperative task wrapper with a small
//! life-cycle state machine. The task itself is spawned by the execution
//! layer; the runner here is the state those operations agree on.

use vstd::prelude::*;
use crate::status::{runner_step_or_stutter, RunnerState};

verus! {

pub struct Runner {
    pub node: u64,
    pub state: RunnerState,
}

impl Runner {
    pub fn new(node: u64) -> (r: Runner)
        ensures
            r.node == node,
            r.state == RunnerState::Idle,
    {
        Runner { node, state: RunnerState::Idle }
    }

    /// Starts the task loop that invokes the node's iteration.
    pub fn start(&mut self)
        requires
            old(self).state == RunnerState::Idle,
        ensures
            final(self).node == old(self).node,
            final(self).state == RunnerState::Running,
            runner_step_or_stutter(old(self).state, final(self).state),
    {
        self.state = RunnerState::Running;
    }

    /// Cooperatively cancels the task and waits for its acknowledgment;
    /// aborting an idle runner is a no-op, a failed runner stays failed
    /// until its instance is deleted.
    pub fn abort(&mut self)
        ensures
            final(self).node == old(self).node,
            final(self).state == (if old(self).state == RunnerState::Failed {
                RunnerState::Failed
            } else {
                RunnerState::Idle
            }),
            runner_step_or_stutter(old(self).state, final(self).state),
    {
        if !matches!(self.state, RunnerState::Failed) {
            self.state = RunnerState::Idle;
        }
    }

    /// Runs the node's resume hook, whose outcome the execution layer
    /// reports, then starts. A failing resume marks the runner `Failed`.
    pub fn resume(&mut self, on_resume_ok: bool)
        requires
            old(self).state == RunnerState::Idle,
        ensures
            final(self).node == old(self).node,
            final(self).state == (if on_resume_ok {
                RunnerState::Running
            } else {
                RunnerState::Failed
            }),
            runner_step_or_stutter(old(self).state, final(self).state),
    {
        if on_resume_ok {
            self.state = RunnerState::Running;
        } else {
            self.state = RunnerState::Failed;
        }
    }

    /// Forceful variant of `abort` used on teardown; the observable state
    /// change is the same.
    pub fn kill(&mut self)
        ensures
            final(self).node == old(self).node,
            final(self).state == (if old(self).state == RunnerState::Failed {
                RunnerState::Failed
            } else {
                RunnerState::Idle
            }),
            runner_step_or_stutter(old(self).state, final(self).state),
    {
        self.abort()
    }
}

} // verus!
