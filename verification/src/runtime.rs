//! The per-process registry of instances. It owns every loaded instance,
//! enforces the legal status transitions on the control operations, and
//! refuses to load nodes whose loader extension it does not recognise.

use vstd::prelude::*;
use std::collections::HashMap;
use crate::codec::{bytes_eq, enc_record, encode_record};
use crate::instance::{abort_all_rel, all_runners, start_all_rel, DataFlowInstance};
use crate::protocol::record_view;
use crate::record::{DataFlowRecord, NodeDesc};
use crate::status::{deletable, InstanceStatus, RunnerState};

verus! {

broadcast use vstd::std_specs::hash::group_hash_axioms;

/// The error kinds the daemon surfaces.
#[derive(Clone, Copy, Debug, PartialEq, Eq, Structural)]
pub enum DataFlowErr {
    /// Unknown instance identifier.
    NotFound,
    /// Duplicate create with a divergent record.
    AlreadyExists,
    /// The request is illegal for the current status.
    InvalidTransition,
    /// Malformed payload or reference.
    InvalidRequest,
    /// The loader could not produce a node.
    NodeLoad,
    /// A peer channel endpoint is gone.
    ChannelClosed,
    /// The underlying transport session failed.
    Transport,
    /// A fan-out query exceeded its deadline.
    PeerTimeout,
    /// A bug; never silently swallowed.
    Internal,
}

/// Node `n` can be instantiated: it is built in (`ext == 0`) or its loader
/// extension is recognised.
pub open spec fn node_loadable(n: NodeDesc, exts: Seq<u64>) -> bool {
    n.ext == 0 || exts.contains(n.ext)
}

/// Every node of `rec` placed on `local` can be instantiated there.
pub open spec fn record_loadable(rec: DataFlowRecord, local: u64, exts: Seq<u64>) -> bool {
    forall|i: int|
        0 <= i < rec.nodes@.len() && (#[trigger] rec.nodes@[i]).runtime == local ==> node_loadable(
            rec.nodes@[i],
            exts,
        )
}

fn check_loadable(rec: &DataFlowRecord, local: u64, exts: &Vec<u64>) -> (r: bool)
    ensures
        r == record_loadable(*rec, local, exts@),
{
    let n = rec.nodes.len();
    let mut i: usize = 0;
    while i < n
        invariant
            i <= n,
            n == rec.nodes@.len(),
            forall|k: int|
                0 <= k < i && (#[trigger] rec.nodes@[k]).runtime == local ==> node_loadable(
                    rec.nodes@[k],
                    exts@,
                ),
        decreases n - i,
    {
        if rec.nodes[i].runtime == local {
            let e = rec.nodes[i].ext;
            if e != 0 {
                let mut found: bool = false;
                let m = exts.len();
                let mut k: usize = 0;
                while k < m
                    invariant
                        k <= m,
                        m == exts@.len(),
                        found ==> exts@.contains(e),
                        !found ==> forall|k2: int| 0 <= k2 < k ==> exts@[k2] != e,
                    decreases m - k,
                {
                    if exts[k] == e {
                        found = true;
                    }
                    k = k + 1;
                }
                if !found {
                    proof {
                        if exts@.contains(e) {
                            let k2 = choose|k2: int| 0 <= k2 < exts@.len() && exts@[k2] == e;
                            assert(false);
                        }
                    }
                    return false;
                }
            }
        }
        i = i + 1;
    }
    true
}

/// The canonical bytes of two records coincide: the duplicate-create check.
pub fn records_identical(a: &DataFlowRecord, b: &DataFlowRecord) -> (r: bool)
    ensures
        r == (enc_record(record_view(*a)) == enc_record(record_view(*b))),
{
    let ea = encode_record(a);
    let eb = encode_record(b);
    bytes_eq(&ea, &eb)
}

/// One daemon's registry.
pub struct Runtime {
    pub id: u64,
    pub instances: HashMap<u64, DataFlowInstance>,
    pub ids: Vec<u64>,
    pub extensions: Vec<u64>,
    pub capacity: usize,
}

impl Runtime {
    /// Every registered instance is well formed, registered under its
    /// record's identifier and placed on this daemon; `ids` lists exactly
    /// the registered identifiers.
    pub open spec fn wf(self) -> bool {
        &&& forall|k: u64|
            self.instances@.contains_key(k) ==> (#[trigger] self.instances@[k]).wf()
                && self.instances@[k].record.id == k && self.instances@[k].local == self.id
        &&& forall|i: int, j: int|
            0 <= i < j < self.ids@.len() ==> (#[trigger] self.ids@[i]) != (#[trigger] self.ids@[j])
        &&& forall|i: int|
            0 <= i < self.ids@.len() ==> self.instances@.contains_key(#[trigger] self.ids@[i])
        &&& forall|k: u64| #[trigger] self.instances@.contains_key(k) ==> self.ids@.contains(k)
        &&& self.capacity >= 1
    }

    pub fn new(id: u64, extensions: Vec<u64>, capacity: usize) -> (rt: Runtime)
        requires
            capacity >= 1,
        ensures
            rt.wf(),
            rt.id == id,
            rt.extensions == extensions,
            rt.capacity == capacity,
            rt.instances@ == Map::<u64, DataFlowInstance>::empty(),
    {
        Runtime { id, instances: HashMap::new(), ids: Vec::new(), extensions, capacity }
    }

    /// Loads a record. Idempotent on the same identifier exactly when the
    /// record is byte-identical to the one already loaded; a divergent
    /// record is refused. A fresh record is instantiated with idle runners;
    /// when some local node's loader extension is unknown the instance is
    /// registered quarantined instead of `Created`.
    pub fn try_load(&mut self, record: DataFlowRecord) -> (r: Result<(), DataFlowErr>)
        requires
            old(self).wf(),
            record.wf(),
        ensures
            final(self).wf(),
            final(self).id == old(self).id,
            final(self).extensions == old(self).extensions,
            final(self).capacity == old(self).capacity,
            old(self).instances@.contains_key(record.id) && enc_record(record_view(record))
                == enc_record(record_view(old(self).instances@[record.id].record)) ==> (
            r matches Ok(u) && u == ()) && final(self).instances@ == old(self).instances@,
            old(self).instances@.contains_key(record.id) && enc_record(record_view(record))
                != enc_record(record_view(old(self).instances@[record.id].record)) ==> (
            r matches Err(e) && e == DataFlowErr::AlreadyExists) && final(self).instances@ == old(
                self,
            ).instances@,
            !old(self).instances@.contains_key(record.id) ==> (r matches Ok(u) && u == ())
                && final(self).instances@.contains_key(record.id) && final(self).instances@
                == old(self).instances@.insert(record.id, final(self).instances@[record.id]) && (
            {
                let inst = final(self).instances@[record.id];
                &&& inst.record == record
                &&& inst.local == old(self).id
                &&& all_runners(inst.runners@, RunnerState::Idle)
                &&& inst.status == (if record_loadable(record, old(self).id, old(
                    self,
                ).extensions@) {
                    InstanceStatus::Created
                } else {
                    InstanceStatus::Failed(crate::status::FailureKind::Load)
                })
            }),
    {
        let rid = record.id;
        match self.instances.get(&rid) {
            Some(existing) => {
                if records_identical(&record, &existing.record) {
                    Ok(())
                } else {
                    Err(DataFlowErr::AlreadyExists)
                }
            },
            None => {
                let loadable = check_loadable(&record, self.id, &self.extensions);
                let mut inst = DataFlowInstance::new(record, self.id, self.capacity);
                if loadable {
                    inst.mark_created();
                } else {
                    inst.mark_failed(crate::status::FailureKind::Load);
                }
                self.instances.insert(rid, inst);
                self.ids.push(rid);
                proof {
                    assert forall|k: u64| #[trigger] self.instances@.contains_key(k) implies
                        self.ids@.contains(k) by {
                        if k == rid {
                            assert(self.ids@[self.ids@.len() - 1] == rid);
                        } else {
                            assert(old(self).instances@.contains_key(k));
                            let i = choose|i: int|
                                0 <= i < old(self).ids@.len() && old(self).ids@[i] == k;
                            assert(self.ids@[i] == k);
                        }
                    }
                }
                Ok(())
            },
        }
    }

    /// Starts an instance: every runner's resume hook runs and the runners
    /// start; the execution layer reports the nodes whose hooks failed.
    pub fn try_start(&mut self, id: u64, resume_failures: &Vec<u64>) -> (r: Result<
        (),
        DataFlowErr,
    >)
        requires
            old(self).wf(),
        ensures
            final(self).wf(),
            final(self).id == old(self).id,
            final(self).extensions == old(self).extensions,
            final(self).capacity == old(self).capacity,
            !old(self).instances@.contains_key(id) ==> (r matches Err(e) && e
                == DataFlowErr::NotFound) && final(self).instances@ == old(self).instances@,
            old(self).instances@.contains_key(id) && !(old(self).instances@[id].status
                == InstanceStatus::Created || old(self).instances@[id].status
                == InstanceStatus::Aborted) ==> (r matches Err(e) && e
                == DataFlowErr::InvalidTransition) && final(self).instances@ == old(
                self,
            ).instances@,
            old(self).instances@.contains_key(id) && (old(self).instances@[id].status
                == InstanceStatus::Created || old(self).instances@[id].status
                == InstanceStatus::Aborted) ==> (r matches Ok(u) && u == ()) && final(self).instances@ == old(self).instances@.insert(id, final(self).instances@[id])
                && start_all_rel(
                old(self).instances@[id],
                final(self).instances@[id],
                resume_failures@,
            ),
    {
        match self.instances.remove(&id) {
            None => {
                proof {
                    assert(final(self).instances@ =~= old(self).instances@);
                }
                Err(DataFlowErr::NotFound)
            },
            Some(mut inst) => {
                let startable = matches!(
                    inst.status,
                    InstanceStatus::Created | InstanceStatus::Aborted
                );
                if !startable {
                    self.instances.insert(id, inst);
                    proof {
                        assert(self.instances@ =~= old(self).instances@);
                    }
                    Err(DataFlowErr::InvalidTransition)
                } else {
                    inst.start_all(resume_failures);
                    self.instances.insert(id, inst);
                    proof {
                        assert(self.instances@ =~= old(self).instances@.insert(
                            id,
                            self.instances@[id],
                        ));
                    }
                    Ok(())
                }
            },
        }
    }

    /// Aborts an instance: running runners are cooperatively cancelled; a
    /// quarantined instance may also be aborted so the operator can stop
    /// what a partial start left running.
    pub fn try_abort(&mut self, id: u64) -> (r: Result<(), DataFlowErr>)
        requires
            old(self).wf(),
        ensures
            final(self).wf(),
            final(self).id == old(self).id,
            final(self).extensions == old(self).extensions,
            final(self).capacity == old(self).capacity,
            !old(self).instances@.contains_key(id) ==> (r matches Err(e) && e
                == DataFlowErr::NotFound) && final(self).instances@ == old(self).instances@,
            old(self).instances@.contains_key(id) && !(old(self).instances@[id].status
                == InstanceStatus::Running || old(self).instances@[id].status matches
                InstanceStatus::Failed(_)) ==> (r matches Err(e) && e
                == DataFlowErr::InvalidTransition) && final(self).instances@ == old(
                self,
            ).instances@,
            old(self).instances@.contains_key(id) && (old(self).instances@[id].status
                == InstanceStatus::Running || old(self).instances@[id].status matches
                InstanceStatus::Failed(_)) ==> (r matches Ok(u) && u == ()) && final(self).instances@ == old(self).instances@.insert(id, final(self).instances@[id])
                && abort_all_rel(old(self).instances@[id], final(self).instances@[id]),
    {
        match self.instances.remove(&id) {
            None => {
                proof {
                    assert(final(self).instances@ =~= old(self).instances@);
                }
                Err(DataFlowErr::NotFound)
            },
            Some(mut inst) => {
                let abortable = matches!(
                    inst.status,
                    InstanceStatus::Running | InstanceStatus::Failed(_)
                );
                if !abortable {
                    self.instances.insert(id, inst);
                    proof {
                        assert(self.instances@ =~= old(self).instances@);
                    }
                    Err(DataFlowErr::InvalidTransition)
                } else {
                    let _all_idle = inst.abort_all();
                    self.instances.insert(id, inst);
                    proof {
                        assert(self.instances@ =~= old(self).instances@.insert(
                            id,
                            self.instances@[id],
                        ));
                    }
                    Ok(())
                }
            },
        }
    }

    /// Deletes an instance. Legal once the instance is settled: `Created`,
    /// `Aborted` or quarantined; a running instance must be aborted first.
    pub fn try_delete(&mut self, id: u64) -> (r: Result<(), DataFlowErr>)
        requires
            old(self).wf(),
        ensures
            final(self).wf(),
            final(self).id == old(self).id,
            final(self).extensions == old(self).extensions,
            final(self).capacity == old(self).capacity,
            !old(self).instances@.contains_key(id) ==> (r matches Err(e) && e
                == DataFlowErr::NotFound) && final(self).instances@ == old(self).instances@,
            old(self).instances@.contains_key(id) && !deletable(old(self).instances@[id].status)
                ==> (r matches Err(e) && e == DataFlowErr::InvalidTransition) && final(self).instances@ == old(self).instances@,
            old(self).instances@.contains_key(id) && deletable(old(self).instances@[id].status)
                ==> (r matches Ok(u) && u == ()) && final(self).instances@ == old(
                self,
            ).instances@.remove(id),
    {
        match self.instances.remove(&id) {
            None => {
                proof {
                    assert(final(self).instances@ =~= old(self).instances@);
                }
                Err(DataFlowErr::NotFound)
            },
            Some(mut inst) => {
                let ok = matches!(
                    inst.status,
                    InstanceStatus::Created | InstanceStatus::Aborted | InstanceStatus::Failed(_)
                );
                if !ok {
                    self.instances.insert(id, inst);
                    proof {
                        assert(self.instances@ =~= old(self).instances@);
                    }
                    Err(DataFlowErr::InvalidTransition)
                } else {
                    if matches!(inst.status, InstanceStatus::Created | InstanceStatus::Aborted) {
                        inst.clean();
                    }
                    let n = self.ids.len();
                    let mut k: usize = 0;
                    let mut found: bool = false;
                    let mut at: usize = 0;
                    while k < n
                        invariant
                            k <= n,
                            n == self.ids@.len(),
                            found ==> at < n && self.ids@[at as int] == id,
                            !found ==> forall|k2: int| 0 <= k2 < k ==> self.ids@[k2] != id,
                        decreases n - k,
                    {
                        if self.ids[k] == id {
                            found = true;
                            at = k;
                        }
                        k = k + 1;
                    }
                    proof {
                        assert(old(self).ids@.contains(id));
                        if !found {
                            let k2 = choose|k2: int|
                                0 <= k2 < self.ids@.len() && self.ids@[k2] == id;
                            assert(false);
                        }
                    }
                    let ghost pre_ids = self.ids@;
                    self.ids.remove(at);
                    proof {
                        assert forall|i: int, j: int|
                            0 <= i < j < self.ids@.len() implies (#[trigger] self.ids@[i]) != (
                        #[trigger] self.ids@[j]) by {
                            let oi: int = if i < at { i } else { i + 1 };
                            let oj: int = if j < at { j } else { j + 1 };
                            assert(self.ids@[i] == pre_ids[oi]);
                            assert(self.ids@[j] == pre_ids[oj]);
                        }
                        assert forall|i: int| 0 <= i < self.ids@.len() implies self.instances@
                            .contains_key(#[trigger] self.ids@[i]) by {
                            let oi: int = if i < at { i } else { i + 1 };
                            assert(self.ids@[i] == pre_ids[oi]);
                            assert(pre_ids[oi] != id);
                        }
                        assert forall|k2: u64| #[trigger] self.instances@.contains_key(k2) implies
                            self.ids@.contains(k2) by {
                            let oi = choose|oi: int|
                                0 <= oi < pre_ids.len() && pre_ids[oi] == k2;
                            assert(k2 != id);
                            if oi < at {
                                assert(self.ids@[oi] == k2);
                            } else {
                                assert(self.ids@[oi - 1] == k2);
                            }
                        }
                        assert(final(self).instances@ =~= old(self).instances@.remove(id));
                    }
                    Ok(())
                }
            },
        }
    }

    /// The record of a loaded instance.
    pub fn try_get_record(&self, id: u64) -> (r: Result<&DataFlowRecord, DataFlowErr>)
        requires
            self.wf(),
        ensures
            match r {
                Ok(rec) => self.instances@.contains_key(id) && *rec == self.instances@[id].record,
                Err(e) => e == DataFlowErr::NotFound && !self.instances@.contains_key(id),
            },
    {
        match self.instances.get(&id) {
            Some(inst) => Ok(&inst.record),
            None => Err(DataFlowErr::NotFound),
        }
    }

    /// The status of a loaded instance.
    pub fn try_get_status(&self, id: u64) -> (r: Result<InstanceStatus, DataFlowErr>)
        requires
            self.wf(),
        ensures
            match r {
                Ok(s) => self.instances@.contains_key(id) && s == self.instances@[id].status,
                Err(e) => e == DataFlowErr::NotFound && !self.instances@.contains_key(id),
            },
    {
        match self.instances.get(&id) {
            Some(inst) => Ok(inst.status),
            None => Err(DataFlowErr::NotFound),
        }
    }

    /// The identifiers of every loaded instance.
    pub fn list_instances(&self) -> (r: Vec<u64>)
        requires
            self.wf(),
        ensures
            r@ == self.ids@,
            forall|k: u64| #[trigger] r@.contains(k) <==> self.instances@.contains_key(k),
    {
        let n = self.ids.len();
        let mut out: Vec<u64> = Vec::new();
        let mut i: usize = 0;
        while i < n
            invariant
                i <= n,
                n == self.ids@.len(),
                out@ == self.ids@.take(i as int),
            decreases n - i,
        {
            out.push(self.ids[i]);
            proof {
                assert(out@ =~= self.ids@.take(i + 1));
            }
            i = i + 1;
        }
        proof {
            assert(self.ids@.take(n as int) =~= self.ids@);
            assert forall|k: u64| #[trigger] out@.contains(k) implies self.instances@.contains_key(
                k,
            ) by {
                let i2 = choose|i2: int| 0 <= i2 < out@.len() && out@[i2] == k;
                assert(self.ids@[i2] == k);
            }
        }
        out
    }
}

} // verus!
