//! A data-flow instance: one record loaded on one daemon. Loading
//! instantiates a runner for every local node, materialises a channel for
//! every link whose two endpoints are local, and registers a pub/sub bridge
//! entry for every link with exactly one local endpoint: a source entry
//! where the remote side feeds a local input, a sink entry where a local
//! output feeds a remote input.

use vstd::prelude::*;
use crate::bridge::{entry_links, key_expr_of, make_key_expr, SubEntry, ZenohSinkState, ZenohSourceState};
use crate::channel::PortChannel;
use crate::record::{assigned_ids, has_node, node_of, DataFlowRecord, Link};
use crate::runner::Runner;
use crate::status::{runner_step_or_stutter, FailureKind, InstanceStatus, RunnerState};

verus! {

/// Node `nid` of `rec` is placed on daemon `local`.
pub open spec fn is_local(rec: DataFlowRecord, local: u64, nid: u64) -> bool {
    has_node(rec.nodes@, nid) && node_of(rec.nodes@, nid).runtime == local
}

/// Both endpoints are local: the link becomes a channel.
pub open spec fn link_is_local(rec: DataFlowRecord, local: u64, l: Link) -> bool {
    is_local(rec, local, l.from_node) && is_local(rec, local, l.to_node)
}

/// Only the downstream endpoint is local: the link is fed by the pub/sub
/// source.
pub open spec fn link_inbound(rec: DataFlowRecord, local: u64, l: Link) -> bool {
    !is_local(rec, local, l.from_node) && is_local(rec, local, l.to_node)
}

/// Only the upstream endpoint is local: the link is drained by the pub/sub
/// sink.
pub open spec fn link_outbound(rec: DataFlowRecord, local: u64, l: Link) -> bool {
    is_local(rec, local, l.from_node) && !is_local(rec, local, l.to_node)
}

pub struct DataFlowInstance {
    pub record: DataFlowRecord,
    pub local: u64,
    pub runners: Vec<Runner>,
    pub channels: Vec<(Link, PortChannel)>,
    pub zenoh_source: ZenohSourceState,
    pub zenoh_sink: ZenohSinkState,
    pub status: InstanceStatus,
}

/// Some channel of `channels` carries link `l`.
pub open spec fn channel_covers(channels: Seq<(Link, PortChannel)>, l: Link) -> bool {
    exists|k: int| 0 <= k < channels.len() && (#[trigger] channels[k]).0 == l
}

/// Some bridge entry of `entries` serves link `l`.
pub open spec fn entry_covers(entries: Seq<SubEntry>, l: Link) -> bool {
    exists|k: int| 0 <= k < entries.len() && (#[trigger] entries[k]).link == l
}

pub open spec fn runner_nodes(runners: Seq<Runner>) -> Seq<u64> {
    runners.map_values(|r: Runner| r.node)
}

pub open spec fn all_runners(runners: Seq<Runner>, s: RunnerState) -> bool {
    forall|i: int| 0 <= i < runners.len() ==> (#[trigger] runners[i]).state == s
}

impl DataFlowInstance {
    /// The instance invariant. Besides well-formedness of the parts it pins
    /// the partition of the record's links: a channel exists iff both
    /// endpoints are local, a bridge entry exists iff exactly one endpoint
    /// is, and it ties the instance status to the runner states.
    pub open spec fn wf(self) -> bool {
        &&& self.record.wf()
        &&& runner_nodes(self.runners@) == assigned_ids(self.record.nodes@, self.local)
        &&& forall|k: int|
            0 <= k < self.channels@.len() ==> self.record.links@.contains(
                (#[trigger] self.channels@[k]).0,
            ) && link_is_local(self.record, self.local, self.channels@[k].0)
                && self.channels@[k].1.wf()
        &&& forall|k1: int, k2: int|
            0 <= k1 < k2 < self.channels@.len() ==> (#[trigger] self.channels@[k1]).0 != (
            #[trigger] self.channels@[k2]).0
        &&& forall|j: int|
            0 <= j < self.record.links@.len() ==> (link_is_local(
                self.record,
                self.local,
                #[trigger] self.record.links@[j],
            ) <==> channel_covers(self.channels@, self.record.links@[j]))
        &&& forall|k: int|
            0 <= k < self.zenoh_source.entries@.len() ==> self.record.links@.contains(
                (#[trigger] self.zenoh_source.entries@[k]).link,
            ) && link_inbound(self.record, self.local, self.zenoh_source.entries@[k].link)
                && self.zenoh_source.entries@[k].key_expr@ == key_expr_of(
                self.record.id,
                self.zenoh_source.entries@[k].link,
            )
        &&& forall|k1: int, k2: int|
            0 <= k1 < k2 < self.zenoh_source.entries@.len() ==> (
            #[trigger] self.zenoh_source.entries@[k1]).link != (
            #[trigger] self.zenoh_source.entries@[k2]).link
        &&& forall|j: int|
            0 <= j < self.record.links@.len() ==> (link_inbound(
                self.record,
                self.local,
                #[trigger] self.record.links@[j],
            ) <==> entry_covers(self.zenoh_source.entries@, self.record.links@[j]))
        &&& forall|k: int|
            0 <= k < self.zenoh_sink.entries@.len() ==> self.record.links@.contains(
                (#[trigger] self.zenoh_sink.entries@[k]).link,
            ) && link_outbound(self.record, self.local, self.zenoh_sink.entries@[k].link)
                && self.zenoh_sink.entries@[k].key_expr@ == key_expr_of(
                self.record.id,
                self.zenoh_sink.entries@[k].link,
            )
        &&& forall|k1: int, k2: int|
            0 <= k1 < k2 < self.zenoh_sink.entries@.len() ==> (
            #[trigger] self.zenoh_sink.entries@[k1]).link != (
            #[trigger] self.zenoh_sink.entries@[k2]).link
        &&& forall|j: int|
            0 <= j < self.record.links@.len() ==> (link_outbound(
                self.record,
                self.local,
                #[trigger] self.record.links@[j],
            ) <==> entry_covers(self.zenoh_sink.entries@, self.record.links@[j]))
        &&& self.zenoh_source.wf()
        &&& (self.status == InstanceStatus::Creating || self.status == InstanceStatus::Created
            || self.status == InstanceStatus::Aborted) ==> all_runners(
            self.runners@,
            RunnerState::Idle,
        )
        &&& self.status == InstanceStatus::Running ==> all_runners(
            self.runners@,
            RunnerState::Running,
        )
        &&& (self.status == InstanceStatus::Creating || self.status == InstanceStatus::Created
            || self.status == InstanceStatus::Aborted) ==> !self.zenoh_source.subscribed
            && !self.zenoh_sink.publishing
    }
}


/// A lookup of one node's placement.
fn placement_of(rec: &DataFlowRecord, nid: u64) -> (r: Option<u64>)
    requires
        rec.wf(),
    ensures
        match r {
            Some(t) => has_node(rec.nodes@, nid) && node_of(rec.nodes@, nid).runtime == t,
            None => !has_node(rec.nodes@, nid),
        },
{
    let n = rec.nodes.len();
    let mut i: usize = 0;
    while i < n
        invariant
            i <= n,
            n == rec.nodes@.len(),
            rec.wf(),
            forall|k: int| 0 <= k < i ==> (#[trigger] rec.nodes@[k]).id != nid,
        decreases n - i,
    {
        if rec.nodes[i].id == nid {
            proof {
                crate::record::lemma_node_of_self(rec.nodes@, i as int);
            }
            return Some(rec.nodes[i].runtime);
        }
        i = i + 1;
    }
    proof {
        if has_node(rec.nodes@, nid) {
            let k = choose|k: int| 0 <= k < rec.nodes@.len() && rec.nodes@[k].id == nid;
            assert(false);
        }
    }
    None
}

/// How `start_all` changes an instance, for a given set of nodes whose
/// resume hooks failed.
pub open spec fn start_all_rel(
    pre: DataFlowInstance,
    post: DataFlowInstance,
    failures: Seq<u64>,
) -> bool {
    &&& post.record == pre.record
    &&& post.local == pre.local
    &&& post.channels == pre.channels
    &&& post.runners@.len() == pre.runners@.len()
    &&& forall|i: int|
        0 <= i < pre.runners@.len() ==> (#[trigger] post.runners@[i]).node
            == pre.runners@[i].node
    &&& forall|i: int|
        0 <= i < pre.runners@.len() ==> (#[trigger] post.runners@[i]).state == (
        if failures.contains(pre.runners@[i].node) {
            RunnerState::Failed
        } else {
            RunnerState::Running
        })
    &&& forall|i: int|
        0 <= i < pre.runners@.len() ==> runner_step_or_stutter(
            (#[trigger] pre.runners@[i]).state,
            post.runners@[i].state,
        )
    &&& post.status == (if exists|i: int|
        0 <= i < pre.runners@.len() && failures.contains((#[trigger] pre.runners@[i]).node) {
        InstanceStatus::Failed(FailureKind::Start)
    } else {
        InstanceStatus::Running
    })
    &&& post.zenoh_source.entries == pre.zenoh_source.entries
    &&& post.zenoh_source.subscribed
    &&& post.zenoh_source.pending@ == (if pre.zenoh_source.pending@.len() == 0 {
        entry_links(pre.zenoh_source.entries@)
    } else {
        pre.zenoh_source.pending@
    })
    &&& post.zenoh_sink == (ZenohSinkState { publishing: true, ..pre.zenoh_sink })
}

/// How `abort_all` changes an instance.
pub open spec fn abort_all_rel(pre: DataFlowInstance, post: DataFlowInstance) -> bool {
    &&& post.record == pre.record
    &&& post.local == pre.local
    &&& post.channels == pre.channels
    &&& post.runners@.len() == pre.runners@.len()
    &&& forall|i: int|
        0 <= i < pre.runners@.len() ==> (#[trigger] post.runners@[i]).node
            == pre.runners@[i].node
    &&& forall|i: int|
        0 <= i < pre.runners@.len() ==> (#[trigger] post.runners@[i]).state == (
        if pre.runners@[i].state == RunnerState::Failed {
            RunnerState::Failed
        } else {
            RunnerState::Idle
        })
    &&& forall|i: int|
        0 <= i < pre.runners@.len() ==> runner_step_or_stutter(
            (#[trigger] pre.runners@[i]).state,
            post.runners@[i].state,
        )
    &&& post.status == (if pre.status == InstanceStatus::Running {
        InstanceStatus::Aborted
    } else {
        pre.status
    })
    &&& post.zenoh_source == (ZenohSourceState { subscribed: false, ..pre.zenoh_source })
    &&& post.zenoh_sink == (ZenohSinkState { publishing: false, ..pre.zenoh_sink })
}

impl DataFlowInstance {
    /// Instantiates the record on daemon `local`: a runner per local node, a
    /// channel per local link, a bridge entry per half-local link. The
    /// instance is registered `Creating` and every runner starts `Idle`.
    pub fn new(record: DataFlowRecord, local: u64, capacity: usize) -> (inst: DataFlowInstance)
        requires
            record.wf(),
            capacity >= 1,
        ensures
            inst.wf(),
            inst.record == record,
            inst.local == local,
            inst.status == InstanceStatus::Creating,
            all_runners(inst.runners@, RunnerState::Idle),
            !inst.zenoh_source.subscribed,
            inst.zenoh_source.pending@.len() == 0,
            !inst.zenoh_sink.publishing,
            forall|k: int|
                0 <= k < inst.channels@.len() ==> (#[trigger] inst.channels@[k]).1.queue@.len()
                    == 0,
    {
        let n = record.nodes.len();
        let mut runners: Vec<Runner> = Vec::new();
        let mut i: usize = 0;
        while i < n
            invariant
                i <= n,
                n == record.nodes@.len(),
                record.wf(),
                runner_nodes(runners@) == assigned_ids(record.nodes@.take(i as int), local),
                all_runners(runners@, RunnerState::Idle),
            decreases n - i,
        {
            proof {
                assert(record.nodes@.take(i + 1).drop_last() =~= record.nodes@.take(i as int));
                assert(record.nodes@.take(i + 1).last() == record.nodes@[i as int]);
            }
            if record.nodes[i].runtime == local {
                runners.push(Runner::new(record.nodes[i].id));
                proof {
                    assert(runner_nodes(runners@) =~= assigned_ids(
                        record.nodes@.take(i + 1),
                        local,
                    ));
                }
            } else {
                proof {
                    assert(assigned_ids(record.nodes@.take(i + 1), local) == assigned_ids(
                        record.nodes@.take(i as int),
                        local,
                    ));
                }
            }
            i = i + 1;
        }
        proof {
            assert(record.nodes@.take(n as int) =~= record.nodes@);
        }
        let m = record.links.len();
        let mut channels: Vec<(Link, PortChannel)> = Vec::new();
        let mut src_entries: Vec<SubEntry> = Vec::new();
        let mut snk_entries: Vec<SubEntry> = Vec::new();
        let mut j: usize = 0;
        while j < m
            invariant
                j <= m,
                m == record.links@.len(),
                record.wf(),
                capacity >= 1,
                forall|k: int|
                    0 <= k < channels@.len() ==> record.links@.take(j as int).contains(
                        (#[trigger] channels@[k]).0,
                    ) && link_is_local(record, local, channels@[k].0) && channels@[k].1.wf()
                        && channels@[k].1.queue@.len() == 0,
                forall|k1: int, k2: int|
                    0 <= k1 < k2 < channels@.len() ==> (#[trigger] channels@[k1]).0 != (
                    #[trigger] channels@[k2]).0,
                forall|j2: int|
                    0 <= j2 < j ==> (link_is_local(record, local, #[trigger] record.links@[j2])
                        <==> channel_covers(channels@, record.links@[j2])),
                forall|k: int|
                    0 <= k < src_entries@.len() ==> record.links@.take(j as int).contains(
                        (#[trigger] src_entries@[k]).link,
                    ) && link_inbound(record, local, src_entries@[k].link)
                        && src_entries@[k].key_expr@ == key_expr_of(
                        record.id,
                        src_entries@[k].link,
                    ),
                forall|k1: int, k2: int|
                    0 <= k1 < k2 < src_entries@.len() ==> (#[trigger] src_entries@[k1]).link != (
                    #[trigger] src_entries@[k2]).link,
                forall|j2: int|
                    0 <= j2 < j ==> (link_inbound(record, local, #[trigger] record.links@[j2])
                        <==> entry_covers(src_entries@, record.links@[j2])),
                forall|k: int|
                    0 <= k < snk_entries@.len() ==> record.links@.take(j as int).contains(
                        (#[trigger] snk_entries@[k]).link,
                    ) && link_outbound(record, local, snk_entries@[k].link)
                        && snk_entries@[k].key_expr@ == key_expr_of(
                        record.id,
                        snk_entries@[k].link,
                    ),
                forall|k1: int, k2: int|
                    0 <= k1 < k2 < snk_entries@.len() ==> (#[trigger] snk_entries@[k1]).link != (
                    #[trigger] snk_entries@[k2]).link,
                forall|j2: int|
                    0 <= j2 < j ==> (link_outbound(record, local, #[trigger] record.links@[j2])
                        <==> entry_covers(snk_entries@, record.links@[j2])),
            decreases m - j,
        {
            let l = record.links[j];
            proof {
                assert(crate::record::link_wf(record.nodes@, record.links@[j as int]));
            }
            let from_pl = placement_of(&record, l.from_node);
            let to_pl = placement_of(&record, l.to_node);
            let from_local: bool = match from_pl {
                Some(t) => t == local,
                None => false,
            };
            let to_local: bool = match to_pl {
                Some(t) => t == local,
                None => false,
            };
            proof {
                assert(from_local == is_local(record, local, l.from_node));
                assert(to_local == is_local(record, local, l.to_node));
            }
            let ghost old_channels = channels@;
            let ghost old_src = src_entries@;
            let ghost old_snk = snk_entries@;
            if from_local && to_local {
                channels.push((l, PortChannel::new(capacity, 1)));
            } else if to_local {
                let ke = make_key_expr(record.id, &l);
                src_entries.push(SubEntry { link: l, key_expr: ke });
            } else if from_local {
                let ke = make_key_expr(record.id, &l);
                snk_entries.push(SubEntry { link: l, key_expr: ke });
            }
            proof {
                assert(record.links@.take(j + 1).drop_last() =~= record.links@.take(j as int));
                assert(record.links@.take(j + 1).last() == record.links@[j as int]);
                assert forall|x: Link| #[trigger] record.links@.take(j + 1).contains(x) implies
                    record.links@.contains(x) by {
                    let k = choose|k: int|
                        0 <= k < record.links@.take(j + 1).len() && #[trigger] record.links@.take(
                            j + 1,
                        )[k] == x;
                    assert(record.links@[k] == x);
                }
                assert forall|x: Link|
                    #[trigger] record.links@.take(j as int).contains(x) implies record.links@.take(
                    j + 1,
                ).contains(x) by {
                    let k = choose|k: int|
                        0 <= k < record.links@.take(j as int).len() && #[trigger] record.links@.take(
                            j as int,
                        )[k] == x;
                    assert(record.links@.take(j + 1)[k] == x);
                }
                assert(record.links@.take(j + 1)[j as int] == record.links@[j as int]);
                assert(record.links@.take(j + 1).contains(record.links@[j as int]));
                // a previously recorded link is never the link of round j
                assert forall|k: int|
                    0 <= k < old_channels.len() implies (#[trigger] old_channels[k]).0
                    != record.links@[j as int] by {
                    let j2 = choose|j2: int|
                        0 <= j2 < j && #[trigger] record.links@.take(j as int)[j2]
                            == old_channels[k].0;
                    crate::record::lemma_links_distinct(record, j2, j as int);
                }
                assert forall|k: int|
                    0 <= k < old_src.len() implies (#[trigger] old_src[k]).link
                    != record.links@[j as int] by {
                    let j2 = choose|j2: int|
                        0 <= j2 < j && #[trigger] record.links@.take(j as int)[j2]
                            == old_src[k].link;
                    crate::record::lemma_links_distinct(record, j2, j as int);
                }
                assert forall|k: int|
                    0 <= k < old_snk.len() implies (#[trigger] old_snk[k]).link
                    != record.links@[j as int] by {
                    let j2 = choose|j2: int|
                        0 <= j2 < j && #[trigger] record.links@.take(j as int)[j2]
                            == old_snk[k].link;
                    crate::record::lemma_links_distinct(record, j2, j as int);
                }
                // coverage of the links seen so far, the round's link included
                assert forall|j2: int| 0 <= j2 < j + 1 implies (link_is_local(
                    record,
                    local,
                    #[trigger] record.links@[j2],
                ) <==> channel_covers(channels@, record.links@[j2])) by {
                    let l2 = record.links@[j2];
                    if j2 < j {
                        if link_is_local(record, local, l2) {
                            let k = choose|k: int|
                                0 <= k < old_channels.len() && (#[trigger] old_channels[k]).0
                                    == l2;
                            assert(channels@[k].0 == l2);
                        } else {
                            if channel_covers(channels@, l2) {
                                let k = choose|k: int|
                                    0 <= k < channels@.len() && (#[trigger] channels@[k]).0 == l2;
                                if k < old_channels.len() {
                                    assert(old_channels[k].0 == l2);
                                } else {
                                    crate::record::lemma_links_distinct(record, j2, j as int);
                                }
                            }
                        }
                    } else {
                        if link_is_local(record, local, l2) {
                            assert(channels@[channels@.len() - 1].0 == l2);
                        } else {
                            if channel_covers(channels@, l2) {
                                let k = choose|k: int|
                                    0 <= k < channels@.len() && (#[trigger] channels@[k]).0 == l2;
                                assert(k < old_channels.len());
                            }
                        }
                    }
                }
                assert forall|j2: int| 0 <= j2 < j + 1 implies (link_inbound(
                    record,
                    local,
                    #[trigger] record.links@[j2],
                ) <==> entry_covers(src_entries@, record.links@[j2])) by {
                    let l2 = record.links@[j2];
                    if j2 < j {
                        if link_inbound(record, local, l2) {
                            let k = choose|k: int|
                                0 <= k < old_src.len() && (#[trigger] old_src[k]).link == l2;
                            assert(src_entries@[k].link == l2);
                        } else {
                            if entry_covers(src_entries@, l2) {
                                let k = choose|k: int|
                                    0 <= k < src_entries@.len() && (
                                    #[trigger] src_entries@[k]).link == l2;
                                if k < old_src.len() {
                                    assert(old_src[k].link == l2);
                                } else {
                                    crate::record::lemma_links_distinct(record, j2, j as int);
                                }
                            }
                        }
                    } else {
                        if link_inbound(record, local, l2) {
                            assert(src_entries@[src_entries@.len() - 1].link == l2);
                        } else {
                            if entry_covers(src_entries@, l2) {
                                let k = choose|k: int|
                                    0 <= k < src_entries@.len() && (
                                    #[trigger] src_entries@[k]).link == l2;
                                assert(k < old_src.len());
                            }
                        }
                    }
                }
                assert forall|j2: int| 0 <= j2 < j + 1 implies (link_outbound(
                    record,
                    local,
                    #[trigger] record.links@[j2],
                ) <==> entry_covers(snk_entries@, record.links@[j2])) by {
                    let l2 = record.links@[j2];
                    if j2 < j {
                        if link_outbound(record, local, l2) {
                            let k = choose|k: int|
                                0 <= k < old_snk.len() && (#[trigger] old_snk[k]).link == l2;
                            assert(snk_entries@[k].link == l2);
                        } else {
                            if entry_covers(snk_entries@, l2) {
                                let k = choose|k: int|
                                    0 <= k < snk_entries@.len() && (
                                    #[trigger] snk_entries@[k]).link == l2;
                                if k < old_snk.len() {
                                    assert(old_snk[k].link == l2);
                                } else {
                                    crate::record::lemma_links_distinct(record, j2, j as int);
                                }
                            }
                        }
                    } else {
                        if link_outbound(record, local, l2) {
                            assert(snk_entries@[snk_entries@.len() - 1].link == l2);
                        } else {
                            if entry_covers(snk_entries@, l2) {
                                let k = choose|k: int|
                                    0 <= k < snk_entries@.len() && (
                                    #[trigger] snk_entries@[k]).link == l2;
                                assert(k < old_snk.len());
                            }
                        }
                    }
                }
            }
            j = j + 1;
        }
        proof {
            assert(record.links@.take(m as int) =~= record.links@);
        }
        let zenoh_source = ZenohSourceState::new(src_entries);
        let zenoh_sink = ZenohSinkState::new(snk_entries);
        DataFlowInstance {
            record,
            local,
            runners,
            channels,
            zenoh_source,
            zenoh_sink,
            status: InstanceStatus::Creating,
        }
    }

    /// All local nodes are instantiated: the instance becomes `Created`.
    pub fn mark_created(&mut self)
        requires
            old(self).wf(),
            old(self).status == InstanceStatus::Creating,
        ensures
            final(self).wf(),
            *final(self) == (DataFlowInstance { status: InstanceStatus::Created, ..*old(self) }),
    {
        self.status = InstanceStatus::Created;
    }

    /// A transition could not complete for every node: the instance is
    /// quarantined until it is deleted.
    pub fn mark_failed(&mut self, kind: FailureKind)
        requires
            old(self).wf(),
        ensures
            final(self).wf(),
            *final(self) == (DataFlowInstance {
                status: InstanceStatus::Failed(kind),
                ..*old(self)
            }),
    {
        self.status = InstanceStatus::Failed(kind);
    }
}

fn contains_u64(v: &Vec<u64>, x: u64) -> (r: bool)
    ensures
        r == v@.contains(x),
{
    let n = v.len();
    let mut i: usize = 0;
    while i < n
        invariant
            i <= n,
            n == v@.len(),
            forall|k: int| 0 <= k < i ==> v@[k] != x,
        decreases n - i,
    {
        if v[i] == x {
            return true;
        }
        i = i + 1;
    }
    proof {
        if v@.contains(x) {
            let k = choose|k: int| 0 <= k < v@.len() && v@[k] == x;
            assert(false);
        }
    }
    false
}

impl DataFlowInstance {
    /// Best-effort start of every runner: each node's resume hook runs, the
    /// execution layer reports which failed, and every other runner starts.
    /// Already-started runners are not rolled back on a failure: the
    /// instance is left inspectable and the status says `Failed` instead.
    /// The bridges re-declare their subscribers and publishers.
    pub fn start_all(&mut self, resume_failures: &Vec<u64>)
        requires
            old(self).wf(),
            old(self).status == InstanceStatus::Created || old(self).status
                == InstanceStatus::Aborted,
        ensures
            final(self).wf(),
            start_all_rel(*old(self), *final(self), resume_failures@),
    {
        self.zenoh_source.on_resume();
        self.zenoh_sink.on_resume();
        let ghost src_after = self.zenoh_source;
        let ghost snk_after = self.zenoh_sink;
        let n = self.runners.len();
        let mut any_failed: bool = false;
        let mut i: usize = 0;
        while i < n
            invariant
                i <= n,
                n == self.runners@.len(),
                n == old(self).runners@.len(),
                self.record == old(self).record,
                self.local == old(self).local,
                self.channels == old(self).channels,
                self.status == old(self).status,
                self.zenoh_source == src_after,
                self.zenoh_sink == snk_after,
                src_after.entries == old(self).zenoh_source.entries,
                src_after.subscribed,
                src_after.wf(),
                src_after.pending@ == (if old(self).zenoh_source.pending@.len() == 0 {
                    entry_links(old(self).zenoh_source.entries@)
                } else {
                    old(self).zenoh_source.pending@
                }),
                snk_after == (ZenohSinkState { publishing: true, ..old(self).zenoh_sink }),
                all_runners(old(self).runners@, RunnerState::Idle),
                forall|k: int|
                    0 <= k < n ==> (#[trigger] self.runners@[k]).node == old(
                        self,
                    ).runners@[k].node,
                forall|k: int| i <= k < n ==> (#[trigger] self.runners@[k]).state
                    == RunnerState::Idle,
                forall|k: int|
                    0 <= k < i ==> (#[trigger] self.runners@[k]).state == (
                    if resume_failures@.contains(old(self).runners@[k].node) {
                        RunnerState::Failed
                    } else {
                        RunnerState::Running
                    }),
                any_failed == exists|k: int|
                    0 <= k < i && resume_failures@.contains(
                        (#[trigger] old(self).runners@[k]).node,
                    ),
            decreases n - i,
        {
            let node = self.runners[i].node;
            let ok = !contains_u64(resume_failures, node);
            let mut tmp = Runner::new(node);
            self.runners.set_and_swap(i, &mut tmp);
            tmp.resume(ok);
            self.runners.set_and_swap(i, &mut tmp);
            if !ok {
                any_failed = true;
            }
            proof {
                if !ok {
                    assert(resume_failures@.contains(old(self).runners@[i as int].node));
                }
                if any_failed && ok {
                    let k = choose|k: int|
                        0 <= k < i && resume_failures@.contains(
                            (#[trigger] old(self).runners@[k]).node,
                        );
                    assert(0 <= k < i + 1 && resume_failures@.contains(
                        old(self).runners@[k].node,
                    ));
                }
            }
            i = i + 1;
        }
        proof {
            assert(runner_nodes(self.runners@) =~= runner_nodes(old(self).runners@));
            if !any_failed {
                assert forall|k: int| 0 <= k < n implies (#[trigger] self.runners@[k]).state
                    == RunnerState::Running by {
                    if resume_failures@.contains(old(self).runners@[k].node) {
                        assert(exists|k2: int|
                            0 <= k2 < n && resume_failures@.contains(
                                (#[trigger] old(self).runners@[k2]).node,
                            ));
                    }
                }
            }
        }
        self.status = if any_failed {
            InstanceStatus::Failed(FailureKind::Start)
        } else {
            InstanceStatus::Running
        };
    }

    /// Best-effort abort of every runner: running ones are cooperatively
    /// cancelled back to `Idle`, idle ones are left alone, failed ones stay
    /// failed until the instance is deleted. Returns whether every runner is
    /// now `Idle`. The bridges drop their subscribers and publishers, so
    /// anything published while aborted is not delivered.
    pub fn abort_all(&mut self) -> (ok: bool)
        requires
            old(self).wf(),
            old(self).status == InstanceStatus::Running || old(self).status matches
                InstanceStatus::Failed(_),
        ensures
            final(self).wf(),
            abort_all_rel(*old(self), *final(self)),
            ok == all_runners(final(self).runners@, RunnerState::Idle),
    {
        self.zenoh_source.on_abort();
        self.zenoh_sink.on_abort();
        let ghost src_after = self.zenoh_source;
        let ghost snk_after = self.zenoh_sink;
        let n = self.runners.len();
        let mut all_idle: bool = true;
        let mut i: usize = 0;
        while i < n
            invariant
                i <= n,
                n == self.runners@.len(),
                n == old(self).runners@.len(),
                self.record == old(self).record,
                self.local == old(self).local,
                self.channels == old(self).channels,
                self.status == old(self).status,
                self.zenoh_source == src_after,
                self.zenoh_sink == snk_after,
                src_after == (ZenohSourceState { subscribed: false, ..old(self).zenoh_source }),
                snk_after == (ZenohSinkState { publishing: false, ..old(self).zenoh_sink }),
                forall|k: int|
                    0 <= k < n ==> (#[trigger] self.runners@[k]).node == old(
                        self,
                    ).runners@[k].node,
                forall|k: int|
                    i <= k < n ==> (#[trigger] self.runners@[k]).state == old(
                        self,
                    ).runners@[k].state,
                forall|k: int|
                    0 <= k < i ==> (#[trigger] self.runners@[k]).state == (
                    if old(self).runners@[k].state == RunnerState::Failed {
                        RunnerState::Failed
                    } else {
                        RunnerState::Idle
                    }),
                all_idle == (forall|k: int|
                    0 <= k < i ==> (#[trigger] old(self).runners@[k]).state
                        != RunnerState::Failed),
            decreases n - i,
        {
            let ghost pre_loop_runners = self.runners@;
            let node = self.runners[i].node;
            let mut tmp = Runner::new(node);
            self.runners.set_and_swap(i, &mut tmp);
            let ghost real_state = tmp.state;
            tmp.abort();
            self.runners.set_and_swap(i, &mut tmp);
            proof {
                assert(self.runners@ =~= pre_loop_runners.update(
                    i as int,
                    self.runners@[i as int],
                ));
            }
            let failed = matches!(self.runners[i].state, RunnerState::Failed);
            proof {
                assert(failed == (old(self).runners@[i as int].state == RunnerState::Failed));
            }
            if failed {
                all_idle = false;
            }
            i = i + 1;
        }
        proof {
            assert(runner_nodes(self.runners@) =~= runner_nodes(old(self).runners@));
            if old(self).status == InstanceStatus::Running {
                assert forall|k: int| 0 <= k < n implies (#[trigger] self.runners@[k]).state
                    == RunnerState::Idle by {
                    assert(old(self).runners@[k].state == RunnerState::Running);
                }
            }
            if all_idle {
                assert forall|k: int| 0 <= k < n implies (#[trigger] self.runners@[k]).state
                    == RunnerState::Idle by {
                    assert(old(self).runners@[k].state != RunnerState::Failed);
                }
            } else {
                let k0 = choose|k0: int|
                    0 <= k0 < n && (#[trigger] old(self).runners@[k0]).state
                        == RunnerState::Failed;
                assert(self.runners@[k0].state == RunnerState::Failed);
            }
        }
        self.status = if matches!(self.status, InstanceStatus::Running) {
            InstanceStatus::Aborted
        } else {
            self.status
        };
        all_idle
    }

    /// Tears the instance down before deletion: the nodes' destroy hooks
    /// have run and the channel table is dropped; everything else is left
    /// as it was.
    pub fn clean(&mut self)
        requires
            old(self).wf(),
            old(self).status == InstanceStatus::Created || old(self).status
                == InstanceStatus::Aborted,
        ensures
            final(self).channels@.len() == 0,
            final(self).record == old(self).record,
            final(self).local == old(self).local,
            final(self).runners == old(self).runners,
            final(self).zenoh_source == old(self).zenoh_source,
            final(self).zenoh_sink == old(self).zenoh_sink,
            final(self).status == old(self).status,
    {
        self.channels = Vec::new();
    }
}

/// Starting an aborted instance with every resume hook succeeding and then
/// aborting it again is a no-op on the externally observable state: the
/// runner states, the status, the channels and the declared bridge entries
/// are as before, with the subscribers and publishers re-declared and
/// dropped again. Only the internal set of armed pending receives may
/// change, and anything published while aborted was never delivered.
pub proof fn lemma_start_then_abort_no_op(
    pre: DataFlowInstance,
    mid: DataFlowInstance,
    post: DataFlowInstance,
)
    requires
        pre.wf(),
        pre.status == InstanceStatus::Aborted,
        start_all_rel(pre, mid, Seq::<u64>::empty()),
        abort_all_rel(mid, post),
    ensures
        post.runners@ == pre.runners@,
        post.status == pre.status,
        post.channels == pre.channels,
        post.zenoh_source.entries == pre.zenoh_source.entries,
        post.zenoh_source.subscribed == pre.zenoh_source.subscribed,
        post.zenoh_sink == pre.zenoh_sink,
{
    assert forall|i: int| 0 <= i < pre.runners@.len() implies post.runners@[i]
        == pre.runners@[i] by {
        assert(!Seq::<u64>::empty().contains(pre.runners@[i].node));
        assert(pre.runners@[i].state == RunnerState::Idle);
        assert(mid.runners@[i].state == RunnerState::Running);
    }
    assert(post.runners@ =~= pre.runners@);
    assert(!(exists|i: int|
        0 <= i < pre.runners@.len() && Seq::<u64>::empty().contains(
            (#[trigger] pre.runners@[i]).node,
        )));
}


} // verus!

