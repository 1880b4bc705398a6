//! The control plane: the selectors the daemon's two queryables answer on,
//! the dispatch of decoded requests into the runtime, and the fan-out of
//! client mutations to the peer daemons named by the record's mapping.

use vstd::prelude::*;
use crate::codec::{dec_iq, dec_rq, decode_instances_query, decode_runtimes_query, enc_iq, enc_u64, encode_create_daemon, encode_instances_query, encode_record, push_u64};
use crate::instance::{abort_all_rel, start_all_rel};
use crate::protocol::{query_view, record_view, InstancesQuery, Origin, RuntimesQuery, SpecInstancesQuery};
use crate::record::{covers, mapping_wf, DataFlowRecord};
use crate::runtime::{record_loadable, DataFlowErr, Runtime};
use crate::status::InstanceStatus;

verus! {

/// `zenoh-flow/`
pub open spec fn lit_selector_prefix() -> Seq<u8> {
    seq![122u8, 101, 110, 111, 104, 45, 102, 108, 111, 119, 47]
}

/// `/instances`
pub open spec fn lit_selector_instances() -> Seq<u8> {
    seq![47u8, 105, 110, 115, 116, 97, 110, 99, 101, 115]
}

/// `/runtimes`
pub open spec fn lit_selector_runtimes() -> Seq<u8> {
    seq![47u8, 114, 117, 110, 116, 105, 109, 101, 115]
}

/// The selector of a daemon's per-instance queryable:
/// `zenoh-flow/<runtime_id>/instances`.
pub open spec fn spec_selector_instances(rid: u64) -> Seq<u8> {
    lit_selector_prefix() + enc_u64(rid) + lit_selector_instances()
}

/// The selector of a daemon's runtime-scoped queryable:
/// `zenoh-flow/<runtime_id>/runtimes`.
pub open spec fn spec_selector_runtimes(rid: u64) -> Seq<u8> {
    lit_selector_prefix() + enc_u64(rid) + lit_selector_runtimes()
}

pub fn selector_instances(rid: u64) -> (s: Vec<u8>)
    ensures
        s@ == spec_selector_instances(rid),
{
    let mut s: Vec<u8> = Vec::new();
    s.push(122);
    s.push(101);
    s.push(110);
    s.push(111);
    s.push(104);
    s.push(45);
    s.push(102);
    s.push(108);
    s.push(111);
    s.push(119);
    s.push(47);
    push_u64(&mut s, rid);
    s.push(47);
    s.push(105);
    s.push(110);
    s.push(115);
    s.push(116);
    s.push(97);
    s.push(110);
    s.push(99);
    s.push(101);
    s.push(115);
    proof {
        assert(s@ =~= spec_selector_instances(rid));
    }
    s
}

pub fn selector_runtimes(rid: u64) -> (s: Vec<u8>)
    ensures
        s@ == spec_selector_runtimes(rid),
{
    let mut s: Vec<u8> = Vec::new();
    s.push(122);
    s.push(101);
    s.push(110);
    s.push(111);
    s.push(104);
    s.push(45);
    s.push(102);
    s.push(108);
    s.push(111);
    s.push(119);
    s.push(47);
    push_u64(&mut s, rid);
    s.push(47);
    s.push(114);
    s.push(117);
    s.push(110);
    s.push(116);
    s.push(105);
    s.push(109);
    s.push(101);
    s.push(115);
    proof {
        assert(s@ =~= spec_selector_runtimes(rid));
    }
    s
}


/// Decimal encodings are injective: equal digit strings mean equal values.
pub proof fn lemma_enc_u64_injective(a: u64, b: u64)
    requires
        enc_u64(a) == enc_u64(b),
    ensures
        a == b,
{
    let e = enc_u64(a);
    assert(e.subrange(0, e.len() as int) =~= e);
    crate::codec::lemma_digits_val_of_enc(e, 0, a);
    crate::codec::lemma_digits_val_of_enc(e, 0, b);
}

/// Two daemons never answer on the same instances selector.
pub proof fn lemma_selector_instances_injective(a: u64, b: u64)
    requires
        spec_selector_instances(a) == spec_selector_instances(b),
    ensures
        a == b,
{
    let sa = spec_selector_instances(a);
    let ea = enc_u64(a);
    let eb = enc_u64(b);
    assert(lit_selector_prefix().len() == 11);
    assert(lit_selector_instances().len() == 10);
    assert(sa.len() == 21 + ea.len());
    assert(spec_selector_instances(b).len() == 21 + eb.len());
    assert(ea.len() == eb.len());
    assert forall|m: int| 0 <= m < ea.len() implies ea[m] == eb[m] by {
        assert(sa[11 + m] == ea[m]);
        assert(spec_selector_instances(b)[11 + m] == eb[m]);
    }
    assert(ea =~= eb);
    lemma_enc_u64_injective(a, b);
}

/// One query the daemon still has to issue to a peer: a `get` on the peer's
/// instances selector carrying the daemon-tagged request.
pub struct FanOutRequest {
    pub target: u64,
    pub selector: Vec<u8>,
    pub payload: Vec<u8>,
}

/// What a control request answers with.
#[derive(Debug)]
pub enum QueryReply {
    /// The mutation was performed.
    Done,
    /// The request was refused with this error kind.
    Failed(DataFlowErr),
    /// The status of the asked-for instance.
    StatusIs(InstanceStatus),
    /// The canonical bytes of the asked-for record.
    RecordIs(Vec<u8>),
    /// The identifiers of the loaded instances.
    Instances(Vec<u64>),
    /// This daemon's identifier.
    InfoIs(u64),
}

/// The request with its origin replaced by `Daemon`, which peers do not fan
/// out again.
pub open spec fn daemonized(q: SpecInstancesQuery) -> SpecInstancesQuery {
    match q {
        SpecInstancesQuery::Create { origin, record } => SpecInstancesQuery::Create {
            origin: Origin::Daemon,
            record,
        },
        SpecInstancesQuery::Start { origin, id } => SpecInstancesQuery::Start {
            origin: Origin::Daemon,
            id,
        },
        SpecInstancesQuery::Abort { origin, id } => SpecInstancesQuery::Abort {
            origin: Origin::Daemon,
            id,
        },
        SpecInstancesQuery::Delete { origin, id } => SpecInstancesQuery::Delete {
            origin: Origin::Daemon,
            id,
        },
        SpecInstancesQuery::List => SpecInstancesQuery::List,
        SpecInstancesQuery::Status { id } => SpecInstancesQuery::Status { id },
        SpecInstancesQuery::Record { id } => SpecInstancesQuery::Record { id },
    }
}

/// Some fan-out request targets daemon `t`.
pub open spec fn fanout_covers(fo: Seq<FanOutRequest>, t: u64) -> bool {
    exists|j: int| 0 <= j < fo.len() && (#[trigger] fo[j]).target == t
}

/// The fan-out list is exactly one request per peer daemon of the mapping:
/// every group key other than this daemon's own identifier is targeted once,
/// on its instances selector, with the given payload.
pub open spec fn fanouts_wf(
    fo: Seq<FanOutRequest>,
    m: Seq<(u64, Vec<u64>)>,
    self_id: u64,
    payload: Seq<u8>,
) -> bool {
    &&& forall|j: int|
        0 <= j < fo.len() ==> (#[trigger] fo[j]).target != self_id && covers(m, fo[j].target)
            && fo[j].selector@ == spec_selector_instances(fo[j].target) && fo[j].payload@
            == payload
    &&& forall|k: int|
        0 <= k < m.len() && (#[trigger] m[k]).0 != self_id ==> fanout_covers(fo, m[k].0)
    &&& forall|j1: int, j2: int|
        0 <= j1 < j2 < fo.len() ==> (#[trigger] fo[j1]).target != (#[trigger] fo[j2]).target
}

fn copy_bytes(v: &Vec<u8>) -> (out: Vec<u8>)
    ensures
        out@ == v@,
{
    let n = v.len();
    let mut out: Vec<u8> = Vec::new();
    let mut i: usize = 0;
    while i < n
        invariant
            i <= n,
            n == v@.len(),
            out@ == v@.take(i as int),
        decreases n - i,
    {
        out.push(v[i]);
        proof {
            assert(out@ =~= v@.take(i + 1));
        }
        i = i + 1;
    }
    proof {
        assert(v@.take(n as int) =~= v@);
    }
    out
}

/// Builds one fan-out request per peer daemon of the mapping.
fn build_fanouts(m: &Vec<(u64, Vec<u64>)>, self_id: u64, payload: &Vec<u8>) -> (fo: Vec<
    FanOutRequest,
>)
    requires
        forall|k1: int, k2: int|
            0 <= k1 < k2 < m@.len() ==> (#[trigger] m@[k1]).0 != (#[trigger] m@[k2]).0,
    ensures
        fanouts_wf(fo@, m@, self_id, payload@),
{
    let n = m.len();
    let mut fo: Vec<FanOutRequest> = Vec::new();
    let mut k: usize = 0;
    while k < n
        invariant
            k <= n,
            n == m@.len(),
            forall|k1: int, k2: int|
                0 <= k1 < k2 < m@.len() ==> (#[trigger] m@[k1]).0 != (#[trigger] m@[k2]).0,
            forall|j: int|
                0 <= j < fo@.len() ==> (#[trigger] fo@[j]).target != self_id && covers(
                    m@,
                    fo@[j].target,
                ) && fo@[j].selector@ == spec_selector_instances(fo@[j].target)
                    && fo@[j].payload@ == payload@,
            forall|k2: int|
                0 <= k2 < k && (#[trigger] m@[k2]).0 != self_id ==> fanout_covers(fo@, m@[k2].0),
            forall|j: int|
                #![trigger fo@[j]]
                0 <= j < fo@.len() ==> exists|k2: int|
                    0 <= k2 < k && (#[trigger] m@[k2]).0 == fo@[j].target,
            forall|j1: int, j2: int|
                0 <= j1 < j2 < fo@.len() ==> (#[trigger] fo@[j1]).target != (
                #[trigger] fo@[j2]).target,
        decreases n - k,
    {
        let t = m[k].0;
        let ghost old_fo = fo@;
        if t != self_id {
            let sel = selector_instances(t);
            let pl = copy_bytes(payload);
            fo.push(FanOutRequest { target: t, selector: sel, payload: pl });
            proof {
                assert(covers(m@, t));
                assert forall|j1: int, j2: int|
                    0 <= j1 < j2 < fo@.len() implies (#[trigger] fo@[j1]).target != (
                #[trigger] fo@[j2]).target by {
                    if j2 == fo@.len() - 1 {
                        let k1 = choose|k1: int|
                            0 <= k1 < k && (#[trigger] m@[k1]).0 == old_fo[j1].target;
                        assert(m@[k1].0 != m@[k as int].0);
                    }
                }
            }
        }
        proof {
            assert forall|k2: int| 0 <= k2 < k + 1 && (#[trigger] m@[k2]).0 != self_id implies
                fanout_covers(fo@, m@[k2].0) by {
                if k2 == k {
                    assert(fo@[fo@.len() - 1].target == m@[k as int].0);
                } else {
                    let j = choose|j: int|
                        0 <= j < old_fo.len() && (#[trigger] old_fo[j]).target == m@[k2].0;
                    assert(fo@[j].target == m@[k2].0);
                }
            }
            assert forall|j: int| #![trigger fo@[j]] 0 <= j < fo@.len() implies exists|k2: int|
                0 <= k2 < k + 1 && (#[trigger] m@[k2]).0 == fo@[j].target by {
                if j < old_fo.len() {
                    let k2 = choose|k2: int|
                        0 <= k2 < k && (#[trigger] m@[k2]).0 == old_fo[j].target;
                    assert(m@[k2].0 == fo@[j].target);
                } else {
                    assert(m@[k as int].0 == fo@[j].target);
                }
            }
        }
        k = k + 1;
    }
    fo
}


/// Daemon `t` hosts at least one node of the record.
pub open spec fn hosts(rec: DataFlowRecord, t: u64) -> bool {
    exists|i: int| 0 <= i < rec.nodes@.len() && (#[trigger] rec.nodes@[i]).runtime == t
}

/// The fan-out list stated against the record itself: one request per peer
/// daemon that hosts a node, each on its instances selector with the given
/// payload, and nothing else.
pub open spec fn fanouts_for(
    fo: Seq<FanOutRequest>,
    rec: DataFlowRecord,
    self_id: u64,
    payload: Seq<u8>,
) -> bool {
    &&& forall|j: int|
        0 <= j < fo.len() ==> (#[trigger] fo[j]).target != self_id && hosts(rec, fo[j].target)
            && fo[j].selector@ == spec_selector_instances(fo[j].target) && fo[j].payload@
            == payload
    &&& forall|i: int|
        0 <= i < rec.nodes@.len() && (#[trigger] rec.nodes@[i]).runtime != self_id
            ==> fanout_covers(fo, rec.nodes@[i].runtime)
    &&& forall|j1: int, j2: int|
        0 <= j1 < j2 < fo.len() ==> (#[trigger] fo[j1]).target != (#[trigger] fo[j2]).target
}

/// A fan-out list built from the record's mapping reaches exactly the peer
/// daemons of the record.
pub proof fn lemma_fanouts_for(
    fo: Seq<FanOutRequest>,
    m: Seq<(u64, Vec<u64>)>,
    rec: DataFlowRecord,
    self_id: u64,
    payload: Seq<u8>,
)
    requires
        crate::record::mapping_wf(rec.nodes@, m),
        fanouts_wf(fo, m, self_id, payload),
    ensures
        fanouts_for(fo, rec, self_id, payload),
{
    assert forall|j: int| 0 <= j < fo.len() implies (#[trigger] fo[j]).target != self_id && hosts(
        rec,
        fo[j].target,
    ) && fo[j].selector@ == spec_selector_instances(fo[j].target) && fo[j].payload@ == payload by {
        let t = fo[j].target;
        assert(covers(m, t));
        let k = choose|k: int| 0 <= k < m.len() && (#[trigger] m[k]).0 == t;
        let a = crate::record::assigned_ids(rec.nodes@, t);
        assert(m[k].1@ == a && m[k].1@.len() > 0);
        assert(a.contains(a[0]));
        crate::record::lemma_assigned_membership(rec.nodes@, t, a[0]);
    }
    assert forall|i: int|
        0 <= i < rec.nodes@.len() && (#[trigger] rec.nodes@[i]).runtime != self_id implies
        fanout_covers(fo, rec.nodes@[i].runtime) by {
        let t = rec.nodes@[i].runtime;
        let k = choose|k: int| 0 <= k < m.len() && (#[trigger] m[k]).0 == t;
        assert(m[k].0 == t && m[k].0 != self_id);
    }
}

/// Everything one dispatched instances request guarantees: the reply, the
/// registry effect and the fan-out set, by request kind. Stated once, so the
/// dispatcher and the raw payload handler promise the same thing.
pub open spec fn process_post(
    pre: Runtime,
    post: Runtime,
    q: InstancesQuery,
    reply: QueryReply,
    fanouts: Seq<FanOutRequest>,
    failures: Seq<u64>,
) -> bool {
    // reads and refusals leave the registry alone
    &&& match query_view(q) {
            SpecInstancesQuery::List => post.instances@ == pre.instances@ && (
            reply matches QueryReply::Instances(ids) && forall|k: u64|
                #[trigger] ids@.contains(k) <==> pre.instances@.contains_key(k)) && fanouts.len()
                == 0,
            SpecInstancesQuery::Status { id } => post.instances@ == pre.instances@
                && fanouts.len() == 0 && (if pre.instances@.contains_key(id) {
                reply matches QueryReply::StatusIs(s) && s == pre.instances@[id].status
            } else {
                reply matches QueryReply::Failed(e) && e == DataFlowErr::NotFound
            }),
            SpecInstancesQuery::Record { id } => post.instances@ == pre.instances@
                && fanouts.len() == 0 && (if pre.instances@.contains_key(id) {
                reply matches QueryReply::RecordIs(b) && b@ == crate::codec::enc_record(
                    record_view(pre.instances@[id].record),
                )
            } else {
                reply matches QueryReply::Failed(e) && e == DataFlowErr::NotFound
            }),
            SpecInstancesQuery::Create { origin, record } => true,
            SpecInstancesQuery::Start { origin, id } => true,
            SpecInstancesQuery::Abort { origin, id } => true,
            SpecInstancesQuery::Delete { origin, id } => true,
        }
    // create: validation, idempotence, quarantine, fan-out
    &&& q matches InstancesQuery::Create { origin, record } ==> {
            let rid = record.id;
            &&& (!record.wf() ==> (reply matches QueryReply::Failed(e) && e
                == DataFlowErr::InvalidRequest) && post.instances@ == pre.instances@
                && fanouts.len() == 0)
            &&& (record.wf() && pre.instances@.contains_key(rid) && crate::codec::enc_record(
                record_view(record),
            ) == crate::codec::enc_record(record_view(pre.instances@[rid].record)) ==> (
            reply matches QueryReply::Done) && post.instances@ == pre.instances@)
            &&& (record.wf() && pre.instances@.contains_key(rid) && crate::codec::enc_record(
                record_view(record),
            ) != crate::codec::enc_record(record_view(pre.instances@[rid].record)) ==> (
            reply matches QueryReply::Failed(e) && e == DataFlowErr::AlreadyExists) && post.instances@ == pre.instances@ && fanouts.len() == 0)
            &&& (record.wf() && !pre.instances@.contains_key(rid) ==> (
            reply matches QueryReply::Done) && post.instances@.contains_key(rid) && post.instances@ == pre.instances@.insert(rid, post.instances@[rid]) && post.instances@[rid].record == record && post.instances@[rid].status == (
            if record_loadable(record, pre.id, pre.extensions@) {
                InstanceStatus::Created
            } else {
                InstanceStatus::Failed(crate::status::FailureKind::Load)
            }))
            &&& (record.wf() && (reply matches QueryReply::Done) && origin == Origin::Client
                ==> fanouts_for(fanouts, record, pre.id, enc_iq(daemonized(query_view(q)))))
            &&& (origin == Origin::Daemon ==> fanouts.len() == 0)
        }
    // start: dispatch and fan-out
    &&& q matches InstancesQuery::Start { origin, id } ==> {
            &&& (!pre.instances@.contains_key(id) ==> (reply matches QueryReply::Failed(e) && e
                == DataFlowErr::NotFound) && post.instances@ == pre.instances@
                && fanouts.len() == 0)
            &&& (pre.instances@.contains_key(id) && !(pre.instances@[id].status
                == InstanceStatus::Created || pre.instances@[id].status
                == InstanceStatus::Aborted) ==> (reply matches QueryReply::Failed(e) && e
                == DataFlowErr::InvalidTransition) && post.instances@ == pre.instances@
                && fanouts.len() == 0)
            &&& (pre.instances@.contains_key(id) && (pre.instances@[id].status
                == InstanceStatus::Created || pre.instances@[id].status
                == InstanceStatus::Aborted) ==> (reply matches QueryReply::Done) && post.instances@ == pre.instances@.insert(id, post.instances@[id])
                && start_all_rel(
                pre.instances@[id],
                post.instances@[id],
                failures,
            ) && (origin == Origin::Client ==> fanouts_for(
                fanouts,
                pre.instances@[id].record,
                pre.id,
                enc_iq(daemonized(query_view(q))),
            )))
            &&& (origin == Origin::Daemon ==> fanouts.len() == 0)
        }
    // abort: dispatch and fan-out
    &&& q matches InstancesQuery::Abort { origin, id } ==> {
            &&& (!pre.instances@.contains_key(id) ==> (reply matches QueryReply::Failed(e) && e
                == DataFlowErr::NotFound) && post.instances@ == pre.instances@
                && fanouts.len() == 0)
            &&& (pre.instances@.contains_key(id) && !(pre.instances@[id].status
                == InstanceStatus::Running || pre.instances@[id].status matches
                InstanceStatus::Failed(_)) ==> (reply matches QueryReply::Failed(e) && e
                == DataFlowErr::InvalidTransition) && post.instances@ == pre.instances@
                && fanouts.len() == 0)
            &&& (pre.instances@.contains_key(id) && (pre.instances@[id].status
                == InstanceStatus::Running || pre.instances@[id].status matches
                InstanceStatus::Failed(_)) ==> (reply matches QueryReply::Done) && post.instances@ == pre.instances@.insert(id, post.instances@[id])
                && abort_all_rel(pre.instances@[id], post.instances@[id]) && (origin
                == Origin::Client ==> fanouts_for(
                fanouts,
                pre.instances@[id].record,
                pre.id,
                enc_iq(daemonized(query_view(q))),
            )))
            &&& (origin == Origin::Daemon ==> fanouts.len() == 0)
        }
    // delete: dispatch and fan-out
    &&& q matches InstancesQuery::Delete { origin, id } ==> {
            &&& (!pre.instances@.contains_key(id) ==> (reply matches QueryReply::Failed(e) && e
                == DataFlowErr::NotFound) && post.instances@ == pre.instances@
                && fanouts.len() == 0)
            &&& (pre.instances@.contains_key(id) && !crate::status::deletable(
                pre.instances@[id].status,
            ) ==> (reply matches QueryReply::Failed(e) && e == DataFlowErr::InvalidTransition)
                && post.instances@ == pre.instances@ && fanouts.len() == 0)
            &&& (pre.instances@.contains_key(id) && crate::status::deletable(
                pre.instances@[id].status,
            ) ==> (reply matches QueryReply::Done) && post.instances@
                == pre.instances@.remove(id) && (origin == Origin::Client ==> fanouts_for(
                fanouts,
                pre.instances@[id].record,
                pre.id,
                enc_iq(daemonized(query_view(q))),
            )))
            &&& (origin == Origin::Daemon ==> fanouts.len() == 0)
        }
}

/// Handles one decoded instances request: validate, dispatch into the
/// runtime, and — when a client's lifecycle mutation succeeded locally —
/// fan the daemon-tagged equivalent out to every peer daemon of the
/// record's mapping. `resume_failures` reports the nodes whose resume hooks
/// the execution layer saw fail.
pub fn process_instances_query(
    rt: &mut Runtime,
    q: InstancesQuery,
    resume_failures: &Vec<u64>,
) -> (r: (QueryReply, Vec<FanOutRequest>))
    requires
        old(rt).wf(),
    ensures
        final(rt).wf(),
        final(rt).id == old(rt).id,
        final(rt).extensions == old(rt).extensions,
        process_post(*old(rt), *final(rt), q, r.0, r.1@, resume_failures@),

{
    match q {
        InstancesQuery::List => {
            let ids = rt.list_instances();
            (QueryReply::Instances(ids), Vec::new())
        },
        InstancesQuery::Status { id } => {
            match rt.try_get_status(id) {
                Ok(s) => (QueryReply::StatusIs(s), Vec::new()),
                Err(e) => (QueryReply::Failed(e), Vec::new()),
            }
        },
        InstancesQuery::Record { id } => {
            match rt.try_get_record(id) {
                Ok(rec) => {
                    let bytes = encode_record(rec);
                    (QueryReply::RecordIs(bytes), Vec::new())
                },
                Err(e) => (QueryReply::Failed(e), Vec::new()),
            }
        },
        InstancesQuery::Create { origin, record } => {
            if !record.is_well_formed() {
                return (QueryReply::Failed(DataFlowErr::InvalidRequest), Vec::new());
            }
            let m = record.mapping();
            let payload = encode_create_daemon(&record);
            let is_client = matches!(origin, Origin::Client);
            let self_id = rt.id;
            let ghost rec_ghost = record;
            match rt.try_load(record) {
                Ok(_u) => {
                    if is_client {
                        let fo = build_fanouts(&m, self_id, &payload);
                        proof {
                            lemma_fanouts_for(fo@, m@, rec_ghost, self_id, payload@);
                        }
                        (QueryReply::Done, fo)
                    } else {
                        (QueryReply::Done, Vec::new())
                    }
                },
                Err(e) => (QueryReply::Failed(e), Vec::new()),
            }
        },
        InstancesQuery::Start { origin, id } => {
            let is_client = matches!(origin, Origin::Client);
            let self_id = rt.id;
            let mut m_found: Option<Vec<(u64, Vec<u64>)>> = None;
            match rt.try_get_record(id) {
                Ok(rec) => {
                    m_found = Some(rec.mapping());
                },
                Err(_e) => {},
            }
            let payload = encode_instances_query(
                &InstancesQuery::Start { origin: Origin::Daemon, id },
            );
            match rt.try_start(id, resume_failures) {
                Ok(_u) => {
                    match m_found {
                        Some(m) => {
                            if is_client {
                                let fo = build_fanouts(&m, self_id, &payload);
                                proof {
                                    lemma_fanouts_for(
                                        fo@,
                                        m@,
                                        old(rt).instances@[id].record,
                                        self_id,
                                        payload@,
                                    );
                                }
                                (QueryReply::Done, fo)
                            } else {
                                (QueryReply::Done, Vec::new())
                            }
                        },
                        None => (QueryReply::Done, Vec::new()),
                    }
                },
                Err(e) => (QueryReply::Failed(e), Vec::new()),
            }
        },
        InstancesQuery::Abort { origin, id } => {
            let is_client = matches!(origin, Origin::Client);
            let self_id = rt.id;
            let mut m_found: Option<Vec<(u64, Vec<u64>)>> = None;
            match rt.try_get_record(id) {
                Ok(rec) => {
                    m_found = Some(rec.mapping());
                },
                Err(_e) => {},
            }
            let payload = encode_instances_query(
                &InstancesQuery::Abort { origin: Origin::Daemon, id },
            );
            match rt.try_abort(id) {
                Ok(_u) => {
                    match m_found {
                        Some(m) => {
                            if is_client {
                                let fo = build_fanouts(&m, self_id, &payload);
                                proof {
                                    lemma_fanouts_for(
                                        fo@,
                                        m@,
                                        old(rt).instances@[id].record,
                                        self_id,
                                        payload@,
                                    );
                                }
                                (QueryReply::Done, fo)
                            } else {
                                (QueryReply::Done, Vec::new())
                            }
                        },
                        None => (QueryReply::Done, Vec::new()),
                    }
                },
                Err(e) => (QueryReply::Failed(e), Vec::new()),
            }
        },
        InstancesQuery::Delete { origin, id } => {
            let is_client = matches!(origin, Origin::Client);
            let self_id = rt.id;
            let mut m_found: Option<Vec<(u64, Vec<u64>)>> = None;
            match rt.try_get_record(id) {
                Ok(rec) => {
                    m_found = Some(rec.mapping());
                },
                Err(_e) => {},
            }
            let payload = encode_instances_query(
                &InstancesQuery::Delete { origin: Origin::Daemon, id },
            );
            match rt.try_delete(id) {
                Ok(_u) => {
                    match m_found {
                        Some(m) => {
                            if is_client {
                                let fo = build_fanouts(&m, self_id, &payload);
                                proof {
                                    lemma_fanouts_for(
                                        fo@,
                                        m@,
                                        old(rt).instances@[id].record,
                                        self_id,
                                        payload@,
                                    );
                                }
                                (QueryReply::Done, fo)
                            } else {
                                (QueryReply::Done, Vec::new())
                            }
                        },
                        None => (QueryReply::Done, Vec::new()),
                    }
                },
                Err(e) => (QueryReply::Failed(e), Vec::new()),
            }
        },
    }
}

/// Handles one raw payload received on the instances selector: decode, then
/// process. A payload that does not decode is refused as malformed; one that
/// decodes is dispatched as the request it decodes to, with everything the
/// dispatcher promises for that request.
pub fn handle_instances_payload(rt: &mut Runtime, payload: &[u8], resume_failures: &Vec<u64>) -> (r:
    (QueryReply, Vec<FanOutRequest>))
    requires
        old(rt).wf(),
    ensures
        final(rt).wf(),
        final(rt).id == old(rt).id,
        final(rt).extensions == old(rt).extensions,
        dec_iq(payload@) is None ==> (r.0 matches QueryReply::Failed(e) && e
            == DataFlowErr::InvalidRequest) && final(rt).instances@ == old(rt).instances@
            && r.1@.len() == 0,
        dec_iq(payload@) matches Some(sq) ==> exists|q: InstancesQuery|
            #[trigger] query_view(q) == sq && process_post(
                *old(rt),
                *final(rt),
                q,
                r.0,
                r.1@,
                resume_failures@,
            ),
{
    match decode_instances_query(payload) {
        Some(q) => {
            let ghost qg = q;
            let out = process_instances_query(rt, q, resume_failures);
            proof {
                assert(dec_iq(payload@) == Some(query_view(qg)));
            }
            out
        },
        None => (QueryReply::Failed(DataFlowErr::InvalidRequest), Vec::new()),
    }
}

/// Handles one decoded runtime-scoped request: pure introspection, no
/// mutation and no fan-out.
pub fn process_runtimes_query(rt: &Runtime, q: RuntimesQuery) -> (r: QueryReply)
    requires
        rt.wf(),
    ensures
        match q {
            RuntimesQuery::Info => r matches QueryReply::InfoIs(id) && id == rt.id,
            RuntimesQuery::Status => r matches QueryReply::Instances(ids) && forall|k: u64|
                #[trigger] ids@.contains(k) <==> rt.instances@.contains_key(k),
            RuntimesQuery::List => r matches QueryReply::Instances(ids) && forall|k: u64|
                #[trigger] ids@.contains(k) <==> rt.instances@.contains_key(k),
        },
{
    match q {
        RuntimesQuery::Info => QueryReply::InfoIs(rt.id),
        RuntimesQuery::Status => QueryReply::Instances(rt.list_instances()),
        RuntimesQuery::List => QueryReply::Instances(rt.list_instances()),
    }
}

/// Handles one raw payload received on the runtimes selector: a payload
/// that does not decode is refused as malformed, one that decodes is
/// answered as the request it decodes to.
pub fn handle_runtimes_payload(rt: &Runtime, payload: &[u8]) -> (r: QueryReply)
    requires
        rt.wf(),
    ensures
        dec_rq(payload@) is None ==> (r matches QueryReply::Failed(e) && e
            == DataFlowErr::InvalidRequest),
        dec_rq(payload@) matches Some(q) ==> {
            &&& (q == RuntimesQuery::Info ==> (r matches QueryReply::InfoIs(id) && id == rt.id))
            &&& ((q == RuntimesQuery::Status || q == RuntimesQuery::List) ==> (
            r matches QueryReply::Instances(ids) && forall|k: u64|
                #[trigger] ids@.contains(k) <==> rt.instances@.contains_key(k)))
        },
{
    match decode_runtimes_query(payload) {
        Some(q) => process_runtimes_query(rt, q),
        None => QueryReply::Failed(DataFlowErr::InvalidRequest),
    }
}

/// Aggregates the local outcome of a control mutation with the replies the
/// fan-out gathered from the peers; peer failures and timeouts are attached
/// to the reply, never masking the local outcome.
pub struct Reply {
    pub local: QueryReply,
    pub peers: Vec<(u64, Result<(), DataFlowErr>)>,
}

/// Builds the aggregate reply. The local outcome is carried through
/// untouched, whatever the peers answered; a peer that timed out appears
/// with `PeerTimeout`.
pub fn aggregate_reply(local: QueryReply, peers: Vec<(u64, Result<(), DataFlowErr>)>) -> (r: Reply)
    ensures
        r.local == local,
        r.peers == peers,
{
    Reply { local, peers }
}

} // verus!
