//! The control-plane message types: the tagged request unions that reach a
//! daemon's queryables, and the ghost mirrors of those messages that the
//! wire-format specifications are stated over.

use vstd::prelude::*;
use crate::record::{DataFlowRecord, Link, NodeDesc, NodeKind, PortDesc};

verus! {

/// Where a request came from. `Client` requests are fanned out to the peer
/// daemons of the record; `Daemon` requests never are, which prevents
/// re-fanout loops.
#[derive(Clone, Copy, Debug, PartialEq, Eq, Structural)]
pub enum Origin {
    Client,
    Daemon,
}

/// A request addressed to `zenoh-flow/<runtime_id>/instances`.
#[derive(Clone, Debug)]
pub enum InstancesQuery {
    Create { origin: Origin, record: DataFlowRecord },
    Start { origin: Origin, id: u64 },
    Abort { origin: Origin, id: u64 },
    Delete { origin: Origin, id: u64 },
    List,
    Status { id: u64 },
    Record { id: u64 },
}

/// A request addressed to `zenoh-flow/<runtime_id>/runtimes`.
#[derive(Clone, Copy, Debug, PartialEq, Eq, Structural)]
pub enum RuntimesQuery {
    Info,
    Status,
    List,
}

/// The mathematical value of one node description.
pub ghost struct SpecNode {
    pub id: u64,
    pub runtime: u64,
    pub kind: NodeKind,
    pub ext: u64,
    pub inputs: Seq<PortDesc>,
    pub outputs: Seq<PortDesc>,
    pub config: Seq<u64>,
}

/// The mathematical value of one record.
pub ghost struct SpecRecord {
    pub id: u64,
    pub nodes: Seq<SpecNode>,
    pub links: Seq<Link>,
}

/// The mathematical value of one instances request.
pub ghost enum SpecInstancesQuery {
    Create { origin: Origin, record: SpecRecord },
    Start { origin: Origin, id: u64 },
    Abort { origin: Origin, id: u64 },
    Delete { origin: Origin, id: u64 },
    List,
    Status { id: u64 },
    Record { id: u64 },
}

pub open spec fn node_view(n: NodeDesc) -> SpecNode {
    SpecNode {
        id: n.id,
        runtime: n.runtime,
        kind: n.kind,
        ext: n.ext,
        inputs: n.inputs@,
        outputs: n.outputs@,
        config: n.config@,
    }
}

pub open spec fn record_view(r: DataFlowRecord) -> SpecRecord {
    SpecRecord {
        id: r.id,
        nodes: r.nodes@.map_values(|n: NodeDesc| node_view(n)),
        links: r.links@,
    }
}

pub open spec fn query_view(q: InstancesQuery) -> SpecInstancesQuery {
    match q {
        InstancesQuery::Create { origin, record } => SpecInstancesQuery::Create {
            origin,
            record: record_view(record),
        },
        InstancesQuery::Start { origin, id } => SpecInstancesQuery::Start { origin, id },
        InstancesQuery::Abort { origin, id } => SpecInstancesQuery::Abort { origin, id },
        InstancesQuery::Delete { origin, id } => SpecInstancesQuery::Delete { origin, id },
        InstancesQuery::List => SpecInstancesQuery::List,
        InstancesQuery::Status { id } => SpecInstancesQuery::Status { id },
        InstancesQuery::Record { id } => SpecInstancesQuery::Record { id },
    }
}

/// The instance identifier a request speaks of, if any.
pub open spec fn query_target(q: SpecInstancesQuery) -> Option<u64> {
    match q {
        SpecInstancesQuery::Create { record, .. } => Some(record.id),
        SpecInstancesQuery::Start { id, .. } => Some(id),
        SpecInstancesQuery::Abort { id, .. } => Some(id),
        SpecInstancesQuery::Delete { id, .. } => Some(id),
        SpecInstancesQuery::List => None,
        SpecInstancesQuery::Status { id } => Some(id),
        SpecInstancesQuery::Record { id } => Some(id),
    }
}

} // verus!
