//! A per-machine dataflow runtime daemon, modelled and verified.
//!
//! Data-flow graphs ("records") are loaded as instances; each node of an
//! instance is driven by a runner with a small life-cycle state machine;
//! links between colocated nodes become bounded FIFO channels, links that
//! cross machines become pub/sub bridges; a control plane decodes JSON
//! requests, dispatches them to the runtime registry and fans mutations out
//! to the peer daemons named by the record.

pub mod bridge;
pub mod channel;
pub mod codec;
pub mod data;
pub mod instance;
pub mod protocol;
pub mod queries;
pub mod record;
pub mod runner;
pub mod runtime;
pub mod status;

use vstd::prelude::*;

verus! {

/// A daemon process is identified by a `RuntimeId`, a loaded graph by an
/// `InstanceId`; nodes and ports carry numeric identifiers that are unique
/// within their instance, respectively within their node.
pub type RuntimeId = u64;

pub type InstanceId = u64;

pub type NodeId = u64;

pub type PortId = u64;

} // verus!
