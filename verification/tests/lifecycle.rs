use zenoh_flow::instance::DataFlowInstance;
use zenoh_flow::record::{DataFlowRecord, Link, NodeDesc, NodeKind, PortDesc};
use zenoh_flow::runtime::{DataFlowErr, Runtime};
use zenoh_flow::status::InstanceStatus;

fn two_node_record(id: u64, rt_a: u64, rt_b: u64) -> DataFlowRecord {
    DataFlowRecord {
        id,
        nodes: vec![
            NodeDesc {
                id: 1,
                runtime: rt_a,
                kind: NodeKind::Source,
                ext: 0,
                inputs: vec![],
                outputs: vec![PortDesc { id: 10, port_type: 7 }],
                config: vec![],
            },
            NodeDesc {
                id: 2,
                runtime: rt_b,
                kind: NodeKind::Sink,
                ext: 0,
                inputs: vec![PortDesc { id: 20, port_type: 7 }],
                outputs: vec![],
                config: vec![],
            },
        ],
        links: vec![Link { from_node: 1, from_port: 10, to_node: 2, to_port: 20 }],
    }
}

#[test]
fn create_empty_record_succeeds() {
    let mut rt = Runtime::new(1, vec![], 16);
    let rec = DataFlowRecord { id: 5, nodes: vec![], links: vec![] };
    assert!(rec.is_well_formed());
    assert!(rt.try_load(rec).is_ok());
    assert_eq!(rt.try_get_status(5).unwrap(), InstanceStatus::Created);
    let inst = DataFlowInstance::new(
        DataFlowRecord { id: 5, nodes: vec![], links: vec![] },
        1,
        16,
    );
    assert_eq!(inst.runners.len(), 0);
    assert_eq!(inst.channels.len(), 0);
}

#[test]
fn start_unknown_instance_is_not_found() {
    let mut rt = Runtime::new(1, vec![], 16);
    assert_eq!(rt.try_start(99, &vec![]).unwrap_err(), DataFlowErr::NotFound);
}

#[test]
fn delete_running_is_invalid_transition() {
    let mut rt = Runtime::new(1, vec![], 16);
    rt.try_load(two_node_record(7, 1, 1)).unwrap();
    rt.try_start(7, &vec![]).unwrap();
    assert_eq!(rt.try_get_status(7).unwrap(), InstanceStatus::Running);
    assert_eq!(rt.try_delete(7).unwrap_err(), DataFlowErr::InvalidTransition);
}

#[test]
fn duplicate_create_is_idempotent_divergent_is_refused() {
    let mut rt = Runtime::new(1, vec![], 16);
    rt.try_load(two_node_record(3, 1, 1)).unwrap();
    // the same record again: accepted without a change
    assert!(rt.try_load(two_node_record(3, 1, 1)).is_ok());
    // same identifier, different placement: refused
    let divergent = two_node_record(3, 1, 2);
    assert_eq!(rt.try_load(divergent).unwrap_err(), DataFlowErr::AlreadyExists);
}

#[test]
fn full_lifecycle_start_abort_delete() {
    let mut rt = Runtime::new(1, vec![], 16);
    rt.try_load(two_node_record(4, 1, 1)).unwrap();
    assert_eq!(rt.try_get_status(4).unwrap(), InstanceStatus::Created);
    rt.try_start(4, &vec![]).unwrap();
    assert_eq!(rt.try_get_status(4).unwrap(), InstanceStatus::Running);
    rt.try_abort(4).unwrap();
    assert_eq!(rt.try_get_status(4).unwrap(), InstanceStatus::Aborted);
    // start after abort, then abort again: externally a no-op
    rt.try_start(4, &vec![]).unwrap();
    rt.try_abort(4).unwrap();
    assert_eq!(rt.try_get_status(4).unwrap(), InstanceStatus::Aborted);
    let inst = rt.instances.get(&4).unwrap();
    for r in inst.runners.iter() {
        assert_eq!(r.state, zenoh_flow::status::RunnerState::Idle);
    }
    rt.try_delete(4).unwrap();
    assert_eq!(rt.try_get_status(4).unwrap_err(), DataFlowErr::NotFound);
}

#[test]
fn unknown_extension_quarantines_instance() {
    let mut rt = Runtime::new(1, vec![44], 16);
    let mut rec = two_node_record(9, 1, 1);
    rec.nodes[0].ext = 99;
    assert!(rt.try_load(rec).is_ok());
    match rt.try_get_status(9).unwrap() {
        InstanceStatus::Failed(_) => {}
        other => panic!("expected a quarantined instance, got {:?}", other),
    }
    // from a quarantined instance only deletion makes progress
    assert_eq!(rt.try_start(9, &vec![]).unwrap_err(), DataFlowErr::InvalidTransition);
    rt.try_delete(9).unwrap();
}

#[test]
fn failed_start_reports_failed_status() {
    let mut rt = Runtime::new(1, vec![], 16);
    rt.try_load(two_node_record(6, 1, 1)).unwrap();
    // node 2's resume hook failed
    rt.try_start(6, &vec![2]).unwrap();
    match rt.try_get_status(6).unwrap() {
        InstanceStatus::Failed(_) => {}
        other => panic!("expected a failed instance, got {:?}", other),
    }
    // the operator can still abort and then delete it
    rt.try_abort(6).unwrap();
    rt.try_delete(6).unwrap();
}
