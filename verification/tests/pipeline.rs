use zenoh_flow::bridge::{make_key_expr, SubEntry, ZenohSourceState};
use zenoh_flow::channel::{Frame, PortChannel, RecvError, SendError};
use zenoh_flow::data::{CollectorSink, CounterSource, ZFComponentState};
use zenoh_flow::protocol::{InstancesQuery, Origin};
use zenoh_flow::queries::{
    aggregate_reply, process_instances_query, QueryReply,
};
use zenoh_flow::record::{DataFlowRecord, Link, NodeDesc, NodeKind, PortDesc};
use zenoh_flow::runtime::{DataFlowErr, Runtime};
use zenoh_flow::status::{InstanceStatus, RunnerState};

fn cross_record(id: u64, rt_a: u64, rt_b: u64) -> DataFlowRecord {
    DataFlowRecord {
        id,
        nodes: vec![
            NodeDesc {
                id: 1,
                runtime: rt_a,
                kind: NodeKind::Source,
                ext: 0,
                inputs: vec![],
                outputs: vec![PortDesc { id: 10, port_type: 7 }],
                config: vec![],
            },
            NodeDesc {
                id: 2,
                runtime: rt_b,
                kind: NodeKind::Sink,
                ext: 0,
                inputs: vec![PortDesc { id: 20, port_type: 7 }],
                outputs: vec![],
                config: vec![],
            },
        ],
        links: vec![Link { from_node: 1, from_port: 10, to_node: 2, to_port: 20 }],
    }
}

/// A counter node feeding a collector through one bounded channel: the
/// collector observes the counter's values monotonically, from zero, with
/// no gap.
#[test]
fn local_pipeline_counter_to_collector() {
    let counter = CounterSource { port: 10 };
    let mut counter_state = counter.initial_state();
    let sink = CollectorSink {};
    let mut sink_state = sink.initial_state();
    let mut chan = PortChannel::new(4, 1);

    for _round in 0..5 {
        let mut outputs = counter.step(&mut counter_state);
        let (_port, payload) = outputs.remove(0);
        chan.try_send(Frame { payload, timestamp: None }).unwrap();
        let frame = chan.try_recv().unwrap();
        sink.consume(&mut sink_state, &frame.payload).unwrap();
    }
    assert_eq!(sink_state.seen, vec![0, 1, 2, 3, 4]);
}

/// A full channel makes the sender suspend, a dropped receiver closes it,
/// and an aborted runner settles back to `Idle`.
#[test]
fn abort_mid_flight_send_completes_or_closes() {
    let mut chan = PortChannel::new(1, 1);
    chan.try_send(Frame { payload: vec![1], timestamp: None }).unwrap();
    // the channel is full: the next send suspends rather than failing
    match chan.try_send(Frame { payload: vec![2], timestamp: None }) {
        Err(SendError::Full) => {}
        other => panic!("expected a suspended send, got {:?}", other),
    }
    // the receiver goes away mid-flight: the retried send now fails for good
    chan.close_receiver();
    match chan.try_send(Frame { payload: vec![2], timestamp: None }) {
        Err(SendError::Closed) => {}
        other => panic!("expected a closed channel, got {:?}", other),
    }
    // the runner returns to Idle on abort
    let mut runner = zenoh_flow::runner::Runner::new(1);
    runner.start();
    runner.abort();
    assert_eq!(runner.state, RunnerState::Idle);
}

/// Receiving drains the queue in order; a drained queue with no senders is
/// closed.
#[test]
fn channel_is_fifo_and_closes() {
    let mut chan = PortChannel::new(8, 1);
    for v in 0..3u8 {
        chan.try_send(Frame { payload: vec![v], timestamp: None }).unwrap();
    }
    chan.drop_sender();
    for v in 0..3u8 {
        assert_eq!(chan.try_recv().unwrap().payload, vec![v]);
    }
    match chan.try_recv() {
        Err(RecvError::Closed) => {}
        other => panic!("expected a closed channel, got {:?}", other),
    }
}

/// A client create on daemon A fans out to daemon B; B loads the same
/// record from the fanned-out payload, and the two daemons derive the same
/// key expression for the bridged link.
#[test]
fn remote_link_create_fans_out_and_keys_match() {
    let mut rt_a = Runtime::new(1, vec![], 16);
    let mut rt_b = Runtime::new(2, vec![], 16);

    let q = InstancesQuery::Create { origin: Origin::Client, record: cross_record(8, 1, 2) };
    let (reply, fanouts) = process_instances_query(&mut rt_a, q, &vec![]);
    assert!(matches!(reply, QueryReply::Done));
    assert_eq!(fanouts.len(), 1);
    assert_eq!(fanouts[0].target, 2);
    assert_eq!(fanouts[0].selector, b"zenoh-flow/2/instances".to_vec());

    // daemon B receives the fanned-out payload and loads the record; the
    // daemon origin prevents a re-fanout loop
    let (reply_b, fanouts_b) = zenoh_flow::queries::handle_instances_payload(
        &mut rt_b,
        fanouts[0].payload.as_slice(),
        &vec![],
    );
    assert!(matches!(reply_b, QueryReply::Done));
    assert_eq!(fanouts_b.len(), 0);
    assert_eq!(rt_b.try_get_status(8).unwrap(), InstanceStatus::Created);

    // A drains the link through its pub/sub sink, B feeds it through its
    // pub/sub source, and both meet on one key expression
    let inst_a = rt_a.instances.get(&8).unwrap();
    let inst_b = rt_b.instances.get(&8).unwrap();
    assert_eq!(inst_a.channels.len(), 0);
    assert_eq!(inst_a.zenoh_sink.entries.len(), 1);
    assert_eq!(inst_a.zenoh_source.entries.len(), 0);
    assert_eq!(inst_b.zenoh_source.entries.len(), 1);
    assert_eq!(inst_b.zenoh_sink.entries.len(), 0);
    assert_eq!(
        inst_a.zenoh_sink.entries[0].key_expr,
        inst_b.zenoh_source.entries[0].key_expr
    );
}

/// A local start still succeeds when a peer times out; the timeout is
/// attached to the reply rather than masking the local outcome.
#[test]
fn peer_timeout_does_not_mask_local_start() {
    let mut rt_a = Runtime::new(1, vec![], 16);
    let create = InstancesQuery::Create { origin: Origin::Client, record: cross_record(8, 1, 2) };
    process_instances_query(&mut rt_a, create, &vec![]);

    let start = InstancesQuery::Start { origin: Origin::Client, id: 8 };
    let (local, fanouts) = process_instances_query(&mut rt_a, start, &vec![]);
    assert!(matches!(local, QueryReply::Done));
    assert_eq!(rt_a.try_get_status(8).unwrap(), InstanceStatus::Running);
    assert_eq!(fanouts.len(), 1);

    // daemon 2's transport is blocked: its fan-out expires
    let reply = aggregate_reply(local, vec![(2, Err(DataFlowErr::PeerTimeout))]);
    assert!(matches!(reply.local, QueryReply::Done));
    assert_eq!(reply.peers, vec![(2, Err(DataFlowErr::PeerTimeout))]);
}

/// Aborting the pub/sub source drops its subscribers, so payloads published
/// while it is inactive are never delivered; after the resume only fresh
/// payloads reach the output, and surviving pending receives are not
/// duplicated.
#[test]
fn resume_after_abort_delivers_only_fresh_payloads() {
    let mut rt_b = Runtime::new(2, vec![], 16);
    rt_b.try_load(cross_record(8, 1, 2)).unwrap();
    rt_b.try_start(8, &vec![]).unwrap();

    let mut inst = rt_b.instances.remove(&8).unwrap();
    let link = inst.zenoh_source.entries[0].link;
    assert!(inst.zenoh_source.subscribed);
    assert_eq!(inst.zenoh_source.pending.len(), 1);

    let mut delivered: Vec<Vec<u8>> = Vec::new();
    if let Some((_l, payload)) = inst.zenoh_source.iteration(link, Some(vec![1])) {
        delivered.push(payload);
    }

    // abort: the subscribers are dropped; three payloads published now are
    // dropped by the transport, since nothing subscribes to the key
    inst.zenoh_source.on_abort();
    assert!(!inst.zenoh_source.subscribed);
    let _published_while_aborted: [Vec<u8>; 3] = [vec![2], vec![3], vec![4]];

    // resume: the pending receive survived the abort, so no duplicate is
    // armed; only payloads published from now on are delivered
    inst.zenoh_source.on_resume();
    assert!(inst.zenoh_source.subscribed);
    assert_eq!(inst.zenoh_source.pending.len(), 1);
    if let Some((_l, payload)) = inst.zenoh_source.iteration(link, Some(vec![5])) {
        delivered.push(payload);
    }
    assert_eq!(delivered, vec![vec![1], vec![5]]);
}

/// A fresh pub/sub source arms one pending receive per entry on its first
/// resume.
#[test]
fn source_arms_one_receive_per_port() {
    let link = Link { from_node: 1, from_port: 10, to_node: 2, to_port: 20 };
    let entries = vec![SubEntry { link, key_expr: make_key_expr(8, &link) }];
    let mut source = ZenohSourceState::new(entries);
    assert_eq!(source.pending.len(), 0);
    source.on_resume();
    assert_eq!(source.pending.len(), 1);
    source.on_resume();
    assert_eq!(source.pending.len(), 1);
}

/// A decodable runtimes payload is answered as the request it decodes to;
/// junk is refused as malformed.
#[test]
fn runtimes_payload_answers_decoded_request() {
    let mut rt = Runtime::new(7, vec![], 16);
    rt.try_load(cross_record(8, 7, 7)).unwrap();
    match zenoh_flow::queries::handle_runtimes_payload(&rt, b"{\"query\":\"info\"}") {
        QueryReply::InfoIs(id) => assert_eq!(id, 7),
        other => panic!("expected the daemon's identifier, got {:?}", other),
    }
    match zenoh_flow::queries::handle_runtimes_payload(&rt, b"{\"query\":\"list\"}") {
        QueryReply::Instances(ids) => assert_eq!(ids, vec![8]),
        other => panic!("expected the instance list, got {:?}", other),
    }
    match zenoh_flow::queries::handle_runtimes_payload(&rt, b"nonsense") {
        QueryReply::Failed(e) => assert_eq!(e, DataFlowErr::InvalidRequest),
        other => panic!("expected a refusal, got {:?}", other),
    }
}
