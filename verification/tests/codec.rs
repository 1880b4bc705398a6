use zenoh_flow::codec::{
    decode_instances_query, decode_runtimes_query, encode_instances_query, encode_runtimes_query,
    parse_u64, push_u64,
};
use zenoh_flow::protocol::{InstancesQuery, Origin, RuntimesQuery};
use zenoh_flow::queries::{selector_instances, selector_runtimes};
use zenoh_flow::record::{DataFlowRecord, Link, NodeDesc, NodeKind, PortDesc};
use zenoh_flow::runtime::records_identical;

fn sample_record() -> DataFlowRecord {
    DataFlowRecord {
        id: 12,
        nodes: vec![
            NodeDesc {
                id: 1,
                runtime: 3,
                kind: NodeKind::Source,
                ext: 0,
                inputs: vec![],
                outputs: vec![PortDesc { id: 10, port_type: 7 }],
                config: vec![1, 2, 3],
            },
            NodeDesc {
                id: 2,
                runtime: 4,
                kind: NodeKind::Sink,
                ext: 5,
                inputs: vec![PortDesc { id: 20, port_type: 7 }],
                outputs: vec![],
                config: vec![],
            },
        ],
        links: vec![Link { from_node: 1, from_port: 10, to_node: 2, to_port: 20 }],
    }
}

#[test]
fn number_round_trip() {
    for v in [0u64, 1, 9, 10, 4096, 1234567890123, u64::MAX] {
        let mut out = Vec::new();
        push_u64(&mut out, v);
        let parsed = parse_u64(out.as_slice(), 0).unwrap();
        assert_eq!(parsed.0, v);
        assert_eq!(parsed.1, out.len());
    }
}

#[test]
fn list_request_has_expected_bytes() {
    let bytes = encode_instances_query(&InstancesQuery::List);
    assert_eq!(bytes, b"{\"query\":\"list\"}".to_vec());
}

#[test]
fn start_request_has_expected_bytes() {
    let bytes = encode_instances_query(&InstancesQuery::Start { origin: Origin::Client, id: 42 });
    assert_eq!(
        bytes,
        b"{\"query\":\"start\",\"origin\":\"client\",\"id\":42}".to_vec()
    );
}

#[test]
fn instances_query_round_trips() {
    let queries = vec![
        InstancesQuery::Create { origin: Origin::Client, record: sample_record() },
        InstancesQuery::Start { origin: Origin::Client, id: 1 },
        InstancesQuery::Abort { origin: Origin::Daemon, id: 2 },
        InstancesQuery::Delete { origin: Origin::Client, id: 3 },
        InstancesQuery::List,
        InstancesQuery::Status { id: 4 },
        InstancesQuery::Record { id: 5 },
    ];
    for q in queries {
        let bytes = encode_instances_query(&q);
        let back = decode_instances_query(bytes.as_slice()).expect("decodes");
        let rebytes = encode_instances_query(&back);
        assert_eq!(bytes, rebytes);
        match (&q, &back) {
            (
                InstancesQuery::Create { origin: o1, record: r1 },
                InstancesQuery::Create { origin: o2, record: r2 },
            ) => {
                assert_eq!(o1, o2);
                assert!(records_identical(r1, r2));
            }
            (
                InstancesQuery::Start { origin: o1, id: i1 },
                InstancesQuery::Start { origin: o2, id: i2 },
            ) => {
                assert_eq!(o1, o2);
                assert_eq!(i1, i2);
            }
            (
                InstancesQuery::Abort { origin: o1, id: i1 },
                InstancesQuery::Abort { origin: o2, id: i2 },
            ) => {
                assert_eq!(o1, o2);
                assert_eq!(i1, i2);
            }
            (
                InstancesQuery::Delete { origin: o1, id: i1 },
                InstancesQuery::Delete { origin: o2, id: i2 },
            ) => {
                assert_eq!(o1, o2);
                assert_eq!(i1, i2);
            }
            (InstancesQuery::List, InstancesQuery::List) => {}
            (InstancesQuery::Status { id: i1 }, InstancesQuery::Status { id: i2 }) => {
                assert_eq!(i1, i2);
            }
            (InstancesQuery::Record { id: i1 }, InstancesQuery::Record { id: i2 }) => {
                assert_eq!(i1, i2);
            }
            _ => panic!("variant changed across the round trip"),
        }
    }
}

#[test]
fn runtimes_query_round_trips() {
    for q in [RuntimesQuery::Info, RuntimesQuery::Status, RuntimesQuery::List] {
        let bytes = encode_runtimes_query(&q);
        let back = decode_runtimes_query(bytes.as_slice()).expect("decodes");
        assert_eq!(q, back);
    }
}

#[test]
fn malformed_payloads_are_rejected() {
    assert!(decode_instances_query(b"").is_none());
    assert!(decode_instances_query(b"{\"query\":\"sta").is_none());
    assert!(decode_instances_query(b"{\"query\":\"nope\",\"id\":1}").is_none());
    // trailing bytes after a complete request
    assert!(decode_instances_query(b"{\"query\":\"list\"}x").is_none());
    assert!(decode_runtimes_query(b"list").is_none());
}

#[test]
fn selectors_have_expected_form() {
    assert_eq!(selector_instances(5), b"zenoh-flow/5/instances".to_vec());
    assert_eq!(selector_runtimes(170), b"zenoh-flow/170/runtimes".to_vec());
}
