use zenoh_flow::data::{
    default_input_rule, default_output_rule, le8_of_u64, CounterSource, RelayOperator, Token,
    ZFBytes, ZFComponentState, ZFError, ZFOperatorTrait, ZFString, ZFUsize,
};

#[test]
fn zfstring_round_trip() {
    let s = ZFString(String::from("hello dataflow"));
    let bytes = s.try_serialize().unwrap();
    assert_eq!(bytes, b"hello dataflow".to_vec());
    let back = ZFString::try_deserialize(bytes.as_slice()).unwrap();
    assert_eq!(back.0, "hello dataflow");
}

#[test]
fn zfstring_from_conversions() {
    let a = ZFString::from(String::from("ab"));
    assert_eq!(a.0, "ab");
    let b = ZFString::from("cd");
    assert_eq!(b.0, "cd");
}

#[test]
fn zfstring_rejects_invalid_utf8() {
    let r = ZFString::try_deserialize(&[0xff, 0xfe]);
    assert_eq!(r.unwrap_err(), ZFError::DeseralizationError);
}

#[test]
fn zfusize_round_trip() {
    for v in [0usize, 1, 255, 256, 123456789, usize::MAX] {
        let bytes = ZFUsize(v).try_serialize().unwrap();
        assert_eq!(bytes.len(), 8);
        let back = ZFUsize::try_deserialize(bytes.as_slice()).unwrap();
        assert_eq!(back.0, v);
    }
}

#[test]
fn zfusize_has_little_endian_bytes() {
    let bytes = ZFUsize(0x0102).try_serialize().unwrap();
    assert_eq!(bytes, vec![0x02, 0x01, 0, 0, 0, 0, 0, 0]);
}

#[test]
fn zfusize_rejects_wrong_length() {
    assert_eq!(
        ZFUsize::try_deserialize(&[1, 2, 3]).unwrap_err(),
        ZFError::DeseralizationError
    );
    assert_eq!(
        ZFUsize::try_deserialize(&[0; 9]).unwrap_err(),
        ZFError::DeseralizationError
    );
}

#[test]
fn zfbytes_round_trip() {
    let b = ZFBytes(vec![1, 2, 3]);
    let bytes = b.try_serialize().unwrap();
    assert_eq!(bytes, vec![1, 2, 3]);
    let back = ZFBytes::try_deserialize(bytes.as_slice()).unwrap();
    assert_eq!(back.0, vec![1, 2, 3]);
}

#[test]
fn default_input_rule_requires_every_token_ready() {
    assert!(default_input_rule(&vec![]));
    assert!(default_input_rule(&vec![(1, Token::Ready), (2, Token::Ready)]));
    assert!(!default_input_rule(&vec![(1, Token::Ready), (2, Token::Pending)]));
}

#[test]
fn counter_counts_from_zero_without_gaps() {
    let counter = CounterSource { port: 10 };
    let mut state = counter.initial_state();
    for expected in 0..4u64 {
        let outputs = counter.step(&mut state);
        assert_eq!(outputs.len(), 1);
        assert_eq!(outputs[0].0, 10);
        assert_eq!(outputs[0].1, le8_of_u64(expected));
    }
    assert_eq!(state.count, 4);
}

#[test]
fn default_output_rule_routes_everything_unchanged() {
    let outputs = vec![(10, vec![1u8, 2]), (11, vec![3u8])];
    assert_eq!(default_output_rule(outputs.clone()).unwrap(), outputs);
}

#[test]
fn relay_operator_forwards_payloads_to_its_port() {
    let relay = RelayOperator { port: 30 };
    let mut state = relay.initial_state();
    let inputs = vec![(20, vec![1u8, 2]), (21, vec![3u8])];
    let out = relay.run(&mut state, &inputs).unwrap();
    assert_eq!(out, vec![(30, vec![1u8, 2]), (30, vec![3u8])]);
}
