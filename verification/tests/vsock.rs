//! Messages to the host.
use beyond_pg::vsock::{
    encode_log_frame, encode_ready_frame, APP_KIND_USER_PROCESS_STREAM_DATA, APP_MESSAGE,
    SERVICE_KIND_READY,
};
use serde_json::Value;
use std::collections::BTreeMap;

/// The kind and the payload, as the receiver decodes them.
fn receive(frame: &[u8]) -> (u8, Vec<u8>) {
    let len = u32::from_be_bytes([frame[0], frame[1], frame[2], frame[3]]) as usize;
    assert_eq!(len, frame.len() - 4, "length covers type + payload");
    assert_eq!(frame[4], APP_MESSAGE, "type byte must be AppMessage 0x20");
    let outer: BTreeMap<String, serde_bytes::ByteBuf> =
        rmp_serde::from_slice(&frame[5..]).expect("decode the envelope");
    assert_eq!(outer.len(), 1);
    let (kind, rest) = outer["bytes"].split_first().expect("non-empty inner bytes");
    (*kind, rest.to_vec())
}

#[test]
fn frame_round_trips_through_substrate_shape() {
    let mut line: BTreeMap<&str, Value> = BTreeMap::new();
    line.insert("stream", Value::from("Stdout"));
    line.insert("line", Value::from("database system is ready to accept connections"));
    line.insert("truncated", Value::from(false));
    line.insert("execution_id", Value::from(""));
    let payload = rmp_serde::to_vec_named(&line).unwrap();
    let (kind, rest) = receive(&encode_log_frame(&payload));
    assert_eq!(kind, APP_KIND_USER_PROCESS_STREAM_DATA);
    assert_eq!(kind, 46);
    let decoded: BTreeMap<String, Value> = rmp_serde::from_slice(&rest).expect("decode the line");
    assert_eq!(decoded["stream"], "Stdout");
    assert_eq!(decoded["line"], "database system is ready to accept connections");
    assert_eq!(decoded["truncated"], false);
    assert_eq!(decoded["execution_id"], "");
}

#[test]
fn frames_of_every_length_arrive() {
    for n in [0usize, 1, 254, 255, 256, 65_534, 65_535, 65_536] {
        let payload = vec![7u8; n];
        assert_eq!(receive(&encode_log_frame(&payload)), (46, payload));
    }
}

#[test]
fn ready_frame_round_trips_through_substrate_shape() {
    let (kind, rest) = receive(&encode_ready_frame());
    assert_eq!(kind, SERVICE_KIND_READY);
    assert_eq!(kind, 12);
    assert_eq!(rest, vec![0x80], "an empty map");
}

#[test]
fn inner_bytes_encoded_as_msgpack_bin() {
    let frame = encode_log_frame(b"x");
    let env = &frame[5..];
    assert_eq!(env[0], 0x81, "outer is a 1-entry fixmap");
    assert_eq!(env[1], 0xa5, "key is a 5-char fixstr");
    assert_eq!(&env[2..7], b"bytes", "key name is `bytes`");
    let bin_marker = env[7];
    assert!(
        matches!(bin_marker, 0xc4 | 0xc5 | 0xc6),
        "value must be a msgpack bin (got {bin_marker:#x})"
    );
}
