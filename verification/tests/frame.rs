//! Frame and message codec tests: round trips, the compression threshold,
//! and malformed input.

use mini_kv::{CommandRequest, CommandResponse, Kvpair, Value};

fn is_compressed(data: &[u8]) -> bool {
    if let &[v] = &data[..1] {
        v >> 7 == 1
    } else {
        false
    }
}

fn response_of(values: Vec<Value>) -> CommandResponse {
    CommandResponse { status: 200, message: String::new(), values, pairs: Vec::new() }
}

#[test]
fn command_request_encode_decode_should_work() {
    let mut buf: Vec<u8> = Vec::new();

    let cmd = CommandRequest::new_hset("t1", "k1", Value::Str("v1".to_string()));
    cmd.encode_frame(&mut buf).unwrap();

    assert_eq!(is_compressed(&buf), false);

    let cmd1 = CommandRequest::decode_frame(&buf).unwrap();
    assert_eq!(cmd, cmd1);
}

#[test]
fn command_response_encode_decode_should_work() {
    let mut buf: Vec<u8> = Vec::new();

    let values: Vec<Value> = vec![
        Value::Integer(1),
        Value::Str("hello".to_string()),
        Value::Binary(b"data".to_vec()),
    ];
    let res = response_of(values);
    res.encode_frame(&mut buf).unwrap();

    assert_eq!(is_compressed(&buf), false);

    let res1 = CommandResponse::decode_frame(&buf).unwrap();
    assert_eq!(res, res1);
}

#[test]
fn command_response_compressed_encode_decode_should_work() {
    let mut buf: Vec<u8> = Vec::new();

    let value = Value::Binary(vec![0u8; 1437]);
    let res = response_of(vec![value]);
    res.encode_frame(&mut buf).unwrap();

    assert_eq!(is_compressed(&buf), true);

    let res1 = CommandResponse::decode_frame(&buf).unwrap();
    assert_eq!(res, res1);
}

#[test]
fn every_command_round_trips() {
    let pair = Kvpair { key: "k".to_string(), value: Value::Str("v".to_string()) };
    let cmds = vec![
        CommandRequest::new_hget("t", "k"),
        CommandRequest::new_hgetall("t"),
        CommandRequest::new_hmget("t", vec!["a".to_string(), "b".to_string()]),
        CommandRequest::new_hset("t", "k", Value::Str("v".to_string())),
        CommandRequest::new_hmset("t", vec![pair.clone(), pair]),
        CommandRequest::new_hdel("t", "k"),
        CommandRequest::new_hmdel("t", vec!["a".to_string()]),
        CommandRequest::new_hexist("t", "k"),
        CommandRequest::new_hmexist("t", vec![String::new()]),
        CommandRequest::new_subscribe("lobby"),
        CommandRequest::new_unsubscribe("lobby", 9527),
        CommandRequest::new_publish("lobby", vec![Value::Nil, Value::Bool(true)]),
        CommandRequest { request_data: None },
    ];
    for cmd in cmds {
        let mut buf: Vec<u8> = Vec::new();
        cmd.encode_frame(&mut buf).unwrap();
        let cmd1 = CommandRequest::decode_frame(&buf).unwrap();
        assert_eq!(cmd, cmd1);
    }
}

#[test]
fn every_value_kind_round_trips() {
    let values = vec![
        Value::Nil,
        Value::Str(String::new()),
        Value::Str("héllo, wörld".to_string()),
        Value::Binary(Vec::new()),
        Value::Binary(vec![0, 1, 2, 255]),
        Value::Integer(0),
        Value::Integer(-1),
        Value::Integer(i64::MIN),
        Value::Integer(i64::MAX),
        Value::Float(f64::to_bits(3.5)),
        Value::Float(f64::to_bits(-0.0)),
        Value::Bool(true),
        Value::Bool(false),
    ];
    let res = CommandResponse {
        status: 404,
        message: "Not found: subscription 9527".to_string(),
        values,
        pairs: vec![
            Kvpair { key: "a".to_string(), value: Value::Nil },
            Kvpair { key: String::new(), value: Value::Integer(-42) },
        ],
    };
    let mut buf: Vec<u8> = Vec::new();
    res.encode_frame(&mut buf).unwrap();
    let res1 = CommandResponse::decode_frame(&buf).unwrap();
    assert_eq!(res, res1);
}

#[test]
fn compression_bit_tracks_the_threshold() {
    // The encoded response around a binary payload of n bytes is 11 + n
    // bytes long, so n = 1425 sits exactly at the 1436-byte threshold.
    let mut buf: Vec<u8> = Vec::new();
    response_of(vec![Value::Binary(vec![7u8; 1425])]).encode_frame(&mut buf).unwrap();
    assert_eq!(buf.len(), 4 + 1436);
    assert!(!is_compressed(&buf));

    let mut buf2: Vec<u8> = Vec::new();
    response_of(vec![Value::Binary(vec![7u8; 1426])]).encode_frame(&mut buf2).unwrap();
    assert!(is_compressed(&buf2));
}

#[test]
fn large_request_frame_is_compressed_and_round_trips() {
    let cmd = CommandRequest::new_hset("t2", "k2", Value::Binary(vec![0u8; 16384]));
    let mut buf: Vec<u8> = Vec::new();
    cmd.encode_frame(&mut buf).unwrap();
    assert!(is_compressed(&buf));
    let cmd1 = CommandRequest::decode_frame(&buf).unwrap();
    assert_eq!(cmd, cmd1);
}

#[test]
fn malformed_frames_are_rejected() {
    // Too short for a header.
    assert!(CommandRequest::decode_frame(&vec![0u8, 0, 0]).is_err());
    // Header length does not match the body.
    assert!(CommandRequest::decode_frame(&vec![0u8, 0, 0, 5, 1, 2]).is_err());
    // Compression bit set but the body is not a gzip stream.
    assert!(CommandRequest::decode_frame(&vec![0x80u8, 0, 0, 2, 9, 9]).is_err());
    // An unknown command tag.
    assert!(CommandRequest::decode_frame(&vec![0u8, 0, 0, 2, 0x7a, 0]).is_err());
    // Truncated submessage.
    assert!(CommandRequest::decode_frame(&vec![0u8, 0, 0, 2, 0x0a, 9]).is_err());
}

#[test]
fn appended_frames_keep_earlier_bytes() {
    let mut buf: Vec<u8> = vec![0xde, 0xad];
    CommandRequest::new_hget("t", "k").encode_frame(&mut buf).unwrap();
    assert_eq!(&buf[..2], &[0xde, 0xad]);
    let rest: Vec<u8> = buf[2..].to_vec();
    let cmd1 = CommandRequest::decode_frame(&rest).unwrap();
    assert_eq!(cmd1, CommandRequest::new_hget("t", "k"));
}
