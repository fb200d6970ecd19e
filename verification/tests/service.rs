//! Dispatcher, storage and broker tests: table command semantics, topic
//! command semantics, id allocation, delivery order and eviction.

use mini_kv::{
    Broker, CommandRequest, CommandResponse, Kvpair, MemTable, StreamingResponse, Value, dispatch,
    dispatch_stream, is_subscribe_command, is_topic_command,
};

fn assert_res_ok(res: &CommandResponse, values: &[Value], pairs: &[Kvpair]) {
    assert_eq!(res.status, 200);
    assert_eq!(res.message, "");
    assert_eq!(res.values, values);
    assert_eq!(res.pairs, pairs);
}

fn assert_res_error(res: &CommandResponse, code: u32, msg: &str) {
    assert_eq!(res.status, code);
    assert_eq!(res.message, msg);
    assert!(res.values.is_empty());
    assert!(res.pairs.is_empty());
}

fn unary(r: StreamingResponse) -> CommandResponse {
    match r {
        StreamingResponse::Unary(resp) => resp,
        StreamingResponse::Subscription(_) => panic!("expected a unary response"),
    }
}

#[test]
fn dispatch_publish_should_work() {
    let mut topic = Broker::new();
    let cmd = CommandRequest::new_publish("lobby", vec![Value::Str("hello".to_string())]);
    let data = unary(dispatch_stream(cmd, &mut topic));
    assert_res_ok(&data, &[], &[]);
}

#[test]
fn dispatch_subscribe_should_work() {
    let mut topic = Broker::new();
    let cmd = CommandRequest::new_subscribe("lobby");
    let id = match dispatch_stream(cmd, &mut topic) {
        StreamingResponse::Subscription(id) => id,
        StreamingResponse::Unary(_) => panic!("expected a subscription"),
    };
    assert!(id > 0);
    let first = topic.pop_message(id).unwrap();
    assert_res_ok(&first, &[Value::Integer(id as i64)], &[]);
}

#[test]
fn dispatch_unsubscribe_should_work() {
    let mut topic = Broker::new();
    let cmd = CommandRequest::new_subscribe("lobby");
    let id = match dispatch_stream(cmd, &mut topic) {
        StreamingResponse::Subscription(id) => id,
        StreamingResponse::Unary(_) => panic!("expected a subscription"),
    };

    let cmd = CommandRequest::new_unsubscribe("lobby", id);
    let data = unary(dispatch_stream(cmd, &mut topic));
    assert_res_ok(&data, &[], &[]);
}

#[test]
fn dispatch_unsubscribe_random_id_should_error() {
    let mut topic = Broker::new();
    let cmd = CommandRequest::new_unsubscribe("lobby", 9527);
    let data = unary(dispatch_stream(cmd, &mut topic));
    assert_res_error(&data, 404, "Not found: subscription 9527");
}

#[test]
fn hset_then_hget_returns_the_value() {
    let mut store = MemTable::new();
    let res = dispatch(
        &CommandRequest::new_hset("t1", "hello", Value::Str("world".to_string())),
        &mut store,
    );
    assert_res_ok(&res, &[Value::Nil], &[]);

    let res = dispatch(&CommandRequest::new_hget("t1", "hello"), &mut store);
    assert_res_ok(&res, &[Value::Str("world".to_string())], &[]);
}

#[test]
fn hset_returns_the_prior_value() {
    let mut store = MemTable::new();
    let v1 = Value::Str("first".to_string());
    let v2 = Value::Integer(2);
    let res = dispatch(&CommandRequest::new_hset("t", "k", v1.clone()), &mut store);
    assert_res_ok(&res, &[Value::Nil], &[]);
    let res = dispatch(&CommandRequest::new_hset("t", "k", v2.clone()), &mut store);
    assert_res_ok(&res, &[v1], &[]);
    let res = dispatch(&CommandRequest::new_hget("t", "k"), &mut store);
    assert_res_ok(&res, &[v2], &[]);
}

#[test]
fn hgetall_lists_exactly_the_written_pairs() {
    let mut store = MemTable::new();
    let written = vec![
        ("a", Value::Integer(1)),
        ("b", Value::Str("two".to_string())),
        ("c", Value::Bool(false)),
    ];
    for (k, v) in &written {
        dispatch(&CommandRequest::new_hset("t", k, v.clone()), &mut store);
    }
    // A write into another table must not show up.
    dispatch(&CommandRequest::new_hset("u", "d", Value::Integer(9)), &mut store);

    let res = dispatch(&CommandRequest::new_hgetall("t"), &mut store);
    assert_eq!(res.status, 200);
    assert_eq!(res.pairs.len(), written.len());
    for (k, v) in &written {
        assert!(res.pairs.iter().any(|p| p.key == *k && p.value == *v));
    }
}

#[test]
fn hmget_is_parallel_to_the_keys() {
    let mut store = MemTable::new();
    let val_a = Value::Str("va".to_string());
    let val_c = Value::Str("vc".to_string());
    dispatch(&CommandRequest::new_hset("t3", "a", val_a.clone()), &mut store);
    dispatch(&CommandRequest::new_hset("t3", "c", val_c.clone()), &mut store);

    let keys = vec!["a".to_string(), "b".to_string(), "c".to_string()];
    let res = dispatch(&CommandRequest::new_hmget("t3", keys), &mut store);
    assert_res_ok(&res, &[val_a, Value::Nil, val_c], &[]);
}

#[test]
fn hmset_returns_prior_values_in_order() {
    let mut store = MemTable::new();
    dispatch(&CommandRequest::new_hset("t", "x", Value::Integer(1)), &mut store);
    let pairs = vec![
        Kvpair { key: "x".to_string(), value: Value::Integer(2) },
        Kvpair { key: "x".to_string(), value: Value::Integer(3) },
        Kvpair { key: "y".to_string(), value: Value::Integer(4) },
    ];
    let res = dispatch(&CommandRequest::new_hmset("t", pairs), &mut store);
    // The second write of x sees the first one's value.
    assert_res_ok(&res, &[Value::Integer(1), Value::Integer(2), Value::Nil], &[]);
}

#[test]
fn hdel_and_hmdel_remove_and_report() {
    let mut store = MemTable::new();
    dispatch(&CommandRequest::new_hset("t", "k", Value::Integer(5)), &mut store);
    let res = dispatch(&CommandRequest::new_hdel("t", "k"), &mut store);
    assert_res_ok(&res, &[Value::Integer(5)], &[]);
    let res = dispatch(&CommandRequest::new_hdel("t", "k"), &mut store);
    assert_res_ok(&res, &[Value::Nil], &[]);

    dispatch(&CommandRequest::new_hset("t", "a", Value::Integer(1)), &mut store);
    let res = dispatch(
        &CommandRequest::new_hmdel("t", vec!["a".to_string(), "a".to_string()]),
        &mut store,
    );
    assert_res_ok(&res, &[Value::Integer(1), Value::Nil], &[]);
}

#[test]
fn hexist_and_hmexist_report_membership() {
    let mut store = MemTable::new();
    dispatch(&CommandRequest::new_hset("t", "k", Value::Nil), &mut store);
    let res = dispatch(&CommandRequest::new_hexist("t", "k"), &mut store);
    assert_res_ok(&res, &[Value::Bool(true)], &[]);
    let res = dispatch(&CommandRequest::new_hexist("t", "other"), &mut store);
    assert_res_ok(&res, &[Value::Bool(false)], &[]);
    let res = dispatch(
        &CommandRequest::new_hmexist("t", vec!["k".to_string(), "z".to_string()]),
        &mut store,
    );
    assert_res_ok(&res, &[Value::Bool(true), Value::Bool(false)], &[]);
}

#[test]
fn invalid_commands_yield_400() {
    let mut store = MemTable::new();
    let res = dispatch(&CommandRequest { request_data: None }, &mut store);
    assert_res_error(&res, 400, "Invalid command: Request has no data");

    let hset_without_pair = CommandRequest {
        request_data: Some(mini_kv::RequestData::Hset(mini_kv::Hset {
            table: "t".to_string(),
            pair: None,
        })),
    };
    let res = dispatch(&hset_without_pair, &mut store);
    assert_res_error(&res, 400, "Invalid command: HSET requires a pair");
}

#[test]
fn subscription_ids_are_distinct_and_increasing() {
    let mut topic = Broker::new();
    let a = topic.subscribe("lobby".to_string());
    let b = topic.subscribe("lobby".to_string());
    let c = topic.subscribe("other".to_string());
    assert_eq!(a, 1);
    assert!(a < b && b < c);
}

#[test]
fn publish_is_delivered_in_publish_order() {
    let mut topic = Broker::new();
    let id = topic.subscribe("lobby".to_string());
    let first = topic.pop_message(id).unwrap();
    assert_res_ok(&first, &[Value::Integer(id as i64)], &[]);

    topic.publish(&"lobby".to_string(), vec![Value::Str("hello".to_string())]);
    topic.publish(&"lobby".to_string(), vec![Value::Str("there".to_string())]);
    topic.publish(&"lobby".to_string(), vec![Value::Str("again".to_string())]);
    let m1 = topic.pop_message(id).unwrap();
    assert_res_ok(&m1, &[Value::Str("hello".to_string())], &[]);
    let m2 = topic.pop_message(id).unwrap();
    assert_res_ok(&m2, &[Value::Str("there".to_string())], &[]);
    let m3 = topic.pop_message(id).unwrap();
    assert_res_ok(&m3, &[Value::Str("again".to_string())], &[]);
    assert!(topic.pop_message(id).is_none());
}

#[test]
fn unsubscribed_subscriber_receives_nothing() {
    let mut topic = Broker::new();
    let id = topic.subscribe("lobby".to_string());
    let res = unary(dispatch_stream(CommandRequest::new_unsubscribe("lobby", id), &mut topic));
    assert_res_ok(&res, &[], &[]);
    topic.publish(&"lobby".to_string(), vec![Value::Str("hello".to_string())]);
    assert!(topic.pop_message(id).is_none());
}

#[test]
fn slow_subscriber_is_evicted() {
    let mut topic = Broker::new();
    let id = topic.subscribe("lobby".to_string());
    // The queue already holds the first response; 127 publishes fill it to
    // its capacity of 128, and one more evicts the subscriber.
    for i in 0..128u32 {
        topic.publish(&"lobby".to_string(), vec![Value::Integer(i as i64)]);
    }
    assert!(!topic.is_subscribed(id));
    let res = topic.unsubscribe(&"lobby".to_string(), id);
    assert!(res.is_err());

    // An untouched subscriber on another topic is unaffected.
    let other = topic.subscribe("quiet".to_string());
    assert!(topic.unsubscribe(&"quiet".to_string(), other).is_ok());
}

#[test]
fn publish_to_topic_without_subscribers_succeeds() {
    let mut topic = Broker::new();
    let res = unary(dispatch_stream(
        CommandRequest::new_publish("lobby", vec![Value::Str("hello".to_string())]),
        &mut topic,
    ));
    assert_res_ok(&res, &[], &[]);
}

#[test]
fn error_conversions_map_to_status_codes() {
    let r = CommandResponse::from_error(&mini_kv::KvError::NotFound("subscription 7".to_string()));
    assert_res_error(&r, 404, "Not found: subscription 7");
    let r = CommandResponse::from_error(&mini_kv::KvError::InvalidCommand("x".to_string()));
    assert_res_error(&r, 400, "Invalid command: x");
    let r = CommandResponse::from_error(&mini_kv::KvError::ConvertError("y".to_string()));
    assert_res_error(&r, 422, "Convert error: y");
    let r = CommandResponse::from_error(&mini_kv::KvError::TlsError("z".to_string()));
    assert_res_error(&r, 500, "TLS error: z");
    let r = CommandResponse::from_error(&mini_kv::KvError::FrameError);
    assert_res_error(&r, 500, "Frame error");
}

#[test]
fn command_kinds_are_routed_by_the_library() {
    assert!(is_topic_command(&CommandRequest::new_subscribe("lobby")));
    assert!(is_topic_command(&CommandRequest::new_unsubscribe("lobby", 1)));
    assert!(is_topic_command(&CommandRequest::new_publish("lobby", vec![])));
    assert!(is_subscribe_command(&CommandRequest::new_subscribe("lobby")));
    assert!(!is_subscribe_command(&CommandRequest::new_publish("lobby", vec![])));
    assert!(!is_topic_command(&CommandRequest::new_hget("t", "k")));
    assert!(!is_topic_command(&CommandRequest { request_data: None }));
}

#[test]
fn is_subscribed_tracks_the_registry() {
    let mut topic = Broker::new();
    assert!(!topic.is_subscribed(1));
    let id = topic.subscribe("lobby".to_string());
    assert!(topic.is_subscribed(id));
    topic.unsubscribe(&"lobby".to_string(), id).unwrap();
    assert!(!topic.is_subscribed(id));
}
