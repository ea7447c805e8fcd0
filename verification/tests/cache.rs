use kvcache::cache::{access, internal_error, Access, Cache};
use kvcache::message::{payload, request, response, Code, Message, Op};

#[test]
fn get_after_set_returns_the_payload() {
    let mut cache = Cache::new();
    let reply = cache.process(request(Op::Put, "k".into(), Some(payload(42, "value".into()))));
    assert_eq!(reply, response(Op::Put, Code::Success, None));
    let reply = cache.process(request(Op::Get, "k".into(), None));
    assert_eq!(
        reply,
        response(Op::Get, Code::Success, Some(payload(42, "value".into())))
    );
    let reply = cache.get(b"k");
    assert_eq!(reply.type_id(), Some(42));
    assert_eq!(reply.payload().unwrap().data(), &b"value"[..]);
}

#[test]
fn get_without_set_is_a_miss_with_the_key() {
    let mut cache = Cache::new();
    let reply = cache.process(request(Op::Get, "absent".into(), Some(payload(1, "x".into()))));
    assert_eq!(reply, request(Op::Get, "absent".into(), None));
    assert_eq!(reply.key(), Some(&b"absent"[..]));
    assert!(reply.payload().is_none());
    assert_eq!(reply.op(), Op::Get);
    assert_eq!(reply.code(), None);
}

#[test]
fn get_of_the_empty_key() {
    let mut cache = Cache::new();
    assert_eq!(cache.get(b""), request(Op::Get, Vec::new(), None));
    cache.set(Vec::new(), (5, vec![1]));
    assert_eq!(
        cache.get(b""),
        response(Op::Get, Code::Success, Some(payload(5, vec![1])))
    );
}

#[test]
fn set_replaces_the_whole_entry() {
    let mut cache = Cache::new();
    cache.process(request(Op::Put, "k".into(), Some(payload(1, "first".into()))));
    cache.process(request(Op::Put, "k".into(), Some(payload(2, "second".into()))));
    assert_eq!(
        cache.get(b"k"),
        response(Op::Get, Code::Success, Some(payload(2, "second".into())))
    );
}

#[test]
fn set_without_payload_stores_the_empty_entry() {
    let mut cache = Cache::new();
    cache.process(request(Op::Put, "k".into(), Some(payload(1, "first".into()))));
    cache.process(request(Op::Put, "k".into(), None));
    assert_eq!(
        cache.get(b"k"),
        response(Op::Get, Code::Success, Some(payload(0, Vec::new())))
    );
}

#[test]
fn disjoint_keys_do_not_interfere() {
    let mut cache = Cache::new();
    let n: u32 = 500;
    for i in 0..n {
        let key = format!("key-{}", i).into_bytes();
        let value = format!("value-{}", i).into_bytes();
        cache.process(request(Op::Put, key, Some(payload(i, value))));
    }
    for i in 0..n {
        let key = format!("key-{}", i).into_bytes();
        let value = format!("value-{}", i).into_bytes();
        assert_eq!(
            cache.get(&key),
            response(Op::Get, Code::Success, Some(payload(i, value)))
        );
    }
    cache.process(request(Op::Put, "key-7".into(), Some(payload(0, "new".into()))));
    assert_eq!(
        cache.get(b"key-8"),
        response(Op::Get, Code::Success, Some(payload(8, "value-8".into())))
    );
    assert_eq!(
        cache.get(b"key-7"),
        response(Op::Get, Code::Success, Some(payload(0, "new".into())))
    );
    assert_eq!(cache.get(b"key-500"), request(Op::Get, "key-500".into(), None));
}

#[test]
fn del_is_handed_back_and_changes_nothing() {
    let mut cache = Cache::new();
    cache.process(request(Op::Put, "k".into(), Some(payload(1, "v".into()))));
    let del = request(Op::Del, "k".into(), Some(payload(9, "x".into())));
    assert_eq!(cache.process(del.clone()), del);
    assert_eq!(
        cache.get(b"k"),
        response(Op::Get, Code::Success, Some(payload(1, "v".into())))
    );
    let del = response(Op::Del, Code::Error, None);
    assert_eq!(cache.process(del.clone()), del);
}

#[test]
fn stats_is_handed_back() {
    let mut cache = Cache::new();
    let stats = request(Op::Stats, Vec::new(), None);
    assert_eq!(cache.process(stats.clone()), stats);
    let stats = response(Op::Stats, Code::Success, Some(payload(3, "v".into())));
    assert_eq!(cache.process(stats.clone()), stats);
}

#[test]
fn can_process_wants_a_key_for_get_and_set() {
    assert!(Cache::can_process(&request(Op::Get, "k".into(), None)));
    assert!(Cache::can_process(&request(Op::Put, "k".into(), None)));
    assert!(Cache::can_process(&request(Op::Del, "k".into(), None)));
    assert!(Cache::can_process(&request(Op::Stats, "k".into(), None)));
    assert!(!Cache::can_process(&response(Op::Get, Code::Success, None)));
    assert!(!Cache::can_process(&response(Op::Put, Code::Success, None)));
    assert!(Cache::can_process(&response(Op::Del, Code::Success, None)));
    assert!(Cache::can_process(&response(Op::Stats, Code::Success, None)));
}

#[test]
fn access_follows_the_operation() {
    assert_eq!(access(Op::Get), Access::Shared);
    assert_eq!(access(Op::Put), Access::Exclusive);
    assert_eq!(access(Op::Del), Access::Unlocked);
    assert_eq!(access(Op::Stats), Access::Unlocked);
}

#[test]
fn internal_error_keeps_the_operation() {
    assert_eq!(internal_error(Op::Put), response(Op::Put, Code::Error, None));
    assert_eq!(internal_error(Op::Get), Message::Response(Op::Get, Code::Error, None));
}

#[test]
fn consume_gives_key_and_entry() {
    let m = request(Op::Put, "k".into(), Some(payload(4, "v".into())));
    assert_eq!(m.consume(), (b"k".to_vec(), (4, b"v".to_vec())));
    let m = request(Op::Put, "k".into(), None);
    assert_eq!(m.consume(), (b"k".to_vec(), (0, Vec::new())));
    let m = response(Op::Put, Code::Success, Some(payload(4, "v".into())));
    assert_eq!(m.consume(), (Vec::new(), (4, b"v".to_vec())));
}

#[test]
fn accessors_read_both_shapes() {
    let req = request(Op::Del, "k".into(), Some(payload(4, "v".into())));
    assert_eq!(req.op(), Op::Del);
    assert_eq!(req.key(), Some(&b"k"[..]));
    assert_eq!(req.code(), None);
    assert_eq!(req.type_id(), Some(4));
    assert_eq!(req.payload().unwrap().type_id(), 4);
    assert_eq!(req.payload().unwrap().data(), &b"v"[..]);
    let resp = response(Op::Stats, Code::Error, None);
    assert_eq!(resp.op(), Op::Stats);
    assert_eq!(resp.key(), None);
    assert_eq!(resp.code(), Some(Code::Error));
    assert_eq!(resp.type_id(), None);
    assert!(resp.payload().is_none());
    assert_eq!(req.clone(), req);
}
