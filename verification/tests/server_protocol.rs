use patrick_db::client;
use patrick_db::hashmap_log::{self, HashMapLog};
use patrick_db::server::{self, ActionType, Change, KeyValue, Request, Step};

fn get(route: &str) -> Request {
    Request { action_type: ActionType::Get, key_value: None, route: route.to_string() }
}

#[test]
fn route_key_takes_last_piece() {
    assert_eq!(server::route_key("/keys/foo"), "foo");
    assert_eq!(server::route_key("/keys/"), "");
    assert_eq!(server::route_key(""), "");
    assert_eq!(server::route_key("foo"), "foo");
    assert_eq!(server::route_key("/keys/a/keys/b"), "b");
    assert_eq!(server::route_key("x/keys/"), "");
    assert_eq!(server::route_key("/keys"), "/keys");
}

#[test]
fn route_key_matches_split_last() {
    for route in ["/keys/keys/", "/keys/keys/keys/x", "//keys//keys/z", "a/keys/b/keys", "/keys/é/keys/ü"] {
        assert_eq!(server::route_key(route), route.split("/keys/").last().unwrap());
    }
    // overlapping separators are matched left to right
    assert_eq!(server::route_key("/keys/keys/"), "keys/");
}

#[test]
fn get_found_and_not_found() {
    let mut log = HashMapLog::new();
    hashmap_log::insert(&mut log, "foo".to_string(), vec![7]);
    let r = server::get_key(&log, "foo");
    assert_eq!(r.status, 200);
    let kv = r.key_value.unwrap();
    assert_eq!(kv.key, "foo");
    assert_eq!(kv.value, vec![7]);
    let r = server::handle_get_key(&log, &get("/keys/bar"));
    assert_eq!(r.status, 404);
    assert!(r.key_value.is_none());
}

#[test]
fn status_responses() {
    assert_eq!(server::send_ok().status, 200);
    assert_eq!(server::send_bad_request().status, 400);
    assert_eq!(server::send_not_found().status, 404);
    assert!(server::send_ok().key_value.is_none());
}

#[test]
fn update_without_pair_is_bad_request() {
    let log = HashMapLog::new();
    let req = Request { action_type: ActionType::Update, key_value: None, route: "/keys".to_string() };
    match server::handle_request(&log, req) {
        Step::Respond(r) => assert_eq!(r.status, 400),
        Step::Persist(_) => panic!("expected a response"),
    }
}

#[test]
fn update_then_get_over_protocol() {
    let mut log = HashMapLog::new();
    let req = client::update_request(KeyValue { key: "foo".to_string(), value: b"bar".to_vec() });
    let pending = match server::handle_request(&log, req) {
        Step::Persist(p) => p,
        Step::Respond(_) => panic!("expected a change to persist"),
    };
    match &pending.change {
        Change::Insert { key, value } => {
            assert_eq!(key, "foo");
            assert_eq!(value, b"bar");
        }
        Change::Delete { .. } => panic!("expected an insertion"),
    }
    let entry = hashmap_log::update_entry("foo".to_string(), b"bar".to_vec());
    assert_eq!(pending.record, hashmap_log::log_record(&entry));
    let (resp, fwd) = server::complete(&mut log, pending, true, true);
    assert_eq!(resp.unwrap().status, 200);
    let fwd = fwd.unwrap();
    assert!(matches!(fwd.action_type, ActionType::Update));
    assert_eq!(fwd.key_value.unwrap().key, "foo");
    match server::handle_request(&log, client::get_request("foo")) {
        Step::Respond(r) => {
            assert_eq!(r.status, 200);
            assert_eq!(r.key_value.unwrap().value, b"bar".to_vec());
        }
        Step::Persist(_) => panic!("expected a response"),
    }
}

#[test]
fn delete_over_protocol() {
    let mut log = HashMapLog::new();
    hashmap_log::insert(&mut log, "foo".to_string(), vec![1]);
    let pending = match server::handle_request(&log, client::delete_request("foo")) {
        Step::Persist(p) => p,
        Step::Respond(_) => panic!("expected a change to persist"),
    };
    let del = hashmap_log::delete_entry("foo");
    assert_eq!(pending.record, hashmap_log::log_record(&del));
    let (resp, fwd) = server::complete(&mut log, pending, true, false);
    assert_eq!(resp.unwrap().status, 200);
    assert!(fwd.is_none());
    assert_eq!(hashmap_log::get(&log, "foo"), None);
    match server::handle_request(&log, client::get_request("foo")) {
        Step::Respond(r) => assert_eq!(r.status, 404),
        Step::Persist(_) => panic!("expected a response"),
    }
}

#[test]
fn failed_log_write() {
    let mut log = HashMapLog::new();
    hashmap_log::insert(&mut log, "k".to_string(), vec![1]);
    let p = server::delete_key("k".to_string(), client::delete_request("k"));
    let (resp, fwd) = server::complete(&mut log, p, false, true);
    assert_eq!(resp.unwrap().status, 404);
    assert!(fwd.is_none());
    assert_eq!(hashmap_log::get(&log, "k"), Some(vec![1]));
    let req = client::update_request(KeyValue { key: "k".to_string(), value: vec![2] });
    let p = match server::handle_update_key(req) {
        Step::Persist(p) => p,
        Step::Respond(_) => panic!("expected a change to persist"),
    };
    let (resp, fwd) = server::complete(&mut log, p, false, true);
    assert!(resp.is_none());
    assert!(fwd.is_none());
    assert_eq!(hashmap_log::get(&log, "k"), Some(vec![1]));
}

#[test]
fn delete_of_missing_key_succeeds() {
    let mut log = HashMapLog::new();
    let step = server::handle_delete_key(client::delete_request("nothing"));
    let p = match step {
        Step::Persist(p) => p,
        Step::Respond(_) => panic!("expected a change to persist"),
    };
    let (resp, _) = server::complete(&mut log, p, true, false);
    assert_eq!(resp.unwrap().status, 200);
}

#[test]
fn follower_converges_on_forwarded_writes() {
    let mut leader = HashMapLog::new();
    let mut follower = HashMapLog::new();
    let writes = vec![
        client::update_request(KeyValue { key: "a".to_string(), value: vec![1] }),
        client::update_request(KeyValue { key: "b".to_string(), value: vec![2] }),
        client::delete_request("a"),
    ];
    for w in writes {
        let p = match server::handle_request(&leader, w) {
            Step::Persist(p) => p,
            Step::Respond(_) => panic!("expected a change to persist"),
        };
        let (_, fwd) = server::complete(&mut leader, p, true, true);
        let q = match server::handle_request(&follower, fwd.unwrap()) {
            Step::Persist(q) => q,
            Step::Respond(_) => panic!("expected a change to persist"),
        };
        let (resp, fwd2) = server::complete(&mut follower, q, true, false);
        assert_eq!(resp.unwrap().status, 200);
        assert!(fwd2.is_none());
    }
    for k in ["a", "b", "c"] {
        assert_eq!(hashmap_log::get(&leader, k), hashmap_log::get(&follower, k));
    }
    assert_eq!(hashmap_log::get(&follower, "b"), Some(vec![2]));
}
