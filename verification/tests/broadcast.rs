use patrick_db::tob::{self, ActionType, Replica, Request, Sequencer};
use patrick_db::tob2;

fn tob_request(seq: u64, msg: &str) -> Request {
    Request { action_type: ActionType::Tob, message: msg.to_string(), sequence_number: seq }
}

#[test]
fn delivery_waits_for_its_number() {
    let mut r = Replica::new("127.0.0.1:8000".to_string(), vec!["127.0.0.1:8001".to_string()]);
    assert!(!r.handle_tob(&tob_request(1, "second")));
    assert_eq!(r.handle_get().message, "");
    assert!(r.handle_tob(&tob_request(0, "first")));
    assert!(r.handle_tob(&tob_request(1, "second")));
    assert!(!r.handle_tob(&tob_request(1, "again")));
    assert_eq!(r.handle_get().message, "first,second");
    assert_eq!(r.address(), "127.0.0.1:8000");
    assert_eq!(r.peers(), &vec!["127.0.0.1:8001".to_string()]);
}

#[test]
fn replicas_agree_whatever_the_arrival_order() {
    let msgs = ["a", "b", "c", "d"];
    let orders: [[u64; 4]; 3] = [[0, 1, 2, 3], [3, 2, 1, 0], [2, 0, 3, 1]];
    let mut logs = Vec::new();
    for order in orders.iter() {
        let mut r = Replica::new("r".to_string(), vec![]);
        let mut pending: Vec<u64> = order.to_vec();
        while !pending.is_empty() {
            pending.retain(|&s| !r.handle_tob(&tob_request(s, msgs[s as usize])));
        }
        logs.push(r.handle_get().message);
    }
    assert!(logs.iter().all(|l| l == "a,b,c,d"));
}

#[test]
fn split_and_join_round_trip() {
    let text = "test,test2,test3,test4,test5,test6,test7,test8,test9,test10";
    let parts = tob::split_messages(text);
    assert_eq!(parts.len(), 10);
    assert_eq!(parts[9], "test10");
    let mut r = Replica::new("r".to_string(), vec![]);
    for (i, p) in parts.iter().enumerate() {
        assert!(r.handle_tob(&tob_request(i as u64, p)));
    }
    assert_eq!(r.handle_get().message, text);
    assert_eq!(tob::split_messages(""), vec!["".to_string()]);
    assert_eq!(tob::split_messages("a,,b,"), vec!["a", "", "b", ""]);
}

#[test]
fn sequencer_counts_from_zero() {
    let mut s = Sequencer::new();
    assert_eq!(s.next(), 0);
    assert_eq!(s.next(), 1);
    assert_eq!(s.next(), 2);
}

#[test]
fn update_becomes_numbered_broadcast() {
    let req = Request { action_type: ActionType::Update, message: "hi".to_string(), sequence_number: 0 };
    let t = tob::handle_update_key(req, 5);
    assert!(matches!(t.action_type, ActionType::Tob));
    assert_eq!(t.sequence_number, 5);
    assert_eq!(t.message, "hi");
    assert_eq!(tob::success().message, "success");
}

#[test]
fn retry_until_the_limit() {
    assert_eq!(tob::retry_after_failure(0, 20), Some(1));
    assert_eq!(tob::retry_after_failure(19, 20), Some(20));
    assert_eq!(tob::retry_after_failure(20, 20), None);
    assert_eq!(tob::retry_after_failure(0, 0), None);
}

#[test]
fn peers_are_the_others() {
    let replicas = tob2::initial_replicas();
    assert_eq!(replicas.len(), 3);
    assert_eq!(replicas[0].addr, "127.0.0.1:8000");
    let mut p = replicas[1].peers.clone();
    p.sort();
    assert_eq!(p, vec!["127.0.0.1:8000".to_string(), "127.0.0.1:8002".to_string()]);
    let addrs = vec!["x".to_string(), "y".to_string(), "x".to_string()];
    let peers = tob2::peer_set(&addrs, 0);
    let mut sorted = peers.clone();
    sorted.sort();
    assert_eq!(sorted, vec!["x".to_string(), "y".to_string()]);
}

#[test]
fn tob2_user_message_is_logged_and_forwarded() {
    let mut replicas = tob2::initial_replicas();
    let req = tob2::client_request();
    assert_eq!(req.message, "hello world");
    match tob2::handle_request(&mut replicas[0], req) {
        tob2::Action::Broadcast(fwd) => {
            assert_eq!(fwd.route, "/tob");
            assert_eq!(fwd.message, "hello world");
        }
        tob2::Action::Reply(_) => panic!("expected a broadcast"),
    }
    assert_eq!(replicas[0].log, vec!["hello world".to_string()]);
    let tob_req = tob2::Request {
        action_type: tob2::ActionType::Update,
        message: "hello world".to_string(),
        route: "/tob".to_string(),
    };
    match tob2::handle_update_key(&mut replicas[1], tob_req) {
        tob2::Action::Reply(r) => {
            assert_eq!(r.message, "hello world tob");
            assert_eq!(r.route, "/users");
        }
        tob2::Action::Broadcast(_) => panic!("expected a reply"),
    }
    assert!(replicas[1].log.is_empty());
}
