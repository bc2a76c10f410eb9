use patrick_db::raft_node::{ready_plan, ReadyAction, Ticker};
use patrick_db::raft_storage::{HardState, Storage, StorageError};
use patrick_db::rest::{self, Body};
use patrick_db::server;
use patrick_db::single_thread_server;
use raft::eraftpb::{ConfState, Entry, Snapshot};

fn entry(index: u64, term: u64) -> Entry {
    let mut e = Entry::default();
    e.index = index;
    e.term = term;
    e
}

#[test]
fn empty_store_answers_defaults() {
    let s = Storage::new(vec![1, 2, 3]);
    assert_eq!(s.first_index(), 1);
    assert_eq!(s.last_index(), 1);
    assert_eq!(s.term(0).unwrap(), 0);
    assert!(matches!(s.term(1), Err(StorageError::Unavailable)));
    assert!(matches!(s.snapshot(0, 0), Err(StorageError::SnapshotOutOfDate)));
    let (hs, cs) = s.initial_state();
    assert_eq!((hs.term, hs.vote, hs.commit), (0, 0, 0));
    assert_eq!(cs.voters, vec![1, 2, 3]);
}

#[test]
fn saved_entries_are_read_back() {
    let mut s = Storage::new(vec![1]);
    s.save_entries(&[entry(1, 1), entry(2, 1)]).unwrap();
    s.save_entries(&[entry(3, 2)]).unwrap();
    assert_eq!(s.first_index(), 1);
    assert_eq!(s.last_index(), 3);
    assert_eq!(s.term(3).unwrap(), 2);
    assert_eq!(s.term(1).unwrap(), 1);
    assert!(matches!(s.term(4), Err(StorageError::Unavailable)));
    let es = s.entries(1, 3);
    assert_eq!(es, vec![entry(2, 1), entry(3, 2)]);
    assert!(s.entries(0, 0).is_empty());
}

#[test]
fn snapshots_are_stored() {
    let mut s = Storage::new(vec![1]);
    let mut cs = ConfState::default();
    cs.voters = vec![1, 2];
    let snap = s.create_snapshot(7, 3, cs.clone()).unwrap();
    assert_eq!(snap.get_metadata().index, 7);
    assert_eq!(snap.get_metadata().term, 3);
    assert_eq!(snap.get_metadata().get_conf_state().voters, vec![1, 2]);
    assert_eq!(s.snapshot(0, 0).unwrap(), snap);
    let other = Snapshot::default();
    s.apply_snapshot(other.clone()).unwrap();
    assert_eq!(s.snapshot(0, 0).unwrap(), other);
    let hs = HardState { term: 4, vote: 2, commit: 1 };
    s.update_hard_state(hs).unwrap();
    s.update_conf_state(cs.clone()).unwrap();
    let (h, c) = s.initial_state();
    assert_eq!((h.term, h.vote, h.commit), (4, 2, 1));
    assert_eq!(c, cs);
}

#[test]
fn ticker_ticks_when_time_is_used_up() {
    let mut t = Ticker::new(100);
    assert!(!t.advance(30));
    assert!(!t.advance(60));
    assert!(t.advance(10));
    assert!(!t.advance(99));
    assert!(t.advance(500));
}

#[test]
fn integer_values_are_four_le_bytes() {
    assert_eq!(rest::value_bytes(258), vec![2, 1, 0, 0]);
    assert_eq!(rest::value_bytes(-1), vec![255, 255, 255, 255]);
    assert_eq!(rest::value_of(&[2, 1, 0, 0, 9]), Some(258));
    assert_eq!(rest::value_of(&[1, 2, 3]), None);
    for v in [0, 1, -7, i32::MAX, i32::MIN] {
        assert_eq!(rest::value_of(&rest::value_bytes(v)), Some(v));
    }
}

#[test]
fn rest_replies() {
    match rest::home().body {
        Body::Message(m) => assert_eq!(m, "connection works"),
        Body::KeyValue(_) => panic!(),
    }
    assert_eq!(rest::create_key_reply(true).status, 200);
    assert_eq!(rest::create_key_reply(false).status, 502);
    assert_eq!(rest::delete_key_reply(true).status, 200);
    assert_eq!(rest::get_key_reply(None).status, 502);
    let nf = rest::get_key_reply(Some(server::Response { status: 404, key_value: None }));
    assert_eq!(nf.status, 404);
    match nf.body {
        Body::Message(m) => assert_eq!(m, "key not found"),
        Body::KeyValue(_) => panic!(),
    }
    let db = rest::to_db_key_value(rest::KeyValue { key: "foo".to_string(), value: 42 });
    assert_eq!(db.value, vec![42, 0, 0, 0]);
    let found = rest::get_key_reply(Some(server::Response { status: 200, key_value: Some(db) }));
    assert_eq!(found.status, 200);
    match found.body {
        Body::KeyValue(kv) => {
            assert_eq!(kv.key, "foo");
            assert_eq!(kv.value, 42);
        }
        Body::Message(_) => panic!(),
    }
}

#[test]
fn json_body_after_empty_line() {
    let text = "GET / HTTP/1.1\r\nContent-Type: application/json\r\n\r\n{\"key\":\"foo\",\"value\":\"bar\"}\0\0\0";
    assert_eq!(
        single_thread_server::extract_json_body(text),
        "{\"key\":\"foo\",\"value\":\"bar\"}\n"
    );
    assert_eq!(single_thread_server::extract_json_body("no body"), "");
    assert_eq!(single_thread_server::extract_json_body("\n\na\nb\n"), "a\nb\n");
    assert_eq!(single_thread_server::extract_json_body(""), "");
}

#[test]
fn request_body_skips_header_slots() {
    let head = b"POST /keys HTTP/1.1\r\nContent-Type: application/json\r\nContent-Length: 27\r\n\r\n{\"key\":\"foo\",\"value\":\"bar\"}";
    let mut buffer = [0u8; 1024];
    buffer[..head.len()].copy_from_slice(head);
    let body = single_thread_server::request_body(&buffer).unwrap();
    assert_eq!(body, "{\"key\":\"foo\",\"value\":\"bar\"}\n");
    let bad = [0xffu8; 1024];
    assert_eq!(single_thread_server::request_body(&bad), None);
}

#[test]
fn ready_plan_persists_before_persisted_messages() {
    assert_eq!(
        ready_plan(true, true, true),
        vec![ReadyAction::SendMessages, ReadyAction::ApplySnapshot, ReadyAction::ApplyCommitted, ReadyAction::SaveEntries, ReadyAction::SaveHardState, ReadyAction::SendPersistedMessages, ReadyAction::Advance]
    );
    assert_eq!(ready_plan(false, false, false), vec![ReadyAction::SendMessages, ReadyAction::ApplyCommitted, ReadyAction::SendPersistedMessages, ReadyAction::Advance]);
    assert_eq!(
        ready_plan(false, true, false),
        vec![ReadyAction::SendMessages, ReadyAction::ApplyCommitted, ReadyAction::SaveEntries, ReadyAction::SendPersistedMessages, ReadyAction::Advance]
    );
}
