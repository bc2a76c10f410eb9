use patrick_db::hashmap_log::{self, HashMapLog, KeyValue};

fn record(key: &str, value: &[u8], update: bool) -> Vec<u8> {
    let mut out = Vec::new();
    out.extend_from_slice(&(key.len() as u64).to_le_bytes());
    out.extend_from_slice(key.as_bytes());
    out.extend_from_slice(&(value.len() as u64).to_le_bytes());
    out.extend_from_slice(value);
    out.push(if update { 1 } else { 0 });
    out
}

#[test]
fn get_after_insert_returns_value() {
    let mut log = HashMapLog::new();
    assert_eq!(hashmap_log::get(&log, "foo"), None);
    hashmap_log::insert(&mut log, "foo".to_string(), vec![1, 2, 3]);
    assert_eq!(hashmap_log::get(&log, "foo"), Some(vec![1, 2, 3]));
    assert_eq!(hashmap_log::get(&log, "bar"), None);
    hashmap_log::insert(&mut log, "foo".to_string(), vec![9]);
    assert_eq!(hashmap_log::get(&log, "foo"), Some(vec![9]));
}

#[test]
fn delete_removes_only_that_key() {
    let mut log = HashMapLog::new();
    hashmap_log::insert(&mut log, "a".to_string(), vec![1]);
    hashmap_log::insert(&mut log, "b".to_string(), vec![2]);
    hashmap_log::delete(&mut log, "a");
    assert_eq!(hashmap_log::get(&log, "a"), None);
    assert_eq!(hashmap_log::get(&log, "b"), Some(vec![2]));
    hashmap_log::delete(&mut log, "missing");
    assert_eq!(hashmap_log::get(&log, "b"), Some(vec![2]));
}

#[test]
fn log_record_is_bincode_layout() {
    let entry = hashmap_log::update_entry("a".to_string(), vec![1, 2]);
    let bytes = hashmap_log::log_record(&entry);
    assert_eq!(
        bytes,
        vec![1, 0, 0, 0, 0, 0, 0, 0, b'a', 2, 0, 0, 0, 0, 0, 0, 0, 1, 2, 1]
    );
    let del = hashmap_log::delete_entry("a");
    assert_eq!(hashmap_log::log_record(&del), record("a", &[], false));
    assert!(!del.update);
    assert!(del.value.is_empty());
}

#[test]
fn log_record_utf8_key() {
    let entry = hashmap_log::update_entry("é".to_string(), vec![]);
    assert_eq!(hashmap_log::log_record(&entry), record("é", &[], true));
}

#[test]
fn replay_rebuilds_index() {
    let mut buf = Vec::new();
    buf.extend(record("foo", b"bar", true));
    buf.extend(record("baz", b"qux", true));
    buf.extend(record("foo", b"", false));
    buf.extend(record("baz", b"new", true));
    let mut log = HashMapLog::new();
    let consumed = hashmap_log::replay_log(&mut log, &buf);
    assert_eq!(consumed, buf.len());
    assert_eq!(hashmap_log::get(&log, "foo"), None);
    assert_eq!(hashmap_log::get(&log, "baz"), Some(b"new".to_vec()));
}

#[test]
fn replay_of_written_records_matches_live_index() {
    let mut live = HashMapLog::new();
    let mut file = Vec::new();
    let changes: Vec<(&str, &[u8], bool)> = vec![
        ("k1", b"v1", true),
        ("k2", b"v2", true),
        ("k1", b"", false),
        ("k3", b"v3", true),
        ("k2", b"v2b", true),
    ];
    for (k, v, u) in changes {
        let entry = if u {
            hashmap_log::update_entry(k.to_string(), v.to_vec())
        } else {
            hashmap_log::delete_entry(k)
        };
        file.extend(hashmap_log::log_record(&entry));
        hashmap_log::apply(&mut live, entry);
    }
    let mut replayed = HashMapLog::new();
    hashmap_log::replay_log(&mut replayed, &file);
    for k in ["k1", "k2", "k3", "k4"] {
        assert_eq!(hashmap_log::get(&replayed, k), hashmap_log::get(&live, k));
    }
    assert_eq!(hashmap_log::get(&replayed, "k2"), Some(b"v2b".to_vec()));
}

#[test]
fn replay_stops_at_first_bad_record() {
    let mut buf = record("a", b"1", true);
    let good = buf.len();
    let mut bad = record("b", b"2", true);
    let last = bad.len() - 1;
    bad[last] = 7; // not a valid flag byte
    buf.extend(bad);
    buf.extend(record("c", b"3", true));
    let mut log = HashMapLog::new();
    let consumed = hashmap_log::replay_log(&mut log, &buf);
    assert_eq!(consumed, good);
    assert_eq!(hashmap_log::get(&log, "a"), Some(b"1".to_vec()));
    assert_eq!(hashmap_log::get(&log, "b"), None);
    assert_eq!(hashmap_log::get(&log, "c"), None);
}

#[test]
fn replay_stops_at_truncated_record_and_invalid_utf8() {
    let full = record("key", b"value", true);
    let mut log = HashMapLog::new();
    assert_eq!(hashmap_log::replay_log(&mut log, &full[..full.len() - 1]), 0);
    assert_eq!(hashmap_log::get(&log, "key"), None);
    let mut bad_key = record("k", b"v", true);
    bad_key[8] = 0xff;
    assert_eq!(hashmap_log::replay_log(&mut log, &bad_key), 0);
    assert_eq!(hashmap_log::replay_log(&mut log, &[]), 0);
}

#[test]
fn apply_entry_kinds() {
    let mut log = HashMapLog::new();
    hashmap_log::apply(&mut log, KeyValue { key: "x".to_string(), value: vec![5], update: true });
    assert_eq!(hashmap_log::get(&log, "x"), Some(vec![5]));
    hashmap_log::apply(&mut log, KeyValue { key: "x".to_string(), value: vec![], update: false });
    assert_eq!(hashmap_log::get(&log, "x"), None);
}
