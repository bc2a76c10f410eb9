//! The key-value index and its append-only log.
//!
//! The index maps keys to values. Every change is first written to the log as
//! a record (see `record`), then applied to the index; replaying the log from
//! its start rebuilds the index.

use vstd::prelude::*;
use dashmap::DashMap;
use vstd::slice::slice_subrange;
use crate::record::{
    decode_record, encode_record, first_record, has_record, lemma_first_record_is,
    lemma_record_len, lemma_record_roundtrip, record_bytes, record_size,
};

verus! {

#[verifier::external_type_specification]
#[verifier::external_body]
#[verifier::reject_recursive_types(K)]
#[verifier::reject_recursive_types(V)]
#[verifier::reject_recursive_types(S)]
pub struct ExDashMap<K, V, S>(DashMap<K, V, S>);

/// What a concurrent map of keys to values holds.
pub uninterp spec fn index_contents(m: DashMap<String, Vec<u8>>) -> Map<Seq<char>, Seq<u8>>;

/// The index that holds nothing.
pub open spec fn empty_index() -> Map<Seq<char>, Seq<u8>> {
    Map::empty()
}

/// `DashMap::new`: the new map holds nothing.
#[verifier::external_body]
fn index_new() -> (res: DashMap<String, Vec<u8>>)
    ensures
        index_contents(res) == empty_index(),
{
    DashMap::new()
}

/// `DashMap::get`, with the value that the returned guard refers to cloned:
/// the value that the map holds for the key, if it holds one.
#[verifier::external_body]
fn index_get(m: &DashMap<String, Vec<u8>>, key: &str) -> (res: Option<Vec<u8>>)
    ensures
        res is Some <==> index_contents(*m).contains_key(key@),
        res matches Some(v) ==> v@ == index_contents(*m)[key@],
{
    m.get(key).map(|entry| entry.value().clone())
}

/// `DashMap::insert`: afterwards the map holds `value` for `key` and is
/// otherwise unchanged.
#[verifier::external_body]
fn index_insert(m: &mut DashMap<String, Vec<u8>>, key: String, value: Vec<u8>)
    ensures
        index_contents(*final(m)) == index_contents(*old(m)).insert(key@, value@),
{
    m.insert(key, value);
}

/// `DashMap::remove`: afterwards the map holds nothing for `key` and is
/// otherwise unchanged.
#[verifier::external_body]
fn index_remove(m: &mut DashMap<String, Vec<u8>>, key: &str)
    ensures
        index_contents(*final(m)) == index_contents(*old(m)).remove(key@),
{
    m.remove(key);
}

/// One entry of the log: a key with its value, and whether it was set
/// (`update`) or deleted.
pub struct KeyValue {
    pub key: String,
    pub value: Vec<u8>,
    pub update: bool,
}

/// The index that the log is replayed into.
pub struct HashMapLog {
    index: DashMap<String, Vec<u8>>,
}

impl View for HashMapLog {
    type V = Map<Seq<char>, Seq<u8>>;

    closed spec fn view(&self) -> Map<Seq<char>, Seq<u8>> {
        index_contents(self.index)
    }
}

/// The index after one log entry.
pub open spec fn apply_entry(m: Map<Seq<char>, Seq<u8>>, key: Seq<char>, value: Seq<u8>, update: bool) -> Map<
    Seq<char>,
    Seq<u8>,
> {
    if update {
        m.insert(key, value)
    } else {
        m.remove(key)
    }
}

/// The index after replaying the records that `bytes` begins with, one after
/// the other, up to the first place where no record stands.
pub open spec fn replay(m: Map<Seq<char>, Seq<u8>>, bytes: Seq<u8>) -> Map<Seq<char>, Seq<u8>>
    decreases bytes.len(),
{
    if has_record(bytes) {
        let (k, v, u) = first_record(bytes);
        let n = record_bytes(k, v, u).len();
        if 0 < n <= bytes.len() {
            replay(apply_entry(m, k, v, u), bytes.subrange(n as int, bytes.len() as int))
        } else {
            m
        }
    } else {
        m
    }
}

/// How many bytes the records that `bytes` begins with take, counted the way
/// `replay` walks them.
pub open spec fn replayed_len(bytes: Seq<u8>) -> nat
    decreases bytes.len(),
{
    if has_record(bytes) {
        let (k, v, u) = first_record(bytes);
        let n = record_bytes(k, v, u).len();
        if 0 < n <= bytes.len() {
            n + replayed_len(bytes.subrange(n as int, bytes.len() as int))
        } else {
            0
        }
    } else {
        0
    }
}

/// A change to the index: key, value and update flag.
pub type LogChange = (Seq<char>, Seq<u8>, bool);

/// The log that records a sequence of changes.
pub open spec fn log_of(changes: Seq<LogChange>) -> Seq<u8>
    decreases changes.len(),
{
    if changes.len() == 0 {
        Seq::empty()
    } else {
        record_bytes(changes[0].0, changes[0].1, changes[0].2) + log_of(changes.drop_first())
    }
}

/// The index after a sequence of changes.
pub open spec fn apply_changes(m: Map<Seq<char>, Seq<u8>>, changes: Seq<LogChange>) -> Map<
    Seq<char>,
    Seq<u8>,
>
    decreases changes.len(),
{
    if changes.len() == 0 {
        m
    } else {
        apply_changes(apply_entry(m, changes[0].0, changes[0].1, changes[0].2), changes.drop_first())
    }
}

/// Replaying a record followed by more bytes applies the record, then replays
/// the rest.
pub proof fn lemma_replay_record(
    m: Map<Seq<char>, Seq<u8>>,
    key: Seq<char>,
    value: Seq<u8>,
    update: bool,
    rest: Seq<u8>,
)
    requires
        (record_bytes(key, value, update) + rest).len() <= u64::MAX,
    ensures
        replay(m, record_bytes(key, value, update) + rest) == replay(
            apply_entry(m, key, value, update),
            rest,
        ),
{
    let r = record_bytes(key, value, update);
    let bytes = r + rest;
    lemma_record_roundtrip(key, value, update, rest);
    assert(bytes.subrange(r.len() as int, bytes.len() as int) =~= rest);
}

/// The log is durable: replaying the log that records a sequence of changes
/// gives the index that the changes give, from the same starting index.
pub proof fn lemma_log_replays_to_index(m: Map<Seq<char>, Seq<u8>>, changes: Seq<LogChange>)
    requires
        log_of(changes).len() <= u64::MAX,
    ensures
        replay(m, log_of(changes)) == apply_changes(m, changes),
    decreases changes.len(),
{
    if changes.len() == 0 {
        assert(!has_record(Seq::<u8>::empty())) by {
            if has_record(Seq::<u8>::empty()) {
                let (k, v, u) = first_record(Seq::<u8>::empty());
                lemma_record_len(k, v, u);
            }
        }
    } else {
        let c = changes[0];
        let rest = log_of(changes.drop_first());
        lemma_replay_record(m, c.0, c.1, c.2, rest);
        lemma_log_replays_to_index(apply_entry(m, c.0, c.1, c.2), changes.drop_first());
    }
}

/// A read after a write of a key gives the value written; other keys are
/// unchanged.
pub proof fn lemma_read_after_write(m: Map<Seq<char>, Seq<u8>>, key: Seq<char>, value: Seq<u8>, other: Seq<char>)
    ensures
        apply_entry(m, key, value, true).contains_key(key),
        apply_entry(m, key, value, true)[key] == value,
        !apply_entry(m, key, value, false).contains_key(key),
        other != key ==> apply_entry(m, key, value, true).contains_key(other) == m.contains_key(other),
        other != key ==> apply_entry(m, key, value, false).contains_key(other) == m.contains_key(other),
        other != key && m.contains_key(other) ==> apply_entry(m, key, value, true)[other] == m[other],
        other != key && m.contains_key(other) ==> apply_entry(m, key, value, false)[other] == m[other],
{
}

impl HashMapLog {
    /// An empty index.
    pub fn new() -> (log: HashMapLog)
        ensures
            log@ == Map::<Seq<char>, Seq<u8>>::empty(),
    {
        HashMapLog { index: index_new() }
    }
}

/// The value that the index holds for `key`.
pub fn get(log: &HashMapLog, key: &str) -> (res: Option<Vec<u8>>)
    ensures
        res is Some <==> log@.contains_key(key@),
        res matches Some(v) ==> v@ == log@[key@],
{
    index_get(&log.index, key)
}

/// Sets `key` to `value` in the index.
pub fn insert(log: &mut HashMapLog, key: String, value: Vec<u8>)
    ensures
        final(log)@ == old(log)@.insert(key@, value@),
{
    index_insert(&mut log.index, key, value);
}

/// Removes `key` from the index.
pub fn delete(log: &mut HashMapLog, key: &str)
    ensures
        final(log)@ == old(log)@.remove(key@),
{
    index_remove(&mut log.index, key);
}

/// Applies one log entry to the index: sets the key where the entry is an
/// update, removes it where it is a deletion.
pub fn apply(log: &mut HashMapLog, entry: KeyValue)
    ensures
        final(log)@ == apply_entry(old(log)@, entry.key@, entry.value@, entry.update),
{
    if entry.update {
        insert(log, entry.key, entry.value);
    } else {
        delete(log, entry.key.as_str());
    }
}

/// The log entry that sets `key` to `value`.
pub fn update_entry(key: String, value: Vec<u8>) -> (entry: KeyValue)
    ensures
        entry.key@ == key@,
        entry.value@ == value@,
        entry.update,
{
    KeyValue { key, value, update: true }
}

/// The log entry that deletes `key`: its value is empty.
pub fn delete_entry(key: &str) -> (entry: KeyValue)
    ensures
        entry.key@ == key@,
        entry.value@ == Seq::<u8>::empty(),
        !entry.update,
{
    KeyValue { key: key.to_string(), value: Vec::new(), update: false }
}

/// The bytes that are appended to the log for an entry.
pub fn log_record(entry: &KeyValue) -> (bytes: Vec<u8>)
    ensures
        bytes@ == record_bytes(entry.key@, entry.value@, entry.update),
{
    match encode_record(entry.key.as_str(), entry.value.as_slice(), entry.update) {
        Some(bytes) => bytes,
        None => {
            proof {
                assert(false);
            }
            Vec::new()
        },
    }
}

/// Replays a log into the index: applies the records that `buf` begins with,
/// one after the other, and stops at the first place where no record stands.
/// Returns how many bytes the applied records take.
pub fn replay_log(log: &mut HashMapLog, buf: &[u8]) -> (consumed: usize)
    ensures
        final(log)@ == replay(old(log)@, buf@),
        consumed == replayed_len(buf@),
        consumed <= buf@.len(),
        !has_record(buf@.subrange(consumed as int, buf@.len() as int)),
{
    let mut pos: usize = 0;
    assert(buf@.subrange(0, buf@.len() as int) =~= buf@);
    loop
        invariant
            pos <= buf@.len(),
            replay(old(log)@, buf@) == replay(log@, buf@.subrange(pos as int, buf@.len() as int)),
            replayed_len(buf@) == pos + replayed_len(buf@.subrange(pos as int, buf@.len() as int)),
        ensures
            pos <= buf@.len(),
            pos == replayed_len(buf@),
            replay(old(log)@, buf@) == log@,
            !has_record(buf@.subrange(pos as int, buf@.len() as int)),
        decreases buf@.len() - pos,
    {
        let rest = slice_subrange(buf, pos, buf.len());
        match decode_record(rest) {
            Some((key, value, update)) => {
                proof {
                    lemma_first_record_is(rest@, key@, value@, update);
                    lemma_record_len(key@, value@, update);
                }
                let size = match record_size(key.as_str(), value.as_slice(), update) {
                    Some(n) => n,
                    None => {
                        proof {
                            assert(false);
                        }
                        0
                    },
                };
                let ghost n = record_bytes(key@, value@, update).len();
                proof {
                    assert(rest@.subrange(n as int, rest@.len() as int) =~= buf@.subrange(
                        pos + n,
                        buf@.len() as int,
                    ));
                }
                pos = pos + size as usize;
                apply(log, KeyValue { key, value, update });
            },
            None => {
                break ;
            },
        }
    }
    pos
}

} // verus!
