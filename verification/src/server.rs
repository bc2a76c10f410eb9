//! The database server's request handling.
//!
//! A request names an action and a route such as `/keys/foo`. A read answers
//! with the value held for the key; an update or a deletion is first written
//! to the log and then applied to the index, and is forwarded to the
//! replicas where the server is the leader.

use vstd::prelude::*;
use crate::hashmap_log::{self, HashMapLog, KeyValue as LogEntry};
use crate::record::record_bytes;

verus! {

/// A key and its value, as carried by requests and responses.
pub struct KeyValue {
    pub key: String,
    pub value: Vec<u8>,
}

/// What a request asks for.
pub enum ActionType {
    Get,
    Update,
    Delete,
}

/// A request to the server.
pub struct Request {
    pub action_type: ActionType,
    pub key_value: Option<KeyValue>,
    pub route: String,
}

/// The server's answer: an HTTP-like status and, for a read, the key and
/// its value.
pub struct Response {
    pub status: u16,
    pub key_value: Option<KeyValue>,
}

/// The separator that precedes a key in a route.
pub open spec fn separator() -> Seq<char> {
    seq!['/', 'k', 'e', 'y', 's', '/']
}

/// The separator stands at position `i` of `s`.
pub open spec fn separator_at(s: Seq<char>, i: int) -> bool {
    &&& 0 <= i
    &&& i + 6 <= s.len()
    &&& s.subrange(i, i + 6) == separator()
}

/// Scanning `s` from `i` for the separator, left to right and without
/// overlaps, where the current piece starts at `start`: where the last piece
/// starts.
pub open spec fn last_piece_start(s: Seq<char>, start: int, i: int) -> int
    decreases s.len() - i,
{
    if i < 0 || i + 6 > s.len() {
        start
    } else if separator_at(s, i) {
        last_piece_start(s, i + 6, i + 6)
    } else {
        last_piece_start(s, start, i + 1)
    }
}

/// The last piece of `s` split at the separator: what follows the last
/// separator found left to right without overlaps, or all of `s` where there
/// is none.
pub open spec fn split_last(s: Seq<char>) -> Seq<char> {
    s.subrange(last_piece_start(s, 0, 0), s.len() as int)
}

/// The route that names `key`.
pub open spec fn keys_route(key: Seq<char>) -> Seq<char> {
    separator() + key
}

/// The separator occurs nowhere in `s`.
pub open spec fn free_of_separator(s: Seq<char>) -> bool {
    forall|i: int| !#[trigger] separator_at(s, i)
}

/// `r` carries the status and no key-value pair.
pub open spec fn is_status(r: Response, status: u16) -> bool {
    r.status == status && r.key_value is None
}

/// `r` answers a read of `key` from the index `m`: 200 with the key and its
/// value where the key is held, 404 otherwise.
pub open spec fn answers_get(m: Map<Seq<char>, Seq<u8>>, key: Seq<char>, r: Response) -> bool {
    if m.contains_key(key) {
        &&& r.status == 200
        &&& r.key_value is Some
        &&& r.key_value.unwrap().key@ == key
        &&& r.key_value.unwrap().value@ == m[key]
    } else {
        is_status(r, 404)
    }
}

proof fn lemma_no_separator_from(s: Seq<char>, start: int, i: int)
    requires
        0 <= start <= s.len(),
        forall|j: int| i <= j ==> !#[trigger] separator_at(s, j),
    ensures
        last_piece_start(s, start, i) == start,
    decreases s.len() - i,
{
    if i < 0 || i + 6 > s.len() {
    } else {
        assert(!separator_at(s, i));
        lemma_no_separator_from(s, start, i + 1);
    }
}

/// A key free of the separator is what its route names: splitting the route
/// at the separator gives the key back.
pub proof fn lemma_route_names_key(key: Seq<char>)
    requires
        free_of_separator(key),
    ensures
        split_last(keys_route(key)) == key,
{
    let s = keys_route(key);
    assert(s.subrange(0, 6) =~= separator());
    assert(separator_at(s, 0));
    assert forall|j: int| 6 <= j implies !#[trigger] separator_at(s, j) by {
        if separator_at(s, j) {
            assert(key.subrange(j - 6, j) =~= s.subrange(j, j + 6));
            assert(separator_at(key, j - 6));
        }
    }
    lemma_no_separator_from(s, 6, 6);
    assert(s.subrange(6, s.len() as int) =~= key);
}

/// Whether the separator stands at position `i` of `route`.
fn separator_at_exec(route: &str, n: usize, i: usize) -> (b: bool)
    requires
        n == route@.len(),
        i <= n,
        n - i >= 6,
    ensures
        b == separator_at(route@, i as int),
{
    let b = route.get_char(i) == '/' && route.get_char(i + 1) == 'k' && route.get_char(i + 2)
        == 'e' && route.get_char(i + 3) == 'y' && route.get_char(i + 4) == 's' && route.get_char(
        i + 5,
    ) == '/';
    proof {
        let sub = route@.subrange(i as int, i + 6);
        if b {
            assert(sub =~= separator());
        } else {
            if sub == separator() {
                assert(sub[0] == separator()[0]);
                assert(sub[1] == separator()[1]);
                assert(sub[2] == separator()[2]);
                assert(sub[3] == separator()[3]);
                assert(sub[4] == separator()[4]);
                assert(sub[5] == separator()[5]);
            }
        }
    }
    b
}

/// The key that a route names: the last piece of the route split at
/// `/keys/`.
pub fn route_key(route: &str) -> (key: String)
    ensures
        key@ == split_last(route@),
{
    let n = route.unicode_len();
    let mut start: usize = 0;
    let mut i: usize = 0;
    while i < n && n - i >= 6
        invariant
            n == route@.len(),
            start <= i <= n,
            last_piece_start(route@, 0, 0) == last_piece_start(route@, start as int, i as int),
        decreases n - i,
    {
        if separator_at_exec(route, n, i) {
            i = i + 6;
            start = i;
        } else {
            i = i + 1;
        }
    }
    route.substring_char(start, n).to_string()
}

/// The response that reports success.
pub fn send_ok() -> (r: Response)
    ensures
        is_status(r, 200),
{
    Response { status: 200, key_value: None }
}

/// The response to a malformed request.
pub fn send_bad_request() -> (r: Response)
    ensures
        is_status(r, 400),
{
    Response { status: 400, key_value: None }
}

/// The response for a key that is not there.
pub fn send_not_found() -> (r: Response)
    ensures
        is_status(r, 404),
{
    Response { status: 404, key_value: None }
}

/// Reads `key` from the index.
pub fn get_key(log: &HashMapLog, key: &str) -> (r: Response)
    ensures
        answers_get(log@, key@, r),
{
    match hashmap_log::get(log, key) {
        Some(value) => Response {
            status: 200,
            key_value: Some(KeyValue { key: key.to_string(), value }),
        },
        None => send_not_found(),
    }
}

/// Answers a read request: reads the key that the route names.
pub fn handle_get_key(log: &HashMapLog, request: &Request) -> (r: Response)
    ensures
        answers_get(log@, split_last(request.route@), r),
{
    let key = route_key(request.route.as_str());
    get_key(log, key.as_str())
}

/// A change that is waiting for its log record to be written.
pub enum Change {
    Insert { key: String, value: Vec<u8> },
    Delete { key: String },
}

/// A write request whose log record is to be written before the index
/// changes. `request` is what is forwarded to the replicas.
pub struct Pending {
    pub change: Change,
    pub record: Vec<u8>,
    pub request: Request,
}

/// What the server does next with a request.
pub enum Step {
    /// Send this response.
    Respond(Response),
    /// Append `record` to the log, then complete the change.
    Persist(Pending),
}

/// `p` sets `key` to `value`, with the log record for that, on behalf of
/// `request`.
pub open spec fn pending_insert(p: Pending, key: Seq<char>, value: Seq<u8>, request: Request) -> bool {
    &&& p.change matches Change::Insert { key: k, value: v }
    &&& p.change->Insert_key@ == key
    &&& p.change->Insert_value@ == value
    &&& p.record@ == record_bytes(key, value, true)
    &&& p.request == request
}

/// `p` deletes `key`, with the log record for that, on behalf of `request`.
pub open spec fn pending_delete(p: Pending, key: Seq<char>, request: Request) -> bool {
    &&& p.change is Delete
    &&& p.change->Delete_key@ == key
    &&& p.record@ == record_bytes(key, Seq::<u8>::empty(), false)
    &&& p.request == request
}

/// An update request: with a key-value pair it is to be persisted, without
/// one it is a bad request.
pub fn handle_update_key(request: Request) -> (step: Step)
    ensures
        request.key_value is Some ==> (step matches Step::Persist(p) && pending_insert(
            p,
            request.key_value.unwrap().key@,
            request.key_value.unwrap().value@,
            request,
        )),
        request.key_value is None ==> (step matches Step::Respond(r) && is_status(r, 400)),
{
    match &request.key_value {
        Some(kv) => {
            let entry = hashmap_log::update_entry(kv.key.clone(), kv.value.clone());
            let record = hashmap_log::log_record(&entry);
            let LogEntry { key, value, update: _ } = entry;
            Step::Persist(Pending { change: Change::Insert { key, value }, record, request })
        },
        None => Step::Respond(send_bad_request()),
    }
}

/// Deletes `key` on behalf of `request`: the change to persist.
pub fn delete_key(key: String, request: Request) -> (p: Pending)
    ensures
        pending_delete(p, key@, request),
{
    let entry = hashmap_log::delete_entry(key.as_str());
    let record = hashmap_log::log_record(&entry);
    Pending { change: Change::Delete { key }, record, request }
}

/// A delete request: deletes the key that the route names.
pub fn handle_delete_key(request: Request) -> (step: Step)
    ensures
        step matches Step::Persist(p) && pending_delete(p, split_last(request.route@), request),
{
    let key = route_key(request.route.as_str());
    Step::Persist(delete_key(key, request))
}

/// `p` is the change that the server persists for `request`.
pub open spec fn pending_for(p: Pending, request: Request) -> bool {
    ||| request.action_type is Update && request.key_value is Some && pending_insert(
        p,
        request.key_value.unwrap().key@,
        request.key_value.unwrap().value@,
        request,
    )
    ||| request.action_type is Delete && pending_delete(p, split_last(request.route@), request)
}

/// The index after a change.
pub open spec fn applied(m: Map<Seq<char>, Seq<u8>>, change: Change) -> Map<Seq<char>, Seq<u8>> {
    match change {
        Change::Insert { key, value } => m.insert(key@, value@),
        Change::Delete { key } => m.remove(key@),
    }
}

/// How a request changes an index: an update with a pair sets the key, a
/// deletion removes the key that the route names, anything else changes
/// nothing.
pub open spec fn write_effect(m: Map<Seq<char>, Seq<u8>>, request: Request) -> Map<Seq<char>, Seq<u8>> {
    match request.action_type {
        ActionType::Update => match request.key_value {
            Some(kv) => m.insert(kv.key@, kv.value@),
            None => m,
        },
        ActionType::Delete => m.remove(split_last(request.route@)),
        ActionType::Get => m,
    }
}

/// Replicas converge: the change that the server persists for a request is
/// a function of the request alone, so a follower that handles the
/// forwarded request changes its index exactly as the leader did.
pub proof fn lemma_forwarded_write_converges(m: Map<Seq<char>, Seq<u8>>, request: Request, p: Pending)
    requires
        pending_for(p, request),
    ensures
        applied(m, p.change) == write_effect(m, request),
{
}

/// What the server does with a request.
pub fn handle_request(log: &HashMapLog, request: Request) -> (step: Step)
    ensures
        request.action_type is Get ==> (step matches Step::Respond(r) && answers_get(
            log@,
            split_last(request.route@),
            r,
        )),
        request.action_type is Update && request.key_value is Some ==> (
        step matches Step::Persist(p) && pending_insert(
            p,
            request.key_value.unwrap().key@,
            request.key_value.unwrap().value@,
            request,
        )),
        request.action_type is Update && request.key_value is None ==> (
        step matches Step::Respond(r) && is_status(r, 400)),
        request.action_type is Delete ==> (step matches Step::Persist(p) && pending_delete(
            p,
            split_last(request.route@),
            request,
        )),
        step matches Step::Persist(p) ==> pending_for(p, request),
{
    match request.action_type {
        ActionType::Get => Step::Respond(handle_get_key(log, &request)),
        ActionType::Update => handle_update_key(request),
        ActionType::Delete => handle_delete_key(request),
    }
}

/// Completes a persisted change once its log record has been written
/// (`persisted`) or has failed to be written. Where it was written, the index
/// changes, the answer is 200, and the request is forwarded where the server
/// replicates (`replicate`). Where it was not, an insertion gets no answer
/// (the connection ends with the error) and a deletion is answered 404.
pub fn complete(log: &mut HashMapLog, pending: Pending, persisted: bool, replicate: bool) -> (res: (
    Option<Response>,
    Option<Request>,
))
    ensures
        persisted ==> final(log)@ == applied(old(log)@, pending.change),
        !persisted ==> final(log)@ == old(log)@,
        persisted ==> (res.0 matches Some(r) && is_status(r, 200)),
        !persisted && pending.change is Insert ==> res.0 is None,
        !persisted && pending.change is Delete ==> (res.0 matches Some(r) && is_status(r, 404)),
        res.1 is Some <==> persisted && replicate,
        res.1 matches Some(fwd) ==> fwd == pending.request,
{
    let Pending { change, record: _, request } = pending;
    if !persisted {
        match change {
            Change::Insert { .. } => (None, None),
            Change::Delete { .. } => (Some(send_not_found()), None),
        }
    } else {
        match change {
            Change::Insert { key, value } => hashmap_log::insert(log, key, value),
            Change::Delete { key } => hashmap_log::delete(log, key.as_str()),
        }
        let forward = if replicate {
            Some(request)
        } else {
            None
        };
        (Some(send_ok()), forward)
    }
}

/// A read after a persisted update, over the protocol: once an update of a
/// key free of the separator has been applied, a read of the route that
/// names the key answers 200 with the value written.
pub proof fn lemma_read_after_update(m: Map<Seq<char>, Seq<u8>>, key: Seq<char>, value: Seq<u8>, r: Response)
    requires
        free_of_separator(key),
        answers_get(m.insert(key, value), split_last(keys_route(key)), r),
    ensures
        r.status == 200,
        r.key_value is Some,
        r.key_value.unwrap().key@ == key,
        r.key_value.unwrap().value@ == value,
{
    lemma_route_names_key(key);
}

/// A read after a persisted deletion, over the protocol: the key is not
/// found.
pub proof fn lemma_read_after_delete(m: Map<Seq<char>, Seq<u8>>, key: Seq<char>, r: Response)
    requires
        free_of_separator(key),
        answers_get(m.remove(key), split_last(keys_route(key)), r),
    ensures
        is_status(r, 404),
{
    lemma_route_names_key(key);
}

} // verus!
