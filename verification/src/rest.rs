//! The REST front end: JSON keys with integer values, stored in the
//! database as the bincode encoding of the integer (four little-endian
//! bytes).

use vstd::prelude::*;
use crate::server;

verus! {

/// A key with an integer value, as the REST API reads and writes it.
pub struct KeyValue {
    pub key: String,
    pub value: i32,
}

/// The four little-endian bytes of `v`.
pub open spec fn le_i32(v: i32) -> Seq<u8> {
    let u = v as u32;
    seq![u as u8, (u >> 8u32) as u8, (u >> 16u32) as u8, (u >> 24u32) as u8]
}

/// `bincode::serialize` of an `i32`. Claimed: always `Some`, holding the four
/// little-endian bytes of the value (bincode 1.3's default fixed-width
/// encoding).
#[verifier::external_body]
fn encode_i32(v: i32) -> (res: Option<Vec<u8>>)
    ensures
        res is Some,
        res.unwrap()@ == le_i32(v),
{
    bincode::serialize(&v).ok()
}

/// `bincode::deserialize` of an `i32`. Claimed: it succeeds exactly when
/// there are at least four bytes (trailing bytes are allowed), and then
/// returns the value whose little-endian bytes they are.
#[verifier::external_body]
fn decode_i32(bytes: &[u8]) -> (res: Option<i32>)
    ensures
        res is Some <==> bytes@.len() >= 4,
        res matches Some(v) ==> le_i32(v) == bytes@.subrange(0, 4),
{
    bincode::deserialize::<i32>(bytes).ok()
}

/// Four little-endian bytes determine the integer.
pub proof fn lemma_le_i32_injective(a: i32, b: i32)
    requires
        le_i32(a) == le_i32(b),
    ensures
        a == b,
{
    let ua = a as u32;
    let ub = b as u32;
    assert(le_i32(a)[0] == le_i32(b)[0]);
    assert(le_i32(a)[1] == le_i32(b)[1]);
    assert(le_i32(a)[2] == le_i32(b)[2]);
    assert(le_i32(a)[3] == le_i32(b)[3]);
    assert(ua == ub) by (bit_vector)
        requires
            ua as u8 == ub as u8,
            (ua >> 8u32) as u8 == (ub >> 8u32) as u8,
            (ua >> 16u32) as u8 == (ub >> 16u32) as u8,
            (ua >> 24u32) as u8 == (ub >> 24u32) as u8,
    ;
    assert(a == b) by (bit_vector)
        requires
            a as u32 == b as u32,
    ;
}

/// The bytes that store an integer value in the database.
pub fn value_bytes(value: i32) -> (bytes: Vec<u8>)
    ensures
        bytes@ == le_i32(value),
{
    match encode_i32(value) {
        Some(b) => b,
        None => {
            proof {
                assert(false);
            }
            Vec::new()
        },
    }
}

/// The integer that stored bytes hold; `None` where there are fewer than four.
pub fn value_of(bytes: &[u8]) -> (value: Option<i32>)
    ensures
        value is Some <==> bytes@.len() >= 4,
        value matches Some(v) ==> le_i32(v) == bytes@.subrange(0, 4),
{
    decode_i32(bytes)
}

/// Values survive the database: the integer read back from the bytes that
/// stored it, followed by anything, is the integer stored.
pub proof fn lemma_value_roundtrip(value: i32, rest: Seq<u8>, read: i32)
    requires
        le_i32(read) == (le_i32(value) + rest).subrange(0, 4),
    ensures
        read == value,
{
    assert((le_i32(value) + rest).subrange(0, 4) =~= le_i32(value));
    lemma_le_i32_injective(read, value);
}

/// The database's key-value pair for a REST key-value pair.
pub fn to_db_key_value(key_value: KeyValue) -> (kv: server::KeyValue)
    ensures
        kv.key@ == key_value.key@,
        kv.value@ == le_i32(key_value.value),
{
    server::KeyValue { key: key_value.key, value: value_bytes(key_value.value) }
}

/// What the REST API answers with.
pub enum Body {
    /// A message, as `{"message": ...}`.
    Message(String),
    /// A key-value pair.
    KeyValue(KeyValue),
}

/// An HTTP status with its body.
pub struct Reply {
    pub status: u16,
    pub body: Body,
}

/// `r` is the status with the message.
pub open spec fn is_message(r: Reply, status: u16, message: Seq<char>) -> bool {
    &&& r.status == status
    &&& r.body matches Body::Message(m)
    &&& r.body->Message_0@ == message
}

/// The answer at the root: the connection works.
pub fn home() -> (r: Reply)
    ensures
        is_message(r, 200, "connection works"@),
{
    Reply { status: 200, body: Body::Message("connection works".to_string()) }
}

/// The answer to creating a key, by whether the database accepted it.
pub fn create_key_reply(ok: bool) -> (r: Reply)
    ensures
        ok ==> is_message(r, 200, "successfully added key"@),
        !ok ==> is_message(r, 502, "database unavailable"@),
{
    if ok {
        Reply { status: 200, body: Body::Message("successfully added key".to_string()) }
    } else {
        Reply { status: 502, body: Body::Message("database unavailable".to_string()) }
    }
}

/// The answer to deleting a key, by whether the database accepted it.
pub fn delete_key_reply(ok: bool) -> (r: Reply)
    ensures
        ok ==> is_message(r, 200, "successfully deleted key"@),
        !ok ==> is_message(r, 502, "database unavailable"@),
{
    if ok {
        Reply { status: 200, body: Body::Message("successfully deleted key".to_string()) }
    } else {
        Reply { status: 502, body: Body::Message("database unavailable".to_string()) }
    }
}

/// The answer to reading a key, from the database's response (`None` where
/// the database could not be reached): the key with its integer value where
/// it was found, 404 where it was not, 502 where the database failed.
pub fn get_key_reply(response: Option<server::Response>) -> (r: Reply)
    requires
        response matches Some(resp) ==> (resp.key_value matches Some(kv) ==> kv.value@.len()
            >= 4),
    ensures
        response is None ==> is_message(r, 502, "database unavailable"@),
        response matches Some(resp) ==> (resp.key_value is None ==> is_message(
            r,
            404,
            "key not found"@,
        )),
        response matches Some(resp) ==> (resp.key_value matches Some(kv) ==> {
            &&& r.status == 200
            &&& r.body matches Body::KeyValue(out)
            &&& r.body->KeyValue_0.key@ == kv.key@
            &&& le_i32(r.body->KeyValue_0.value) == kv.value@.subrange(0, 4)
        }),
{
    match response {
        None => Reply { status: 502, body: Body::Message("database unavailable".to_string()) },
        Some(resp) => match resp.key_value {
            Some(kv) => {
                let value = match value_of(kv.value.as_slice()) {
                    Some(v) => v,
                    None => {
                        proof {
                            assert(false);
                        }
                        0
                    },
                };
                Reply { status: 200, body: Body::KeyValue(KeyValue { key: kv.key, value }) }
            },
            None => Reply { status: 404, body: Body::Message("key not found".to_string()) },
        },
    }
}

} // verus!
