//! The on-disk format of one log record.
//!
//! A record is the bincode encoding (fixed-width integers, little endian) of
//! a key, a value and an update flag: the key's length as eight bytes, the
//! key's UTF-8 bytes, the value's length as eight bytes, the value's bytes and
//! one byte that is 1 for an update and 0 for a deletion.

use vstd::prelude::*;
use vstd::utf8::*;

verus! {

/// The eight little-endian bytes of `n`.
pub open spec fn le_u64(n: u64) -> Seq<u8> {
    seq![
        n as u8,
        (n >> 8u64) as u8,
        (n >> 16u64) as u8,
        (n >> 24u64) as u8,
        (n >> 32u64) as u8,
        (n >> 40u64) as u8,
        (n >> 48u64) as u8,
        (n >> 56u64) as u8,
    ]
}

/// A byte string preceded by its length.
pub open spec fn framed(bytes: Seq<u8>) -> Seq<u8> {
    le_u64(bytes.len() as u64) + bytes
}

/// The byte that stands for the update flag.
pub open spec fn flag_byte(update: bool) -> u8 {
    if update { 1u8 } else { 0u8 }
}

/// The bytes of the record that holds `key`, `value` and `update`.
pub open spec fn record_bytes(key: Seq<char>, value: Seq<u8>, update: bool) -> Seq<u8> {
    framed(encode_utf8(key)) + framed(value) + seq![flag_byte(update)]
}

/// `bytes` begins with the record of `key`, `value` and `update`.
pub open spec fn starts_with_record(bytes: Seq<u8>, key: Seq<char>, value: Seq<u8>, update: bool) -> bool {
    let r = record_bytes(key, value, update);
    &&& r.len() <= bytes.len()
    &&& bytes.subrange(0, r.len() as int) == r
}

/// `bytes` begins with some record.
pub open spec fn has_record(bytes: Seq<u8>) -> bool {
    exists|k: Seq<char>, v: Seq<u8>, u: bool| #[trigger] starts_with_record(bytes, k, v, u)
}

/// The record that `bytes` begins with (meaningful where `has_record(bytes)`).
pub open spec fn first_record(bytes: Seq<u8>) -> (Seq<char>, Seq<u8>, bool) {
    choose|k: Seq<char>, v: Seq<u8>, u: bool| #[trigger] starts_with_record(bytes, k, v, u)
}

/// Eight little-endian bytes determine the number.
pub proof fn lemma_le_u64_injective(a: u64, b: u64)
    requires
        le_u64(a) == le_u64(b),
    ensures
        a == b,
{
    assert(le_u64(a)[0] == le_u64(b)[0]);
    assert(le_u64(a)[1] == le_u64(b)[1]);
    assert(le_u64(a)[2] == le_u64(b)[2]);
    assert(le_u64(a)[3] == le_u64(b)[3]);
    assert(le_u64(a)[4] == le_u64(b)[4]);
    assert(le_u64(a)[5] == le_u64(b)[5]);
    assert(le_u64(a)[6] == le_u64(b)[6]);
    assert(le_u64(a)[7] == le_u64(b)[7]);
    assert(a == b) by (bit_vector)
        requires
            a as u8 == b as u8,
            (a >> 8u64) as u8 == (b >> 8u64) as u8,
            (a >> 16u64) as u8 == (b >> 16u64) as u8,
            (a >> 24u64) as u8 == (b >> 24u64) as u8,
            (a >> 32u64) as u8 == (b >> 32u64) as u8,
            (a >> 40u64) as u8 == (b >> 40u64) as u8,
            (a >> 48u64) as u8 == (b >> 48u64) as u8,
            (a >> 56u64) as u8 == (b >> 56u64) as u8,
    ;
}

/// Two framed byte strings at the start of the same bytes are the same.
pub proof fn lemma_framed_prefix_unique(x: Seq<u8>, a: Seq<u8>, b: Seq<u8>)
    requires
        a.len() <= u64::MAX,
        b.len() <= u64::MAX,
        framed(a).len() <= x.len(),
        framed(b).len() <= x.len(),
        x.subrange(0, framed(a).len() as int) == framed(a),
        x.subrange(0, framed(b).len() as int) == framed(b),
    ensures
        a == b,
{
    assert(le_u64(a.len() as u64) =~= x.subrange(0, 8));
    assert(le_u64(b.len() as u64) =~= x.subrange(0, 8));
    lemma_le_u64_injective(a.len() as u64, b.len() as u64);
    assert forall|j: int| 0 <= j < a.len() implies x[8 + j] == a[j] by {
        assert(x.subrange(0, framed(a).len() as int)[8 + j] == framed(a)[8 + j]);
    }
    assert forall|j: int| 0 <= j < b.len() implies x[8 + j] == b[j] by {
        assert(x.subrange(0, framed(b).len() as int)[8 + j] == framed(b)[8 + j]);
    }
    assert(a =~= b);
}

/// A record's length.
pub proof fn lemma_record_len(key: Seq<char>, value: Seq<u8>, update: bool)
    ensures
        record_bytes(key, value, update).len() == 17 + encode_utf8(key).len() + value.len(),
{
}

/// At most one record stands at the start of a byte string.
pub proof fn lemma_record_prefix_unique(
    bytes: Seq<u8>,
    k1: Seq<char>,
    v1: Seq<u8>,
    u1: bool,
    k2: Seq<char>,
    v2: Seq<u8>,
    u2: bool,
)
    requires
        bytes.len() <= u64::MAX,
        starts_with_record(bytes, k1, v1, u1),
        starts_with_record(bytes, k2, v2, u2),
    ensures
        k1 == k2,
        v1 == v2,
        u1 == u2,
{
    let e1 = encode_utf8(k1);
    let e2 = encode_utf8(k2);
    let r1 = record_bytes(k1, v1, u1);
    let r2 = record_bytes(k2, v2, u2);
    assert(r1.subrange(0, framed(e1).len() as int) =~= framed(e1));
    assert(r2.subrange(0, framed(e2).len() as int) =~= framed(e2));
    assert(bytes.subrange(0, framed(e1).len() as int) =~= framed(e1));
    assert(bytes.subrange(0, framed(e2).len() as int) =~= framed(e2));
    lemma_framed_prefix_unique(bytes, e1, e2);
    encode_utf8_decode_utf8(k1);
    encode_utf8_decode_utf8(k2);
    let n = framed(e1).len() as int;
    let tail = bytes.subrange(n, bytes.len() as int);
    assert forall|j: int| 0 <= j < framed(v1).len() implies tail[j] == framed(v1)[j] by {
        assert(bytes.subrange(0, r1.len() as int)[n + j] == r1[n + j]);
    }
    assert forall|j: int| 0 <= j < framed(v2).len() implies tail[j] == framed(v2)[j] by {
        assert(bytes.subrange(0, r2.len() as int)[n + j] == r2[n + j]);
    }
    assert(tail.subrange(0, framed(v1).len() as int) =~= framed(v1));
    assert(tail.subrange(0, framed(v2).len() as int) =~= framed(v2));
    lemma_framed_prefix_unique(tail, v1, v2);
    assert(r1[r1.len() - 1] == bytes[r1.len() - 1]);
    assert(r2[r2.len() - 1] == bytes[r2.len() - 1]);
}

/// A record followed by anything is read back as that record.
pub proof fn lemma_record_roundtrip(key: Seq<char>, value: Seq<u8>, update: bool, rest: Seq<u8>)
    requires
        (record_bytes(key, value, update) + rest).len() <= u64::MAX,
    ensures
        has_record(record_bytes(key, value, update) + rest),
        first_record(record_bytes(key, value, update) + rest) == (key, value, update),
{
    let bytes = record_bytes(key, value, update) + rest;
    assert(bytes.subrange(0, record_bytes(key, value, update).len() as int) =~= record_bytes(
        key,
        value,
        update,
    ));
    assert(starts_with_record(bytes, key, value, update));
    let (k, v, u) = first_record(bytes);
    lemma_record_prefix_unique(bytes, k, v, u, key, value, update);
}

/// Where a record stands at the start, it is the first record.
pub proof fn lemma_first_record_is(bytes: Seq<u8>, key: Seq<char>, value: Seq<u8>, update: bool)
    requires
        bytes.len() <= u64::MAX,
        starts_with_record(bytes, key, value, update),
    ensures
        has_record(bytes),
        first_record(bytes) == (key, value, update),
{
    let (k, v, u) = first_record(bytes);
    lemma_record_prefix_unique(bytes, k, v, u, key, value, update);
}

/// Encodes a record with `bincode::serialize`, applied to the tuple of the
/// key, the value and the flag, whose encoding is that of the record struct.
/// Claimed: the result is always `Some` and holds the record's bytes as the
/// module documentation gives them (bincode 1.3's default options: fixed-width
/// little-endian integers, `u64` lengths, strings as their UTF-8 bytes,
/// `bool` as one byte).
#[verifier::external_body]
pub(crate) fn encode_record(key: &str, value: &[u8], update: bool) -> (res: Option<Vec<u8>>)
    ensures
        res is Some,
        res.unwrap()@ == record_bytes(key@, value@, update),
{
    bincode::serialize(&(key, value, update)).ok()
}

/// Decodes a record with `bincode::deserialize` into a key, a value and a
/// flag. Claimed: it succeeds exactly when the bytes begin with a record as
/// the module documentation gives it (trailing bytes are allowed, the key must
/// be UTF-8, the flag byte 0 or 1), and then returns that record's fields.
#[verifier::external_body]
pub(crate) fn decode_record(bytes: &[u8]) -> (res: Option<(String, Vec<u8>, bool)>)
    ensures
        res is Some <==> has_record(bytes@),
        res matches Some((k, v, u)) ==> starts_with_record(bytes@, k@, v@, u),
{
    bincode::deserialize::<(String, Vec<u8>, bool)>(bytes).ok()
}

/// The encoded size of a record, by `bincode::serialized_size`. Claimed: it
/// is always `Some`, holding the length of the record's bytes.
#[verifier::external_body]
pub(crate) fn record_size(key: &str, value: &[u8], update: bool) -> (res: Option<u64>)
    ensures
        res == Some(record_bytes(key@, value@, update).len() as u64),
{
    bincode::serialized_size(&(key, value, update)).ok()
}

} // verus!
