//! The canonical byte encoding of the tuples that the protocol binds or signs.
//!
//! Integers are little-endian with their full width, byte strings and text carry
//! their length as a 64-bit integer, and fixed-size arrays stand for themselves.

use vstd::bytes::{
    lemma_auto_spec_u32_to_from_le_bytes, lemma_auto_spec_u64_to_from_le_bytes,
    spec_u32_to_le_bytes, spec_u64_from_le_bytes, spec_u64_to_le_bytes,
};
use vstd::prelude::*;
use vstd::utf8::{decode_utf8, encode_utf8, encode_utf8_decode_utf8};

verus! {

/// A byte string after its length.
pub open spec fn encoded_bytes(bytes: Seq<u8>) -> Seq<u8> {
    spec_u64_to_le_bytes(bytes.len() as u64) + bytes
}

/// A text as the byte string of its UTF-8 encoding.
pub open spec fn encoded_text(text: Seq<char>) -> Seq<u8> {
    encoded_bytes(encode_utf8(text))
}

/// A length that a 64-bit integer holds.
pub open spec fn fits(bytes: Seq<u8>) -> bool {
    bytes.len() <= u64::MAX
}

/// The encoding of a label and two byte strings.
pub open spec fn labelled_pair(label: Seq<char>, first: Seq<u8>, second: Seq<u8>) -> Seq<u8> {
    encoded_text(label) + encoded_bytes(first) + encoded_bytes(second)
}

/// The encoding of a byte string and a number.
pub open spec fn stamped(bytes: Seq<u8>, stamp: u64) -> Seq<u8> {
    encoded_bytes(bytes) + spec_u64_to_le_bytes(stamp)
}

/// `bincode::serialize` on a text and two byte strings: the fields one after the
/// other, each after its length.
#[verifier::external_body]
pub(crate) fn serialize_labelled_pair(label: &str, first: &[u8], second: &[u8]) -> (bytes: Vec<u8>)
    ensures
        bytes@ == labelled_pair(label@, first@, second@),
{
    bincode::serialize(&(label, first, second)).unwrap()
}

/// `bincode::serialize` on a byte string and a 64-bit integer: the byte string after
/// its length, then the integer in little-endian order.
#[verifier::external_body]
pub(crate) fn serialize_stamped(bytes: &Vec<u8>, stamp: u64) -> (encoded: Vec<u8>)
    ensures
        encoded@ == stamped(bytes@, stamp),
{
    bincode::serialize(&(bytes, stamp)).unwrap()
}

/// `bincode::serialize` on the fields that a password update binds, in this order:
/// text and byte strings after their length, integers in little-endian order, arrays
/// as they are.
#[verifier::external_body]
pub(crate) fn serialize_update(
    operation: &String,
    sid: [u8; 16],
    uid: &Vec<u8>,
    provider_id: u32,
    timestamps: (u64, u64),
    cid: &Vec<u8>,
    share: [u8; 32],
) -> (encoded: Vec<u8>)
    ensures
        encoded@ == encoded_text(operation@) + sid@ + encoded_bytes(uid@) + spec_u32_to_le_bytes(
            provider_id,
        ) + spec_u64_to_le_bytes(timestamps.0) + spec_u64_to_le_bytes(timestamps.1)
            + encoded_bytes(cid@) + share@,
{
    let (old, new) = timestamps;
    bincode::serialize(&(operation, sid, uid, provider_id, old, new, cid, share)).unwrap()
}

/// What comes after a length-prefixed byte string does not change where it ends.
pub proof fn lemma_encoded_bytes_prefix(a: Seq<u8>, x: Seq<u8>, b: Seq<u8>, y: Seq<u8>)
    requires
        fits(a),
        fits(b),
        encoded_bytes(a) + x == encoded_bytes(b) + y,
    ensures
        a == b,
        x == y,
{
    lemma_auto_spec_u64_to_from_le_bytes();
    let left = encoded_bytes(a) + x;
    let right = encoded_bytes(b) + y;
    let na = spec_u64_to_le_bytes(a.len() as u64);
    let nb = spec_u64_to_le_bytes(b.len() as u64);
    assert(left.subrange(0, 8) =~= na);
    assert(right.subrange(0, 8) =~= nb);
    assert(spec_u64_from_le_bytes(na) == spec_u64_from_le_bytes(nb));
    assert(a.len() == b.len());
    assert(left.subrange(8, 8 + a.len() as int) =~= a);
    assert(right.subrange(8, 8 + b.len() as int) =~= b);
    assert(left.subrange(8 + a.len() as int, left.len() as int) =~= x);
    assert(right.subrange(8 + b.len() as int, right.len() as int) =~= y);
}

/// A text is determined by its encoding.
pub proof fn lemma_encoded_text_prefix(a: Seq<char>, x: Seq<u8>, b: Seq<char>, y: Seq<u8>)
    requires
        fits(encode_utf8(a)),
        fits(encode_utf8(b)),
        encoded_text(a) + x == encoded_text(b) + y,
    ensures
        a == b,
        x == y,
{
    lemma_encoded_bytes_prefix(encode_utf8(a), x, encode_utf8(b), y);
    encode_utf8_decode_utf8(a);
    encode_utf8_decode_utf8(b);
    assert(decode_utf8(encode_utf8(a)) == decode_utf8(encode_utf8(b)));
}

/// A prefix of fixed length is determined by the whole.
pub proof fn lemma_fixed_prefix(a: Seq<u8>, x: Seq<u8>, b: Seq<u8>, y: Seq<u8>)
    requires
        a.len() == b.len(),
        a + x == b + y,
    ensures
        a == b,
        x == y,
{
    let left = a + x;
    let right = b + y;
    assert(left.subrange(0, a.len() as int) =~= a);
    assert(right.subrange(0, a.len() as int) =~= b);
    assert(left.subrange(a.len() as int, left.len() as int) =~= x);
    assert(right.subrange(a.len() as int, right.len() as int) =~= y);
}

/// A number of 32 bits is determined by its encoding.
pub proof fn lemma_u32_injective(a: u32, b: u32)
    requires
        spec_u32_to_le_bytes(a) == spec_u32_to_le_bytes(b),
    ensures
        a == b,
{
    lemma_auto_spec_u32_to_from_le_bytes();
    assert(spec_u32_to_le_bytes(a).len() == 4 && spec_u32_to_le_bytes(b).len() == 4);
}

/// A number of 64 bits is determined by its encoding.
pub proof fn lemma_u64_injective(a: u64, b: u64)
    requires
        spec_u64_to_le_bytes(a) == spec_u64_to_le_bytes(b),
    ensures
        a == b,
{
    lemma_auto_spec_u64_to_from_le_bytes();
}

/// The encoding of a byte string and a number determines both.
pub proof fn law_stamped_is_injective(a: Seq<u8>, s: u64, b: Seq<u8>, t: u64)
    requires
        fits(a),
        fits(b),
    ensures
        stamped(a, s) == stamped(b, t) <==> a == b && s == t,
{
    if stamped(a, s) == stamped(b, t) {
        lemma_encoded_bytes_prefix(a, spec_u64_to_le_bytes(s), b, spec_u64_to_le_bytes(t));
        lemma_u64_injective(s, t);
    }
}

} // verus!
