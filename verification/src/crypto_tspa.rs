//! Hashes and share encryption of TSPA.

use vstd::prelude::*;

use aes::Aes256;
use ctr::cipher::{KeyIvInit, StreamCipher};
use ctr::Ctr128BE;

use crate::bytes::{append_bytes, copy_bytes};
use crate::crypto::{blake3_hash, blake3_wide, hash_in_domain, hash_wide, in_domain};
use crate::group::{multiply_point, point_decodes, point_from_uniform, point_mul, uniform_point};
use crate::messages::Key;
use crate::scalar::scalar_value;

verus! {

/// 32 bytes under the key stream of AES-256 in counter mode.
pub uninterp spec fn aes_ctr(key: Seq<u8>, iv: Seq<u8>, block: Seq<u8>) -> Seq<u8>;

/// `Ctr128BE<Aes256>`: the key stream combined with 32 bytes by exclusive or. Applied
/// to its result it gives the bytes back.
#[verifier::external_body]
pub(crate) fn apply_key_stream(key: &Key, iv: &[u8; 16], block: &Key) -> (result: Key)
    ensures
        result@ == aes_ctr(key@, iv@, block@),
        aes_ctr(key@, iv@, result@) == block@,
{
    let mut buffer = *block;
    Ctr128BE::<Aes256>::new(key.into(), iv.into()).apply_keystream(&mut buffer);
    buffer
}

/// Encrypts or decrypts 32 bytes.
pub fn aes256ctr_xor_32(key: &Key, iv: &[u8; 16], block: &Key) -> (result: Key)
    ensures
        result@ == aes_ctr(key@, iv@, block@),
        aes_ctr(key@, iv@, result@) == block@,
{
    apply_key_stream(key, iv, block)
}

/// The address of a user's record for a login server.
pub open spec fn storage_address(uid: Seq<u8>, ls: Seq<u8>) -> Seq<u8> {
    blake3_hash(in_domain("tspa/storuid/v1"@, uid + ls))
}

/// The address of a user's record for a login server.
pub fn hash_storuid(uid: &[u8], ls: &[u8]) -> (address: Key)
    ensures
        address@ == storage_address(uid@, ls@),
{
    hash_in_domain("tspa/storuid/v1", uid, ls)
}

/// The verifier that a login server keeps for a secret.
pub open spec fn tspa_vinfo(secret: Seq<u8>, ls: Seq<u8>) -> Seq<u8> {
    blake3_hash(in_domain("tspa/vinfo/v1"@, secret + ls))
}

/// The verifier that a login server keeps for a secret.
pub fn hash_vinfo(secret: &Key, ls: &[u8]) -> (verifier: Key)
    ensures
        verifier@ == tspa_vinfo(secret@, ls@),
{
    hash_in_domain("tspa/vinfo/v1", secret.as_slice(), ls)
}

/// The group element of a password.
pub open spec fn tspa_point(password: Seq<u8>) -> Seq<u8> {
    point_from_uniform(blake3_wide(in_domain("tspa/hash-to-point/v1"@, password)))
}

/// The group element of a password.
pub fn hash_to_point(password: &[u8]) -> (point: Key)
    ensures
        point@ == tspa_point(password@),
        point_decodes(point@),
{
    let mut data = copy_bytes("tspa/hash-to-point/v1".as_bytes());
    append_bytes(&mut data, password);
    uniform_point(&hash_wide(data.as_slice()))
}

/// The key that a password and a group element give.
pub open spec fn tspa_finalized(password: Seq<u8>, point: Seq<u8>) -> Seq<u8> {
    blake3_hash(in_domain("tspa/oprf-finalize/v1"@, password + point))
}

/// The key that a password and a group element give.
pub fn oprf_finalize(password: &[u8], point: &Key) -> (key: Key)
    ensures
        key@ == tspa_finalized(password@, point@),
{
    hash_in_domain("tspa/oprf-finalize/v1", password, point.as_slice())
}

/// The key that a password gives under a provider's OPRF key.
pub open spec fn share_key(password: Seq<u8>, oprf_key: int) -> Seq<u8> {
    tspa_finalized(password, point_mul(tspa_point(password), oprf_key))
}

/// The password's group element times a blinding scalar.
pub fn blind(password: &[u8], r: &Key) -> (blinded: Key)
    ensures
        blinded@ == point_mul(tspa_point(password@), scalar_value(r@)),
        point_decodes(tspa_point(password@)),
        point_decodes(blinded@),
{
    let point = hash_to_point(password);
    match multiply_point(&point, r) {
        Some(product) => product,
        None => {
            assert(false);
            point
        },
    }
}

} // verus!
