//! Ed25519 signatures.

use vstd::prelude::*;

use ed25519_dalek::{Signature, Signer, SigningKey, VerifyingKey};

use crate::messages::Key;

verus! {

/// The verification key of a signing key.
pub uninterp spec fn ed25519_public(signing_key: Seq<u8>) -> Seq<u8>;

/// The signature of a message.
pub uninterp spec fn ed25519_signature(signing_key: Seq<u8>, message: Seq<u8>) -> Seq<u8>;

/// Whether bytes are accepted as a verification key.
pub uninterp spec fn ed25519_key_valid(key: Seq<u8>) -> bool;

/// Whether a signature passes strict verification.
pub uninterp spec fn ed25519_verifies(key: Seq<u8>, message: Seq<u8>, signature: Seq<u8>) -> bool;

/// `SigningKey::verifying_key` on a key made by `SigningKey::from_bytes`. The bytes of a
/// verification key are accepted as one.
#[verifier::external_body]
pub(crate) fn verification_key(signing_key: &Key) -> (key: Key)
    ensures
        key@ == ed25519_public(signing_key@),
        ed25519_key_valid(key@),
{
    SigningKey::from_bytes(signing_key).verifying_key().to_bytes()
}

/// The first half of a signature, its commitment, is the encoding of the identity.
pub open spec fn commits_to_identity(signature: Seq<u8>) -> bool {
    signature.len() == 64 && signature[0] == 1 && forall|i: int|
        1 <= i < 32 ==> #[trigger] signature[i] == 0
}

/// `Signer::sign` on a key made by `SigningKey::from_bytes`. The signature passes strict
/// verification under the key's own verification key, unless its commitment is the
/// identity, which strict verification turns down as an element of small order.
#[verifier::external_body]
pub(crate) fn sign(signing_key: &Key, message: &[u8]) -> (signature: [u8; 64])
    ensures
        signature@ == ed25519_signature(signing_key@, message@),
        commits_to_identity(signature@) || ed25519_verifies(
            ed25519_public(signing_key@),
            message@,
            signature@,
        ),
{
    SigningKey::from_bytes(signing_key).sign(message).to_bytes()
}

/// `VerifyingKey::from_bytes`: whether the bytes are a curve point.
#[verifier::external_body]
pub(crate) fn is_verification_key(key: &Key) -> (valid: bool)
    ensures
        valid == ed25519_key_valid(key@),
{
    VerifyingKey::from_bytes(key).is_ok()
}

/// `VerifyingKey::verify_strict` on a valid key and a signature of 64 bytes.
#[verifier::external_body]
pub(crate) fn verify_strict(key: &Key, message: &[u8], signature: &[u8; 64]) -> (verified: bool)
    requires
        ed25519_key_valid(key@),
    ensures
        verified == ed25519_verifies(key@, message@, signature@),
{
    let verifier = VerifyingKey::from_bytes(key).unwrap();
    verifier.verify_strict(message, &Signature::from_bytes(signature)).is_ok()
}

} // verus!
