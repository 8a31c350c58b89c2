//! Hashes, authenticated encryption and the threshold oblivious PRF of UpSPA.

use vstd::prelude::*;

use chacha20poly1305::{AeadInPlace, KeyInit, XChaCha20Poly1305};
use vstd::bytes::{spec_u32_to_le_bytes, u32_to_le_bytes};
use vstd::utf8::encode_utf8;

use crate::bytes::{append_bytes, copy_bytes, slice_of, to_array};
use crate::group::{
    all_decode, combination, combine_points, encodings, multiples_of, multiply_point, point_decodes,
    point_from_uniform, point_mul, products, uniform_point,
};
use crate::interpolation::{
    congruent, evaluate, interpolate, inverse, law_interpolation_recovers_the_constant,
    lemma_congruent_mul, lemma_congruent_trans, lemma_inverse, lemma_inverse_unique, lemma_residue,
    lemma_same_residue, lemma_total_congruent, order, separated, total, weight, weighted,
};
use crate::messages::{message, Key};
use crate::random::{rand_bytes, Rng, RngModel};
use crate::scalar::{
    eval_poly, id_values, is_canonical, le_value, lemma_canonical_residue, scalar_from_u64,
    scalar_inverse, scalar_value, scalar_values,
};

verus! {

/// The BLAKE3 hash of a byte string.
pub uninterp spec fn blake3_hash(data: Seq<u8>) -> Seq<u8>;

/// The first 64 bytes of the extended BLAKE3 output of a byte string.
pub uninterp spec fn blake3_wide(data: Seq<u8>) -> Seq<u8>;

/// `blake3::hash`: 32 bytes that the data determine.
#[verifier::external_body]
pub(crate) fn hash_bytes(data: &[u8]) -> (hash: Key)
    ensures
        hash@ == blake3_hash(data@),
{
    *blake3::hash(data).as_bytes()
}

/// The extended output of a BLAKE3 hasher: `Hasher::finalize_xof`, 64 bytes of it.
#[verifier::external_body]
pub(crate) fn hash_wide(data: &[u8]) -> (hash: [u8; 64])
    ensures
        hash@ == blake3_wide(data@),
{
    let mut hash = [0u8; 64];
    blake3::Hasher::new().update(data).finalize_xof().fill(&mut hash);
    hash
}

/// The input of a hash with a domain: the domain's name, then the data.
pub open spec fn in_domain(domain: Seq<char>, data: Seq<u8>) -> Seq<u8> {
    encode_utf8(domain) + data
}

/// The hash of two byte strings in a domain.
pub fn hash_in_domain(domain: &str, first: &[u8], second: &[u8]) -> (hash: Key)
    ensures
        hash@ == blake3_hash(in_domain(domain@, first@ + second@)),
{
    let mut data = copy_bytes(domain.as_bytes());
    append_bytes(&mut data, first);
    append_bytes(&mut data, second);
    assert(data@ =~= in_domain(domain@, first@ + second@));
    hash_bytes(data.as_slice())
}

/// The verifier that a login server keeps for a secret.
pub open spec fn vinfo(secret: Seq<u8>, ls: Seq<u8>) -> Seq<u8> {
    blake3_hash(in_domain("upspa/vinfo/v1"@, secret + ls))
}

/// The verifier that a login server keeps for a secret.
pub fn hash_vinfo(secret: &Key, ls: &[u8]) -> (verifier: Key)
    ensures
        verifier@ == vinfo(secret@, ls@),
{
    hash_in_domain("upspa/vinfo/v1", secret.as_slice(), ls)
}

/// The address of an account at one provider.
pub open spec fn account_address(rsp: Seq<u8>, ls: Seq<u8>, id: u32) -> Seq<u8> {
    blake3_hash(in_domain("upspa/suid/v1"@, rsp + ls + spec_u32_to_le_bytes(id)))
}

/// The address of an account at one provider.
pub fn hash_upspa_suid(rsp: &Key, ls: &[u8], id: u32) -> (suid: Key)
    ensures
        suid@ == account_address(rsp@, ls@, id),
{
    let mut place = copy_bytes(rsp.as_slice());
    append_bytes(&mut place, ls);
    let index = u32_to_le_bytes(id);
    hash_in_domain("upspa/suid/v1", place.as_slice(), index.as_slice())
}

/// The group element of a password.
pub open spec fn password_point(password: Seq<u8>) -> Seq<u8> {
    point_from_uniform(blake3_wide(in_domain("upspa/hash-to-point/v1"@, password)))
}

/// The group element of a password.
pub fn hash_to_point(password: &[u8]) -> (point: Key)
    ensures
        point@ == password_point(password@),
        point_decodes(point@),
{
    let mut data = copy_bytes("upspa/hash-to-point/v1".as_bytes());
    append_bytes(&mut data, password);
    uniform_point(&hash_wide(data.as_slice()))
}

/// The key that a password and a group element give.
pub open spec fn finalized(password: Seq<u8>, point: Seq<u8>) -> Seq<u8> {
    blake3_hash(in_domain("upspa/oprf-finalize/v1"@, password + point))
}

/// The key that a password and a group element give.
pub fn oprf_finalize(password: &[u8], point: &Key) -> (key: Key)
    ensures
        key@ == finalized(password@, point@),
{
    hash_in_domain("upspa/oprf-finalize/v1", password, point.as_slice())
}

/// The key that a password gives under a PRF key.
pub open spec fn password_key(password: Seq<u8>, prf_key: int) -> Seq<u8> {
    finalized(password, point_mul(password_point(password), prf_key))
}

/// The key that a password gives under a PRF key.
pub fn evaluate_password(password: &[u8], prf_key: &Key) -> (key: Key)
    ensures
        key@ == password_key(password@, scalar_value(prf_key@)),
{
    let point = hash_to_point(password);
    match multiply_point(&point, prf_key) {
        Some(product) => oprf_finalize(password, &product),
        None => {
            assert(false);
            point
        },
    }
}

/// The password's group element times a blinding scalar.
pub fn blind(password: &[u8], r: &Key) -> (blinded: Key)
    ensures
        blinded@ == point_mul(password_point(password@), scalar_value(r@)),
        point_decodes(password_point(password@)),
        point_decodes(blinded@),
{
    let point = hash_to_point(password);
    match multiply_point(&point, r) {
        Some(product) => product,
        None => {
            assert(false);
            point
        },
    }
}

/// The scalar that takes a blinding off again. For a zero blinding it is zero.
pub fn unblinding(r: &Key) -> (inverted: Key)
    ensures
        is_canonical(inverted@),
        scalar_value(inverted@) == inverse(scalar_value(r@)) % order(),
        scalar_value(r@) != 0 ==> congruent(scalar_value(r@) * scalar_value(inverted@), 1),
{
    let inverted = scalar_inverse(r);
    let ghost rv = scalar_value(r@);
    proof {
        let e = le_value(inverted@) as int;
        lemma_canonical_residue(inverted@);
        lemma_residue(le_value(r@) as int);
        lemma_residue(rv);
        vstd::arithmetic::div_mod::lemma_small_mod(rv as nat, order() as nat);
        if rv != 0 {
            assert(congruent(e, e));
            lemma_congruent_mul(rv, le_value(r@) as int, e, e);
            lemma_congruent_trans(rv * e, le_value(r@) as int * e, 1);
            lemma_inverse(rv);
            lemma_inverse_unique(rv, e, inverse(rv));
            lemma_same_residue(e, inverse(rv));
        } else {
            assert(inverse(rv) == 0);
        }
        assert(scalar_value(inverted@) == inverse(rv) % order());
    }
    inverted
}

/// The points are the blinded password point times these shares.
pub open spec fn partials_of(
    points: Seq<Seq<u8>>,
    password: Seq<u8>,
    r: int,
    shares: Seq<int>,
) -> bool {
    multiples_of(
        points,
        password_point(password),
        Seq::new(shares.len(), |i: int| (r * shares[i]) % order()),
    )
}

/// The key from blinded partial evaluations: their weighted sum, unblinded. Partial
/// evaluations under shares give the key under the weighted sum of the shares.
pub fn toprf_client_eval_from_partials(
    password: &[u8],
    r: &Key,
    points: &[Key],
    lambdas: &[Key],
) -> (key: Option<Key>)
    requires
        1 <= points@.len() == lambdas@.len(),
    ensures
        key is Some == all_decode(encodings(points@)),
        key matches Some(k) ==> k@ == finalized(
            password@,
            point_mul(
                combination(encodings(points@), scalar_values(lambdas@)),
                inverse(scalar_value(r@)) % order(),
            ),
        ),
        key matches Some(k) ==> scalar_value(r@) != 0 ==> forall|shares: Seq<int>|
            #[trigger] partials_of(encodings(points@), password@, scalar_value(r@), shares)
                ==> k@ == password_key(
                password@,
                total(products(shares, scalar_values(lambdas@))) % order(),
            ),
{
    let combined = match combine_points(points, lambdas) {
        Some(combined) => combined,
        None => {
            return None;
        },
    };
    let inverted = unblinding(r);
    let ghost rv = scalar_value(r@);
    let unblinded = match multiply_point(&combined, &inverted) {
        Some(point) => point,
        None => {
            assert(false);
            combined
        },
    };
    proof {
        if rv != 0 {
            let ps = encodings(points@);
            let ls = scalar_values(lambdas@);
            assert forall|shares: Seq<int>| #[trigger]
                partials_of(ps, password@, rv, shares) implies unblinded@ == point_mul(
                password_point(password@),
                total(products(shares, ls)) % order(),
            ) by {
                let xs = Seq::new(shares.len(), |i: int| (rv * shares[i]) % order());
                let base = password_point(password@);
                assert(multiples_of(ps, base, xs));
                let t = total(products(xs, ls));
                lemma_residue(t);
                assert(combined@ == point_mul(base, t % order()));
                lemma_unblind(shares, ls, xs, rv, scalar_value(inverted@));
            }
        }
    }
    Some(oprf_finalize(password, &unblinded))
}

/// Multiplying the blinded shares' sum by the inverse of the blinding leaves the sum.
proof fn lemma_unblind(shares: Seq<int>, lambdas: Seq<int>, xs: Seq<int>, r: int, e: int)
    requires
        shares.len() == lambdas.len() == xs.len(),
        forall|i: int| 0 <= i < xs.len() ==> #[trigger] xs[i] == (r * shares[i]) % order(),
        congruent(r * e, 1),
    ensures
        ((total(products(xs, lambdas)) % order()) * e) % order() == total(
            products(shares, lambdas),
        ) % order(),
{
    let a = products(xs, lambdas);
    let b = products(shares, lambdas);
    let scaled = Seq::new(b.len(), |i: int| r * b[i]);
    assert forall|i: int| 0 <= i < a.len() implies congruent(#[trigger] a[i], scaled[i]) by {
        lemma_residue(r * shares[i]);
        assert(xs[i] == (r * shares[i]) % order());
        assert(congruent(lambdas[i], lambdas[i]));
        lemma_congruent_mul(xs[i], r * shares[i], lambdas[i], lambdas[i]);
        assert(r * shares[i] * lambdas[i] == r * (shares[i] * lambdas[i])) by (nonlinear_arith);
    }
    lemma_total_congruent(a, scaled);
    crate::interpolation::lemma_total_scale(b, r, scaled);
    let t = total(a);
    let s = total(b);
    lemma_residue(t);
    lemma_congruent_trans(t % order(), t, r * s);
    assert(congruent(e, e));
    lemma_congruent_mul(t % order(), r * s, e, e);
    assert((r * s) * e == (r * e) * s) by (nonlinear_arith);
    assert(congruent(s, s));
    lemma_congruent_mul(r * e, 1, s, s);
    lemma_congruent_trans((t % order()) * e, (r * e) * s, 1 * s);
    lemma_same_residue((t % order()) * e, s);
}

/// The share of a provider: the polynomial's value at its identifier.
pub open spec fn share_value(coefficients: Seq<int>, id: int) -> int {
    evaluate(coefficients, id) % order()
}

/// One share for each of the providers `1..=n`.
pub fn toprf_shares(coefficients: &[Key], n: usize) -> (shares: Vec<(u32, Key)>)
    requires
        n <= u32::MAX,
    ensures
        shares@.len() == n,
        forall|i: int| 0 <= i < n ==> (#[trigger] shares@[i]).0 == i + 1,
        forall|i: int|
            0 <= i < n ==> is_canonical((#[trigger] shares@[i]).1@) && le_value(shares@[i].1@)
                == share_value(scalar_values(coefficients@), i + 1),
{
    let mut shares: Vec<(u32, Key)> = Vec::new();
    let mut i: usize = 0;
    while i < n
        invariant
            i <= n <= u32::MAX,
            shares@.len() == i,
            forall|k: int| 0 <= k < i ==> (#[trigger] shares@[k]).0 == k + 1,
            forall|k: int|
                0 <= k < i ==> is_canonical((#[trigger] shares@[k]).1@) && le_value(
                    shares@[k].1@,
                ) == share_value(scalar_values(coefficients@), k + 1),
        decreases n - i,
    {
        let id: u32 = (i + 1) as u32;
        let x = scalar_from_u64(id as u64);
        proof {
            vstd::arithmetic::div_mod::lemma_small_mod(le_value(x@), order() as nat);
        }
        shares.push((id, eval_poly(coefficients, &x)));
        i += 1;
    }
    shares
}

/// Shares of any providers, as many as the polynomial has coefficients or more, sum up
/// to the constant coefficient under their Lagrange weights.
pub proof fn law_shares_recover_the_key(
    coefficients: Seq<int>,
    ids: Seq<u32>,
    shares: Seq<int>,
    lambdas: Seq<int>,
)
    requires
        1 <= coefficients.len() <= ids.len(),
        separated(id_values(ids)),
        shares.len() == ids.len(),
        lambdas.len() == ids.len(),
        forall|i: int| 0 <= i < ids.len() ==> #[trigger] shares[i] == share_value(coefficients, ids[i] as int),
        forall|i: int|
            0 <= i < ids.len() ==> #[trigger] lambdas[i] == weight(
                id_values(ids)[i],
                id_values(ids).remove(i),
            ) % order(),
    ensures
        total(products(shares, lambdas)) % order() == coefficients[0] % order(),
{
    let xs = id_values(ids);
    assert forall|i: int| 0 <= i < xs.len() implies congruent(
        #[trigger] shares[i],
        evaluate(coefficients, xs[i]),
    ) by {
        lemma_residue(evaluate(coefficients, ids[i] as int));
    }
    law_interpolation_recovers_the_constant(xs, coefficients, shares);
    let a = products(shares, lambdas);
    let b = weighted(xs, shares);
    assert forall|i: int| 0 <= i < a.len() implies congruent(#[trigger] a[i], b[i]) by {
        let w = weight(xs[i], xs.remove(i));
        lemma_residue(w);
        assert(congruent(shares[i], shares[i]));
        lemma_congruent_mul(lambdas[i], w, shares[i], shares[i]);
        assert(shares[i] * lambdas[i] == lambdas[i] * shares[i]) by (nonlinear_arith);
    }
    lemma_total_congruent(a, b);
    lemma_congruent_trans(total(a), interpolate(xs, shares), coefficients[0]);
    lemma_same_residue(total(a), coefficients[0]);
}

/// A ciphertext with its nonce and authentication tag.
#[derive(Debug)]
pub struct CtBlob<const N: usize> {
    pub nonce: [u8; 24],
    pub ct: [u8; N],
    pub tag: [u8; 16],
}

impl<const N: usize> View for CtBlob<N> {
    type V = Seq<u8>;

    /// The wire form: nonce, ciphertext, tag.
    open spec fn view(&self) -> Seq<u8> {
        self.nonce@ + self.ct@ + self.tag@
    }
}

impl<const N: usize> CtBlob<N> {
    /// The wire form: nonce, ciphertext, tag.
    pub fn encode(&self) -> (bytes: Vec<u8>)
        ensures
            bytes@ == self@,
            bytes@.len() == 40 + N,
    {
        let mut bytes = copy_bytes(self.nonce.as_slice());
        append_bytes(&mut bytes, self.ct.as_slice());
        append_bytes(&mut bytes, self.tag.as_slice());
        bytes
    }
}

/// The wire form of a ciphertext of `n` bytes, or nothing if the length is wrong.
pub open spec fn is_blob(bytes: Seq<u8>, n: int) -> bool {
    bytes.len() == 24 + n + 16
}

/// Splits the wire form of a ciphertext.
pub fn split_blob<const N: usize>(bytes: &[u8]) -> (blob: CtBlob<N>)
    requires
        is_blob(bytes@, N as int),
    ensures
        blob@ == bytes@,
{
    let blob = CtBlob {
        nonce: to_array(slice_of(bytes, 0, 24)),
        ct: to_array(slice_of(bytes, 24, bytes.len() - 16)),
        tag: to_array(slice_of(bytes, bytes.len() - 16, bytes.len())),
    };
    assert(blob@ =~= bytes@);
    blob
}

/// What XChaCha20-Poly1305 encryption gives: the ciphertext and the tag.
pub uninterp spec fn xchacha_seal(key: Seq<u8>, nonce: Seq<u8>, aad: Seq<u8>, plaintext: Seq<u8>) -> (Seq<u8>, Seq<u8>);

/// What XChaCha20-Poly1305 decryption gives: the plaintext of an authentic ciphertext.
pub uninterp spec fn xchacha_open(key: Seq<u8>, nonce: Seq<u8>, aad: Seq<u8>, ciphertext: Seq<u8>, tag: Seq<u8>) -> Option<Seq<u8>>;

/// The cipher refuses plaintexts of this many bytes and more.
pub open spec fn plaintext_limit() -> int {
    64 * 0xffff_ffffint
}

/// `XChaCha20Poly1305::encrypt_in_place_detached`. The ciphertext is as long as the
/// plaintext, and decryption under the same key, nonce and associated data gives the
/// plaintext back.
#[verifier::external_body]
pub(crate) fn seal<const N: usize>(
    key: &Key,
    nonce: &[u8; 24],
    aad: &[u8],
    plaintext: &[u8; N],
) -> (sealed: ([u8; N], [u8; 16]))
    requires
        N < plaintext_limit(),
    ensures
        (sealed.0@, sealed.1@) == xchacha_seal(key@, nonce@, aad@, plaintext@),
        xchacha_open(key@, nonce@, aad@, sealed.0@, sealed.1@) == Some(plaintext@),
{
    let mut buffer = *plaintext;
    let cipher = XChaCha20Poly1305::new(key.into());
    let tag = cipher.encrypt_in_place_detached(nonce.into(), aad, &mut buffer).unwrap();
    (buffer, tag.into())
}

/// `XChaCha20Poly1305::decrypt_in_place_detached`. A plaintext is as long as its
/// ciphertext.
#[verifier::external_body]
pub(crate) fn open<const N: usize>(
    key: &Key,
    nonce: &[u8; 24],
    aad: &[u8],
    ciphertext: &[u8; N],
    tag: &[u8; 16],
) -> (plaintext: Option<[u8; N]>)
    ensures
        plaintext matches Some(p) ==> xchacha_open(key@, nonce@, aad@, ciphertext@, tag@) == Some(p@),
        plaintext is None ==> xchacha_open(key@, nonce@, aad@, ciphertext@, tag@) is None,
{
    let mut buffer = *ciphertext;
    let cipher = XChaCha20Poly1305::new(key.into());
    cipher.decrypt_in_place_detached(nonce.into(), aad, &mut buffer, tag.into()).ok()?;
    Some(buffer)
}

/// The plaintext of the wire form of a ciphertext.
pub open spec fn opened(key: Seq<u8>, aad: Seq<u8>, blob: Seq<u8>) -> Option<Seq<u8>> {
    xchacha_open(
        key,
        blob.subrange(0, 24),
        aad,
        blob.subrange(24, blob.len() - 16),
        blob.subrange(blob.len() - 16, blob.len() as int),
    )
}

/// The wire form of the ciphertext of a plaintext.
pub open spec fn sealed_blob(
    key: Seq<u8>,
    nonce: Seq<u8>,
    aad: Seq<u8>,
    plaintext: Seq<u8>,
) -> Seq<u8> {
    nonce + xchacha_seal(key, nonce, aad, plaintext).0 + xchacha_seal(key, nonce, aad, plaintext).1
}

/// Encrypts under a given nonce. What is encrypted can be decrypted.
pub fn xchacha_encrypt_with_nonce<const N: usize>(
    key: &Key,
    nonce: &[u8; 24],
    aad: &[u8],
    plaintext: &[u8; N],
) -> (blob: CtBlob<N>)
    requires
        N < plaintext_limit(),
    ensures
        blob@ == sealed_blob(key@, nonce@, aad@, plaintext@),
        is_blob(blob@, N as int),
        opened(key@, aad@, blob@) == Some(plaintext@),
{
    let (ct, tag) = seal(key, nonce, aad, plaintext);
    let blob = CtBlob { nonce: *nonce, ct, tag };
    proof {
        lemma_blob_parts(blob);
    }
    blob
}

proof fn lemma_blob_parts<const N: usize>(blob: CtBlob<N>)
    ensures
        is_blob(blob@, N as int),
        blob@.subrange(0, 24) == blob.nonce@,
        blob@.subrange(24, blob@.len() - 16) == blob.ct@,
        blob@.subrange(blob@.len() - 16, blob@.len() as int) == blob.tag@,
{
    assert(blob@.subrange(0, 24) =~= blob.nonce@);
    assert(blob@.subrange(24, blob@.len() - 16) =~= blob.ct@);
    assert(blob@.subrange(blob@.len() - 16, blob@.len() as int) =~= blob.tag@);
}

/// A ciphertext under a nonce from the generator, and the generator behind the nonce.
pub open spec fn freshly_sealed(
    key: Seq<u8>,
    rng: RngModel,
    aad: Seq<u8>,
    plaintext: Seq<u8>,
) -> (Seq<u8>, RngModel) {
    (sealed_blob(key, rng.bytes(24), aad, plaintext), rng.after(24))
}

/// Encrypts under a nonce that is drawn. What is encrypted can be decrypted.
pub fn xchacha_encrypt_detached<const N: usize>(
    key: &Key,
    aad: &[u8],
    plaintext: &[u8; N],
    rng: &mut Rng,
) -> (blob: CtBlob<N>)
    requires
        N < plaintext_limit(),
    ensures
        (blob@, final(rng)@) == freshly_sealed(key@, old(rng)@, aad@, plaintext@),
        is_blob(blob@, N as int),
        opened(key@, aad@, blob@) == Some(plaintext@),
{
    let nonce: [u8; 24] = rand_bytes(rng);
    xchacha_encrypt_with_nonce(key, &nonce, aad, plaintext)
}

/// Decrypts a ciphertext, and fails if it is not authentic.
pub fn xchacha_decrypt_detached<const N: usize>(
    key: &Key,
    aad: &[u8],
    blob: &CtBlob<N>,
) -> (plaintext: Result<[u8; N], String>)
    ensures
        match plaintext {
            Ok(p) => opened(key@, aad@, blob@) == Some(p@),
            Err(e) => opened(key@, aad@, blob@) is None && e@ == "decryption failed"@,
        },
{
    proof {
        lemma_blob_parts(*blob);
    }
    match open(key, &blob.nonce, aad, &blob.ct, &blob.tag) {
        Some(plaintext) => Ok(plaintext),
        None => Err(message("decryption failed")),
    }
}

} // verus!
