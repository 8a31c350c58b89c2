//! TSPA registration, reconstruction of the secret, and the provider's request handling.

use vstd::prelude::*;

use crate::agreement::{provider_ids, votes, Vote};
use crate::bytes::{append_bytes, copy_bytes, slice_of, to_array};
use crate::crypto::{law_shares_recover_the_key, share_value, unblinding};
use crate::crypto_tspa::{
    aes256ctr_xor_32, aes_ctr, hash_storuid, hash_to_point, hash_vinfo, oprf_finalize, share_key,
    storage_address, tspa_finalized, tspa_point, tspa_vinfo,
};
use crate::group::{decode_point, encodings, multiply_point, point_decodes, point_mul, products};
use crate::interpolation::{
    congruent, inverse, lemma_congruent_add, lemma_congruent_mul, lemma_congruent_trans,
    lemma_residue, lemma_same_residue, order, separated, total,
};
use crate::messages::{
    answer, message, Answer, Key, Reply, ReplyModel, Result, TspaRequest, TspaRequestModel,
};
use crate::provider::evaluates;
use crate::random::{encoded_scalars, rand_bytes, random_scalars, Rng, RngModel};
use crate::scalar::{
    eval_poly, id_values, id_weights, is_canonical, lagrange_coeffs_at_zero, le_value,
    lemma_canonical_residue, lemma_le_bytes, scalar_bytes, scalar_from_u64, scalar_is_canonical,
    scalar_product, scalar_sum, scalar_value, scalar_values, scalar_zero, values_of,
};
use crate::sp::{TspaProvider, TspaProviderModel};

verus! {

/// What a registration hands to the providers and to the login server.
pub struct RegistrationData {
    pub stor_uid: Key,
    pub verifier: Key,
    pub keys: Vec<Key>,
    pub ciphertexts: Vec<[u8; 48]>,
}

/// Model of [`RegistrationData`].
pub struct RegistrationModel {
    pub stor_uid: Seq<u8>,
    pub verifier: Seq<u8>,
    pub keys: Seq<Seq<u8>>,
    pub ciphertexts: Seq<Seq<u8>>,
}

impl View for RegistrationData {
    type V = RegistrationModel;

    open spec fn view(&self) -> RegistrationModel {
        RegistrationModel {
            stor_uid: self.stor_uid@,
            verifier: self.verifier@,
            keys: encodings(self.keys@),
            ciphertexts: self.ciphertexts@.map_values(|c: [u8; 48]| c@),
        }
    }
}

/// The ciphertext of a provider's share: the initialization vector, then the share's
/// bytes encrypted under the key that the password gives with the provider's OPRF key.
pub open spec fn share_ciphertext(
    password: Seq<u8>,
    coefficients: Seq<int>,
    oprf_key: int,
    iv: Seq<u8>,
    id: int,
) -> Seq<u8> {
    iv + aes_ctr(
        share_key(password, oprf_key),
        iv,
        scalar_bytes(share_value(coefficients, id)),
    )
}

/// The randomness of a registration: the polynomial's coefficients, and an OPRF key and an
/// initialization vector for each provider.
pub struct RegistrationRandomness {
    pub coeffs: Vec<Key>,
    pub keys: Vec<Key>,
    pub ivs: Vec<[u8; 16]>,
}

/// Model of [`RegistrationRandomness`].
pub struct RegistrationDraw {
    pub coeffs: Seq<Seq<u8>>,
    pub keys: Seq<Seq<u8>>,
    pub ivs: Seq<Seq<u8>>,
}

/// Model of a list of initialization vectors.
pub open spec fn vectors(ivs: Seq<[u8; 16]>) -> Seq<Seq<u8>> {
    Seq::new(ivs.len(), |i: int| ivs[i]@)
}

impl View for RegistrationRandomness {
    type V = RegistrationDraw;

    open spec fn view(&self) -> RegistrationDraw {
        RegistrationDraw {
            coeffs: encodings(self.coeffs@),
            keys: encodings(self.keys@),
            ivs: vectors(self.ivs@),
        }
    }
}

/// What a registration hands out, given its randomness: one share for each pair of an
/// OPRF key and an initialization vector.
pub open spec fn registration_of(
    uid: Seq<u8>,
    ls: Seq<u8>,
    password: Seq<u8>,
    draw: RegistrationDraw,
) -> RegistrationModel {
    let keys = draw.keys;
    let ivs = draw.ivs;
    RegistrationModel {
        stor_uid: storage_address(uid, ls),
        verifier: tspa_vinfo(draw.coeffs[0], ls),
        keys,
        ciphertexts: Seq::new(
            if keys.len() <= ivs.len() {
                keys.len()
            } else {
                ivs.len()
            },
            |i: int|
                share_ciphertext(
                    password,
                    values_of(draw.coeffs),
                    scalar_value(keys[i]),
                    ivs[i],
                    i + 1,
                ),
        ),
    }
}

/// A ciphertext that decrypts to a share under the key that the password gives with an
/// OPRF key.
pub open spec fn holds_share(
    ciphertext: Seq<u8>,
    password: Seq<u8>,
    oprf_key: int,
    share: int,
) -> bool {
    &&& ciphertext.len() == 48
    &&& scalar_value(
        aes_ctr(
            share_key(password, oprf_key),
            ciphertext.subrange(0, 16),
            ciphertext.subrange(16, 48),
        ),
    ) == share
}

/// Encrypts the share of one provider.
fn encrypt_share(
    password: &[u8],
    coefficients: &[Key],
    oprf_key: &Key,
    iv: &[u8; 16],
    id: u64,
) -> (ciphertext: [u8; 48])
    ensures
        ciphertext@ == share_ciphertext(
            password@,
            scalar_values(coefficients@),
            scalar_value(oprf_key@),
            iv@,
            id as int,
        ),
        holds_share(
            ciphertext@,
            password@,
            scalar_value(oprf_key@),
            share_value(scalar_values(coefficients@), id as int),
        ),
{
    let point = hash_to_point(password);
    let evaluated = match multiply_point(&point, oprf_key) {
        Some(evaluated) => evaluated,
        None => {
            assert(false);
            point
        },
    };
    let encryption_key = oprf_finalize(password, &evaluated);
    let x = scalar_from_u64(id);
    proof {
        vstd::arithmetic::div_mod::lemma_small_mod(le_value(x@), order() as nat);
    }
    let share = eval_poly(coefficients, &x);
    proof {
        lemma_le_bytes(share@);
        lemma_canonical_residue(share@);
        lemma_residue(crate::interpolation::evaluate(scalar_values(coefficients@), id as int));
    }
    let encrypted = aes256ctr_xor_32(&encryption_key, iv, &share);
    let mut bytes = copy_bytes(iv.as_slice());
    append_bytes(&mut bytes, encrypted.as_slice());
    proof {
        assert(bytes@.subrange(0, 16) =~= iv@);
        assert(bytes@.subrange(16, 48) =~= encrypted@);
        assert(share@ == scalar_bytes(share_value(scalar_values(coefficients@), id as int)));
    }
    to_array(bytes.as_slice())
}

/// A registration from given randomness. Every ciphertext decrypts to the share of its
/// provider.
pub fn registration_from_randomness(
    uid: &[u8],
    ls: &[u8],
    password: &[u8],
    coeffs: &[Key],
    keys: &[Key],
    ivs: &[[u8; 16]],
) -> (data: RegistrationData)
    requires
        coeffs@.len() >= 1,
    ensures
        ({
            let draw = RegistrationDraw {
                coeffs: encodings(coeffs@),
                keys: encodings(keys@),
                ivs: vectors(ivs@),
            };
            &&& data@ == registration_of(uid@, ls@, password@, draw)
            &&& shares_open(data@, password@, draw)
        }),
{
    let ghost draw = RegistrationDraw {
        coeffs: encodings(coeffs@),
        keys: encodings(keys@),
        ivs: vectors(ivs@),
    };
    let ghost wanted = registration_of(uid@, ls@, password@, draw);
    proof {
        assert(values_of(draw.coeffs) =~= scalar_values(coeffs@));
    }
    let mut ciphertexts: Vec<[u8; 48]> = Vec::new();
    let mut kept: Vec<Key> = Vec::new();
    let mut i: usize = 0;
    while i < keys.len() && i < ivs.len()
        invariant
            i <= keys@.len(),
            i <= ivs@.len(),
            ciphertexts@.len() == i,
            draw == (RegistrationDraw {
                coeffs: encodings(coeffs@),
                keys: encodings(keys@),
                ivs: vectors(ivs@),
            }),
            wanted == registration_of(uid@, ls@, password@, draw),
            values_of(draw.coeffs) == scalar_values(coeffs@),
            forall|k: int|
                #![trigger ciphertexts@[k]]
                0 <= k < i ==> ciphertexts@[k]@ == wanted.ciphertexts[k] && holds_share(
                    ciphertexts@[k]@,
                    password@,
                    scalar_value(draw.keys[k]),
                    share_value(values_of(draw.coeffs), k + 1),
                ),
        decreases keys@.len() - i,
    {
        let id: u64 = i as u64 + 1;
        ciphertexts.push(encrypt_share(password, coeffs, &keys[i], &ivs[i], id));
        i += 1;
    }
    let mut j: usize = 0;
    while j < keys.len()
        invariant
            j <= keys@.len(),
            kept@ == keys@.take(j as int),
        decreases keys@.len() - j,
    {
        kept.push(keys[j]);
        assert(keys@.take(j + 1) =~= keys@.take(j as int).push(keys@[j as int]));
        j += 1;
    }
    assert(keys@.take(j as int) =~= keys@);
    let data = RegistrationData {
        stor_uid: hash_storuid(uid, ls),
        verifier: hash_vinfo(&coeffs[0], ls),
        keys: kept,
        ciphertexts,
    };
    assert(data@.ciphertexts =~= wanted.ciphertexts);
    data
}

/// Every ciphertext of a registration decrypts to the share of its provider.
pub open spec fn shares_open(
    data: RegistrationModel,
    password: Seq<u8>,
    draw: RegistrationDraw,
) -> bool {
    forall|i: int|
        #![trigger data.ciphertexts[i]]
        0 <= i < data.ciphertexts.len() ==> holds_share(
            data.ciphertexts[i],
            password,
            scalar_value(draw.keys[i]),
            share_value(values_of(draw.coeffs), i + 1),
        )
}

/// The randomness that a generator gives for `n` providers and threshold `t`.
pub open spec fn registration_draw(rng: RngModel, n: nat, t: nat) -> RegistrationDraw {
    let keyed = rng.after_scalars(t);
    RegistrationDraw {
        coeffs: encoded_scalars(rng.scalars(t)),
        keys: encoded_scalars(keyed.scalars(n)),
        ivs: keyed.after_scalars(n).pieces(n, 16),
    }
}

/// The generator behind the randomness of a registration.
pub open spec fn after_registration_draw(rng: RngModel, n: nat, t: nat) -> RngModel {
    rng.after_scalars(t).after_scalars(n).after_pieces(n, 16)
}

/// Draws the randomness of a registration with `n` providers and threshold `t`.
pub fn draw_registration(n: usize, t: usize, rng: &mut Rng) -> (random: RegistrationRandomness)
    ensures
        random@ == registration_draw(old(rng)@, n as nat, t as nat),
        random.coeffs@.len() == t,
        final(rng)@ == after_registration_draw(old(rng)@, n as nat, t as nat),
{
    let coeffs = random_scalars(t, rng);
    let keys = random_scalars(n, rng);
    let ghost start = rng@;
    let mut ivs: Vec<[u8; 16]> = Vec::new();
    while ivs.len() < n
        invariant
            ivs@.len() <= n,
            rng@ == start.after_pieces(ivs@.len(), 16),
            forall|i: int|
                0 <= i < ivs@.len() ==> (#[trigger] ivs@[i])@ == start.pieces(n as nat, 16)[i],
        decreases n - ivs@.len(),
    {
        ivs.push(rand_bytes(rng));
    }
    assert(vectors(ivs@) =~= start.pieces(n as nat, 16));
    RegistrationRandomness { coeffs, keys, ivs }
}

/// A registration with `n` providers and threshold `t`.
pub fn registration(
    uid: &[u8],
    ls: &[u8],
    password: &[u8],
    n: usize,
    t: usize,
    rng: &mut Rng,
) -> (data: RegistrationData)
    requires
        t >= 1,
    ensures
        ({
            let draw = registration_draw(old(rng)@, n as nat, t as nat);
            &&& data@ == registration_of(uid@, ls@, password@, draw)
            &&& shares_open(data@, password@, draw)
        }),
        final(rng)@ == after_registration_draw(old(rng)@, n as nat, t as nat),
{
    let random = draw_registration(n, t, rng);
    registration_from_randomness(
        uid,
        ls,
        password,
        random.coeffs.as_slice(),
        random.keys.as_slice(),
        random.ivs.as_slice(),
    )
}

/// What is wrong with a reply.
pub open spec fn reply_fault(reply: ReplyModel) -> Option<Seq<char>> {
    match reply {
        ReplyModel::TspaAuthentication { contribution, ciphertext } => if !point_decodes(
            contribution,
        ) {
            Some("invalid TSPA point"@)
        } else if ciphertext.len() != 48 {
            Some("invalid TSPA ciphertext length"@)
        } else {
            None
        },
        _ => Some("unexpected TSPA response"@),
    }
}

/// The first fault among the replies.
pub open spec fn first_fault(replies: Seq<Vote>) -> Option<Seq<char>>
    decreases replies.len(),
{
    if replies.len() == 0 {
        None
    } else {
        match reply_fault(replies[0].1) {
            Some(fault) => Some(fault),
            None => first_fault(replies.drop_first()),
        }
    }
}

/// The share that a reply gives: unblinding the contribution yields the key that
/// decrypts the ciphertext.
pub open spec fn decrypted_share(password: Seq<u8>, r: int, reply: ReplyModel) -> int {
    let contribution = reply->TspaAuthentication_contribution;
    let ciphertext = reply->TspaAuthentication_ciphertext;
    let key = tspa_finalized(password, point_mul(contribution, inverse(r) % order()));
    scalar_value(aes_ctr(key, ciphertext.subrange(0, 16), ciphertext.subrange(16, 48)))
}

/// The secret that replies interpolate to.
pub open spec fn reconstructed(password: Seq<u8>, r: int, replies: Seq<Vote>) -> int {
    total(
        products(
            Seq::new(replies.len(), |i: int| decrypted_share(password, r, replies[i].1)),
            id_weights(provider_ids(replies)),
        ),
    ) % order()
}

/// The secret that the replies give and its verifier, or what is wrong with the first reply
/// that gives none.
pub open spec fn reconstruction(
    password: Seq<u8>,
    ls: Seq<u8>,
    r: int,
    replies: Seq<Vote>,
) -> std::result::Result<(Seq<u8>, Seq<u8>), Seq<char>> {
    match first_fault(replies) {
        Some(fault) => Err(fault),
        None => {
            let secret = scalar_bytes(reconstructed(password, r, replies));
            Ok((secret, tspa_vinfo(secret, ls)))
        },
    }
}

/// The reply of a provider with an OPRF key and a share, to the password's group element
/// blinded by `r`.
pub open spec fn honest_reply(
    reply: ReplyModel,
    password: Seq<u8>,
    r: int,
    oprf_key: int,
    share: int,
) -> bool {
    &&& reply matches ReplyModel::TspaAuthentication { contribution, ciphertext }
        && contribution == point_mul(tspa_point(password), (r * oprf_key) % order())
        && point_decodes(contribution) && holds_share(ciphertext, password, oprf_key, share)
    &&& 0 <= oprf_key < order()
    &&& point_decodes(tspa_point(password))
}

/// Replies of distinct providers, each with its OPRF key and its share of one polynomial.
pub open spec fn honest_replies(
    replies: Seq<Vote>,
    password: Seq<u8>,
    r: int,
    keys: Seq<int>,
    coefficients: Seq<int>,
) -> bool {
    &&& keys.len() == replies.len()
    &&& provider_ids(replies).no_duplicates()
    &&& forall|i: int|
        #![trigger replies[i]]
        0 <= i < replies.len() ==> honest_reply(
            replies[i].1,
            password,
            r,
            keys[i],
            share_value(coefficients, replies[i].0 as int),
        )
}

proof fn lemma_first_fault(replies: Seq<Vote>, k: int)
    requires
        0 <= k <= replies.len(),
        forall|i: int| 0 <= i < k ==> reply_fault((#[trigger] replies[i]).1) is None,
    ensures
        first_fault(replies) == first_fault(replies.skip(k)),
    decreases k,
{
    if k == 0 {
        assert(replies.skip(0) =~= replies);
    } else {
        assert(reply_fault(replies[0].1) is None);
        let rest = replies.drop_first();
        assert forall|i: int| 0 <= i < k - 1 implies reply_fault((#[trigger] rest[i]).1) is None by {
            assert(rest[i] == replies[i + 1]);
        }
        lemma_first_fault(rest, k - 1);
        assert(rest.skip(k - 1) =~= replies.skip(k));
    }
}

/// Unblinding a contribution gives the element under the OPRF key.
proof fn lemma_unblinded_factor(r: int, e: int, key: int)
    requires
        congruent(r * e, 1),
        0 <= key < order(),
    ensures
        (((r * key) % order()) * e) % order() == key,
{
    lemma_residue(r * key);
    assert(congruent(e, e));
    lemma_congruent_mul((r * key) % order(), r * key, e, e);
    assert((r * key) * e == (r * e) * key) by (nonlinear_arith);
    assert(congruent(key, key));
    lemma_congruent_mul(r * e, 1, key, key);
    lemma_congruent_trans(((r * key) % order()) * e, (r * e) * key, 1 * key);
    lemma_same_residue(((r * key) % order()) * e, key);
    vstd::arithmetic::div_mod::lemma_small_mod(key as nat, order() as nat);
}

/// The share in one reply.
fn decrypt_share(password: &[u8], r: &Key, inverted: &Key, reply: &Reply) -> (share: Result<Key>)
    requires
        scalar_value(inverted@) == inverse(scalar_value(r@)) % order(),
        scalar_value(r@) != 0 ==> congruent(scalar_value(r@) * scalar_value(inverted@), 1),
    ensures
        match share {
            Ok(bytes) => reply_fault(reply@) is None && scalar_value(bytes@) == decrypted_share(
                password@,
                scalar_value(r@),
                reply@,
            ),
            Err(error) => reply_fault(reply@) == Some(error@),
        },
        scalar_value(r@) != 0 ==> forall|key: int, value: int|
            #![trigger honest_reply(reply@, password@, scalar_value(r@), key, value)]
            honest_reply(reply@, password@, scalar_value(r@), key, value) ==> decrypted_share(
                password@,
                scalar_value(r@),
                reply@,
            ) == value,
{
    match reply {
        Reply::TspaAuthentication { contribution, ciphertext } => {
            let unblinded = match multiply_point(contribution, inverted) {
                Some(unblinded) => unblinded,
                None => {
                    return Err(message("invalid TSPA point"));
                },
            };
            proof {
                let r = scalar_value(r@);
                if r != 0 {
                    assert forall|key: int, value: int|
                        #![trigger honest_reply(reply@, password@, r, key, value)]
                        honest_reply(reply@, password@, r, key, value) implies decrypted_share(
                        password@,
                        r,
                        reply@,
                    ) == value by {
                        lemma_residue(r * key);
                        lemma_unblinded_factor(r, scalar_value(inverted@), key);
                        assert(unblinded@ == point_mul(tspa_point(password@), key));
                    }
                }
            }
            if ciphertext.len() != 48 {
                return Err(message("invalid TSPA ciphertext length"));
            }
            let key = oprf_finalize(password, &unblinded);
            let iv: [u8; 16] = to_array(slice_of(ciphertext.as_slice(), 0, 16));
            let encrypted: Key = to_array(slice_of(ciphertext.as_slice(), 16, 48));
            Ok(aes256ctr_xor_32(&key, &iv, &encrypted))
        },
        _ => Err(message("unexpected TSPA response")),
    }
}

/// Reconstructs secret and verifier from the replies of providers to the password's
/// group element blinded by `r`. Replies of enough honest providers give the secret that
/// was shared.
pub fn reconstruct(
    password: &[u8],
    ls: &[u8],
    r: &Key,
    replies: &[(u32, Reply)],
) -> (result: Result<
    (Key, Key),
>)
    ensures
        reconstruction(password@, ls@, scalar_value(r@), votes(replies@)) == (match result {
            Ok((secret, verifier)) => Ok((secret@, verifier@)),
            Err(error) => Err(error@),
        }),
        result matches Ok((secret, _)) ==> scalar_value(secret@) == reconstructed(
            password@,
            scalar_value(r@),
            votes(replies@),
        ),
        scalar_value(r@) != 0 ==> forall|keys: Seq<int>, coefficients: Seq<int>|
            #![trigger honest_replies(votes(replies@), password@, scalar_value(r@), keys, coefficients)]
            honest_replies(votes(replies@), password@, scalar_value(r@), keys, coefficients) && 1
                <= coefficients.len() <= replies@.len() ==> (result matches Ok((secret, _))
                && secret@ == scalar_bytes(coefficients[0] % order())),
{
    let ghost all = votes(replies@);
    let ghost rv = scalar_value(r@);
    let mut ids: Vec<u32> = Vec::new();
    let mut k: usize = 0;
    while k < replies.len()
        invariant
            k <= replies@.len(),
            ids@.len() == k,
            forall|j: int| 0 <= j < k ==> #[trigger] ids@[j] == replies@[j].0,
        decreases replies@.len() - k,
    {
        ids.push(replies[k].0);
        k += 1;
    }
    assert(ids@ =~= provider_ids(all));
    let lambdas = lagrange_coeffs_at_zero(ids.as_slice());
    let ghost weights = id_weights(ids@);
    let ghost shares = Seq::new(all.len(), |i: int| decrypted_share(password@, rv, all[i].1));
    let ghost terms = products(shares, weights);
    let inverted = unblinding(r);
    let mut secret = scalar_zero();
    let mut i: usize = 0;
    proof {
        lemma_residue(0);
        lemma_residue(le_value(r@) as int);
        assert(terms.take(0) =~= Seq::<int>::empty());
    }
    while i < replies.len()
        invariant
            i <= replies@.len(),
            all == votes(replies@),
            rv == scalar_value(r@),
            0 <= rv < order(),
            scalar_value(inverted@) == inverse(rv) % order(),
            rv != 0 ==> congruent(rv * scalar_value(inverted@), 1),
            lambdas@.len() == replies@.len(),
            weights.len() == replies@.len(),
            forall|k: int| 0 <= k < weights.len() ==> le_value(#[trigger] lambdas@[k]@) == weights[k],
            shares.len() == replies@.len(),
            shares == Seq::new(all.len(), |k: int| decrypted_share(password@, rv, all[k].1)),
            terms == products(shares, weights),
            is_canonical(secret@),
            congruent(le_value(secret@) as int, total(terms.take(i as int))),
            forall|k: int| 0 <= k < i ==> reply_fault((#[trigger] all[k]).1) is None,
            rv != 0 ==> forall|k: int, key: int, value: int|
                #![trigger honest_reply(all[k].1, password@, rv, key, value)]
                0 <= k < i && honest_reply(all[k].1, password@, rv, key, value) ==> shares[k]
                    == value,
        decreases replies@.len() - i,
    {
        assert(all[i as int].1 == replies@[i as int].1@);
        let share = match decrypt_share(password, r, &inverted, &replies[i].1) {
            Ok(share) => share,
            Err(error) => {
                proof {
                    lemma_first_fault(all, i as int);
                    assert(all.skip(i as int)[0] == all[i as int]);
                    assert forall|keys: Seq<int>, coefficients: Seq<int>|
                        #![trigger honest_replies(all, password@, rv, keys, coefficients)]
                        !honest_replies(all, password@, rv, keys, coefficients) by {
                        if honest_replies(all, password@, rv, keys, coefficients) {
                            assert(honest_reply(
                                all[i as int].1,
                                password@,
                                rv,
                                keys[i as int],
                                share_value(coefficients, all[i as int].0 as int),
                            ));
                        }
                    }
                }
                return Err(error);
            },
        };
        let term = scalar_product(&share, &lambdas[i]);
        let ghost before = secret;
        secret = scalar_sum(&secret, &term);
        proof {
            let a = le_value(share@) as int;
            let l = le_value(lambdas@[i as int]@) as int;
            assert(l == weights[i as int]);
            lemma_residue(a);
            assert(congruent(l, l));
            lemma_congruent_mul(a, shares[i as int], l, l);
            lemma_residue(a * l);
            lemma_congruent_trans(le_value(term@) as int, a * l, terms[i as int]);
            let s = le_value(before@) as int;
            lemma_congruent_add(
                s,
                total(terms.take(i as int)),
                le_value(term@) as int,
                terms[i as int],
            );
            lemma_residue(s + le_value(term@) as int);
            assert(terms.take(i + 1).drop_last() =~= terms.take(i as int));
            assert(terms.take(i + 1).last() == terms[i as int]);
            lemma_congruent_trans(
                le_value(secret@) as int,
                s + le_value(term@) as int,
                total(terms.take(i + 1)),
            );
        }
        i += 1;
    }
    proof {
        assert(terms.take(i as int) =~= terms);
        lemma_first_fault(all, all.len() as int);
        assert(all.skip(all.len() as int) =~= Seq::<Vote>::empty());
        lemma_same_residue(le_value(secret@) as int, total(terms));
        lemma_canonical_residue(secret@);
        lemma_le_bytes(secret@);
        if rv != 0 {
            assert forall|keys: Seq<int>, coefficients: Seq<int>|
                #![trigger honest_replies(all, password@, rv, keys, coefficients)]
                honest_replies(all, password@, rv, keys, coefficients) && 1 <= coefficients.len()
                    <= replies@.len() implies secret@ == scalar_bytes(
                coefficients[0] % order(),
            ) by {
                assert(separated(id_values(ids@)));
                assert forall|k: int| 0 <= k < ids@.len() implies #[trigger] shares[k]
                    == share_value(coefficients, ids@[k] as int) by {
                    assert(honest_reply(
                        all[k].1,
                        password@,
                        rv,
                        keys[k],
                        share_value(coefficients, all[k].0 as int),
                    ));
                }
                law_shares_recover_the_key(coefficients, ids@, shares, weights);
            }
        }
    }
    let verifier = hash_vinfo(&secret, ls);
    Ok((secret, verifier))
}

/// What a TSPA provider answers.
pub open spec fn tspa_answer(provider: TspaProviderModel, request: TspaRequestModel) -> Answer {
    match request {
        TspaRequestModel::Register { key, ciphertext, .. } => if ciphertext.len() != 48 {
            Err("invalid TSPA ciphertext length"@)
        } else if !is_canonical(key) {
            Err("invalid TSPA key"@)
        } else {
            Ok(ReplyModel::Ack(true))
        },
        TspaRequestModel::Authenticate { stor_uid, blinded } => if !point_decodes(blinded) {
            Err("invalid TSPA point"@)
        } else if !provider.record_db.contains_key(stor_uid) {
            Err("unknown TSPA record"@)
        } else {
            Ok(
                ReplyModel::TspaAuthentication {
                    contribution: point_mul(blinded, scalar_value(provider.oprf_key)),
                    ciphertext: provider.record_db[stor_uid],
                },
            )
        },
    }
}

/// The state of a TSPA provider after a request.
pub open spec fn tspa_next(
    provider: TspaProviderModel,
    request: TspaRequestModel,
) -> TspaProviderModel {
    match request {
        TspaRequestModel::Register { stor_uid, key, ciphertext } => if tspa_answer(
            provider,
            request,
        ) is Ok {
            TspaProviderModel {
                oprf_key: key,
                record_db: provider.record_db.insert(stor_uid, ciphertext),
                ..provider
            }
        } else {
            provider
        },
        TspaRequestModel::Authenticate { .. } => provider,
    }
}

/// Answers one request.
pub fn handle(provider: &mut TspaProvider, request: TspaRequest) -> (result: Result<Reply>)
    ensures
        answer(result) == tspa_answer(old(provider)@, request@),
        final(provider)@ == tspa_next(old(provider)@, request@),
        request@ matches TspaRequestModel::Authenticate { blinded, .. } ==> (answer(result) matches Ok(
            ReplyModel::TspaAuthentication { contribution, .. },
        ) ==> evaluates(contribution, blinded, scalar_value(old(provider)@.oprf_key))),
{
    match request {
        TspaRequest::Register { stor_uid, key, ciphertext } => {
            if ciphertext.len() != 48 {
                return Err(message("invalid TSPA ciphertext length"));
            }
            let ciphertext: [u8; 48] = to_array(ciphertext.as_slice());
            if !scalar_is_canonical(&key) {
                return Err(message("invalid TSPA key"));
            }
            provider.oprf_key = key;
            provider.put_record(stor_uid, ciphertext);
            Ok(Reply::Ack(true))
        },
        TspaRequest::Authenticate { stor_uid, blinded } => {
            if !decode_point(&blinded) {
                return Err(message("invalid TSPA point"));
            }
            match provider.get_record(&stor_uid) {
                Some(ciphertext) => Ok(
                    Reply::TspaAuthentication {
                        contribution: provider.oprf_send_eval(&blinded),
                        ciphertext: copy_bytes(ciphertext.as_slice()),
                    },
                ),
                None => Err(message("unknown TSPA record")),
            }
        },
    }
}

/// A registered record is what the provider answers with from there on, under the key
/// that was registered with it.
pub proof fn law_registered_share_is_served(
    provider: TspaProviderModel,
    stor_uid: Seq<u8>,
    key: Seq<u8>,
    ciphertext: Seq<u8>,
    blinded: Seq<u8>,
)
    requires
        ciphertext.len() == 48,
        is_canonical(key),
        point_decodes(blinded),
    ensures
        ({
            let register = TspaRequestModel::Register { stor_uid, key, ciphertext };
            let authenticate = TspaRequestModel::Authenticate { stor_uid, blinded };
            &&& tspa_answer(provider, register) == Ok::<ReplyModel, Seq<char>>(
                ReplyModel::Ack(true),
            )
            &&& tspa_answer(tspa_next(provider, register), authenticate) == Ok::<
                ReplyModel,
                Seq<char>,
            >(
                ReplyModel::TspaAuthentication {
                    contribution: point_mul(blinded, scalar_value(key)),
                    ciphertext,
                },
            )
        }),
{
}

} // verus!
