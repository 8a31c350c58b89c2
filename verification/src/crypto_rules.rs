//! What is hashed, sealed, shared and drawn, down to the bytes.

use vstd::prelude::*;

use vstd::arithmetic::power::pow;
use vstd::bytes::{spec_u32_to_le_bytes, spec_u64_to_le_bytes};
use vstd::utf8::encode_utf8;

use crate::accounts::{written_ciphertext, AccountDraw};
use crate::agreement::{provider_ids, Vote};
use crate::client::{
    contributions, evaluated_key, setup_root, state_in_root, SetupDraw, StateModel,
};
use crate::crypto::{
    account_address, blake3_hash, blake3_wide, freshly_sealed, opened, password_key, sealed_blob, share_value,
    vinfo, xchacha_open, xchacha_seal,
};
use crate::crypto_tspa::{aes_ctr, share_key, storage_address, tspa_vinfo};
use crate::flow::{
    account_draw, after_account_draw, after_setup_draw, setup_draw, update_draw, update_started,
    SystemModel,
};
use crate::group::{combination, point_from_uniform, point_mul, point_sum, products};
use crate::interpolation::{
    congruent, evaluate, inverse, invertible, lemma_residue, lemma_total_scale, order, total,
    weight,
};
use crate::messages::PasswordUpdateModel;
use crate::password::{signed_update, UpdateDraw};
use crate::random::{chacha_bytes, RngModel};
use crate::scalar::{id_values, id_weights, le_value, scalar_bytes, values_of};
use crate::tspa_adapter::{
    after_registration_draw, decrypted_share, reconstructed, registration_draw, registration_of,
    RegistrationDraw,
};
use crate::wire::labelled_pair;

verus! {

/// Every hash is taken of the name of its purpose and all its inputs, in this order. The
/// purposes of the two protocols differ.
pub proof fn law_hashes_take_all_their_inputs(
    a: Seq<u8>,
    b: Seq<u8>,
    id: u32,
    prf_key: int,
)
    ensures
        vinfo(a, b) == blake3_hash(encode_utf8("upspa/vinfo/v1"@) + a + b),
        account_address(a, b, id) == blake3_hash(
            encode_utf8("upspa/suid/v1"@) + a + b + spec_u32_to_le_bytes(id),
        ),
        password_key(a, prf_key) == blake3_hash(
            encode_utf8("upspa/oprf-finalize/v1"@) + a + point_mul(
                point_from_uniform(
                    blake3_wide(encode_utf8("upspa/hash-to-point/v1"@) + a),
                ),
                prf_key,
            ),
        ),
        storage_address(a, b) == blake3_hash(encode_utf8("tspa/storuid/v1"@) + a + b),
        tspa_vinfo(a, b) == blake3_hash(encode_utf8("tspa/vinfo/v1"@) + a + b),
        share_key(a, prf_key) == blake3_hash(
            encode_utf8("tspa/oprf-finalize/v1"@) + a + point_mul(
                point_from_uniform(
                    blake3_wide(encode_utf8("tspa/hash-to-point/v1"@) + a),
                ),
                prf_key,
            ),
        ),
{
    let domain = encode_utf8("upspa/vinfo/v1"@);
    assert(domain + (a + b) =~= domain + a + b);
    let domain = encode_utf8("upspa/suid/v1"@);
    let le = spec_u32_to_le_bytes(id);
    assert(domain + (a + b + le) =~= domain + a + b + le);
    let domain = encode_utf8("upspa/oprf-finalize/v1"@);
    let point = point_mul(
        point_from_uniform(blake3_wide(encode_utf8("upspa/hash-to-point/v1"@) + a)),
        prf_key,
    );
    assert(domain + (a + point) =~= domain + a + point);
    let domain = encode_utf8("tspa/storuid/v1"@);
    assert(domain + (a + b) =~= domain + a + b);
    let domain = encode_utf8("tspa/vinfo/v1"@);
    assert(domain + (a + b) =~= domain + a + b);
    let domain = encode_utf8("tspa/oprf-finalize/v1"@);
    let point = point_mul(
        point_from_uniform(blake3_wide(encode_utf8("tspa/hash-to-point/v1"@) + a)),
        prf_key,
    );
    assert(domain + (a + point) =~= domain + a + point);
}

/// A ciphertext is the nonce, what the cipher gives for the plaintext under key, nonce and
/// bound data, and the tag; opening takes it apart in the same places.
pub proof fn law_ciphertext_is_nonce_text_and_tag(
    key: Seq<u8>,
    nonce: Seq<u8>,
    aad: Seq<u8>,
    plaintext: Seq<u8>,
    text: Seq<u8>,
    tag: Seq<u8>,
)
    requires
        nonce.len() == 24,
        tag.len() == 16,
    ensures
        sealed_blob(key, nonce, aad, plaintext) == nonce + xchacha_seal(
            key,
            nonce,
            aad,
            plaintext,
        ).0 + xchacha_seal(key, nonce, aad, plaintext).1,
        opened(key, aad, nonce + text + tag) == xchacha_open(key, nonce, aad, text, tag),
{
    let blob = nonce + text + tag;
    assert(blob.subrange(0, 24) =~= nonce);
    assert(blob.subrange(24, blob.len() - 16) =~= text);
    assert(blob.subrange(blob.len() - 16, blob.len() as int) =~= tag);
}

/// Roots and accounts are sealed under the drawn nonce: a root under the key of the
/// password and the polynomial's constant, with no bound data, an account under the user's
/// key and bound to user and login server.
pub proof fn law_records_are_sealed_under_the_drawn_nonce(
    uid: Seq<u8>,
    ls: Seq<u8>,
    password: Seq<u8>,
    state: StateModel,
    timestamp: u64,
    counter: u64,
    first: SetupDraw,
    update: UpdateDraw,
    account: AccountDraw,
    id: int,
)
    ensures
        ({
            let key = password_key(password, first.coeffs[0]);
            let sealed = xchacha_seal(
                key,
                first.nonce,
                Seq::empty(),
                first.ssk + first.rsp + first.k0,
            );
            setup_root(uid, password, first, id).cid == first.nonce + sealed.0 + sealed.1
        }),
        ({
            let key = password_key(password, update.coeffs[0]);
            let sealed = xchacha_seal(
                key,
                update.nonce,
                Seq::empty(),
                state.ssk + state.rsp + state.k0,
            );
            signed_update(uid, password, state, timestamp, update, id).cid_new == update.nonce
                + sealed.0 + sealed.1
        }),
        ({
            let sealed = xchacha_seal(
                state.k0,
                account.nonce,
                labelled_pair("account"@, uid, ls),
                account.secret + spec_u64_to_le_bytes(counter),
            );
            written_ciphertext(uid, ls, state.k0, counter, account) == account.nonce + sealed.0
                + sealed.1
        }),
{
}

/// A root is read by position: signing key, address seed and account key, 32 bytes each,
/// and the timestamp as the providers gave it.
pub proof fn law_root_is_read_by_position(key: Seq<u8>, cid: Seq<u8>, timestamp: u64)
    ensures
        ({
            let result = state_in_root(key, cid, timestamp);
            let plaintext = opened(key, Seq::empty(), cid);
            &&& cid.len() != 136 ==> result == Err::<StateModel, Seq<char>>(
                "invalid ciphertext length"@,
            )
            &&& cid.len() == 136 && plaintext is None ==> result == Err::<StateModel, Seq<char>>(
                "root decryption failed"@,
            )
            &&& cid.len() == 136 && plaintext is Some ==> result == Ok::<StateModel, Seq<char>>(
                StateModel {
                    ssk: plaintext->0.subrange(0, 32),
                    rsp: plaintext->0.subrange(32, 64),
                    k0: plaintext->0.subrange(64, 96),
                    timestamp,
                },
            )
        }),
{
}

/// The terms of a polynomial at a point.
pub open spec fn powers(coefficients: Seq<int>, x: int) -> Seq<int> {
    Seq::new(coefficients.len(), |i: int| coefficients[i] * pow(x, i as nat))
}

/// A share is the value of the whole polynomial: every coefficient times its power of the
/// provider's number, summed up and reduced.
pub proof fn law_share_is_the_value_of_the_polynomial(coefficients: Seq<int>, id: int)
    ensures
        share_value(coefficients, id) == total(powers(coefficients, id)) % order(),
        0 <= share_value(coefficients, id) < order(),
{
    lemma_evaluate_is_a_sum(coefficients, id);
    lemma_residue(evaluate(coefficients, id));
}

proof fn lemma_evaluate_is_a_sum(coefficients: Seq<int>, x: int)
    ensures
        evaluate(coefficients, x) == total(powers(coefficients, x)),
    decreases coefficients.len(),
{
    let terms = powers(coefficients, x);
    if coefficients.len() > 0 {
        let rest = coefficients.drop_first();
        lemma_evaluate_is_a_sum(rest, x);
        let lower = powers(rest, x);
        let scaled = Seq::new(lower.len(), |i: int| x * lower[i]);
        assert forall|i: int| 0 <= i < lower.len() implies #[trigger] scaled[i] == x * lower[i] by {}
        lemma_total_scale(lower, x, scaled);
        assert(terms =~= seq![coefficients[0]] + scaled) by {
            assert(pow(x, 0) == 1) by {
                vstd::arithmetic::power::lemma_pow0(x);
            }
            assert forall|i: int| 1 <= i < terms.len() implies terms[i] == scaled[i - 1] by {
                let p = pow(x, (i - 1) as nat);
                assert(pow(x, i as nat) == x * p) by {
                    reveal(pow);
                }
                assert(coefficients[i] == rest[i - 1]);
                assert(coefficients[i] * (x * p) == x * (coefficients[i] * p))
                    by (nonlinear_arith);
            }
        }
        lemma_total_first(coefficients[0], scaled);
    }
}

proof fn lemma_total_first(first: int, rest: Seq<int>)
    ensures
        total(seq![first] + rest) == first + total(rest),
    decreases rest.len(),
{
    let all = seq![first] + rest;
    if rest.len() == 0 {
        assert(all =~= seq![first]);
        assert(all.drop_last() =~= Seq::<int>::empty());
        reveal_with_fuel(total, 2);
    } else {
        lemma_total_first(first, rest.drop_last());
        assert(all.drop_last() =~= seq![first] + rest.drop_last());
        assert(all.last() == rest.last());
    }
}

/// The weight of a number among others is a product with one factor for each of the others:
/// that number times the inverse of its difference. Zero has the inverse zero, and every
/// other number one that it is multiplied with to give one. The weights of providers are
/// those of their numbers, reduced.
pub proof fn law_weight_has_a_factor_for_each_other(
    x: int,
    others: Seq<int>,
    other: int,
    ids: Seq<u32>,
    d: int,
)
    ensures
        weight(x, Seq::<int>::empty()) == 1,
        weight(x, others.push(other)) == weight(x, others) * (other * inverse(other - x)),
        d % order() == 0 ==> inverse(d) == 0,
        d % order() != 0 && invertible(d) ==> (d * inverse(d) - 1) % order() == 0,
        id_weights(ids).len() == ids.len(),
        forall|i: int|
            #![trigger id_weights(ids)[i]]
            0 <= i < ids.len() ==> id_weights(ids)[i] == weight(
                ids[i] as int,
                ids.remove(i).map_values(|id: u32| id as int),
            ) % order(),
{
    assert(others.push(other).drop_last() =~= others);
    if d % order() != 0 && invertible(d) {
        let b = choose|b: int| #[trigger] congruent(d * b, 1);
        assert(congruent(d * inverse(d), 1));
    }
    assert forall|i: int| #![trigger id_weights(ids)[i]] 0 <= i < ids.len() implies id_weights(
        ids,
    )[i] == weight(ids[i] as int, ids.remove(i).map_values(|id: u32| id as int)) % order() by {
        assert(id_values(ids).remove(i) =~= ids.remove(i).map_values(|id: u32| id as int));
    }
}

/// The key that an identification opens the root under is the hash of the password and the
/// unblinded combination of the contributions, each weighted by its provider's number.
pub proof fn law_key_is_of_the_weighted_contributions(
    password: Seq<u8>,
    r: int,
    used: Seq<Vote>,
)
    ensures
        evaluated_key(password, r, used) == blake3_hash(
            encode_utf8("upspa/oprf-finalize/v1"@) + password + point_mul(
                combination(
                    used.map_values(|vote: Vote| vote.1->Identification_contribution),
                    id_weights(used.map_values(|vote: Vote| vote.0)),
                ),
                inverse(r) % order(),
            ),
        ),
{
    assert(contributions(used) =~= used.map_values(
        |vote: Vote| vote.1->Identification_contribution,
    ));
    assert(provider_ids(used) =~= used.map_values(|vote: Vote| vote.0));
    let domain = encode_utf8("upspa/oprf-finalize/v1"@);
    let point = point_mul(
        combination(contributions(used), id_weights(provider_ids(used))),
        inverse(r) % order(),
    );
    assert(domain + (password + point) =~= domain + password + point);
}

/// The secret that TSPA shares give is their sum, each weighted by its provider's number.
pub proof fn law_secret_is_the_weighted_sum(password: Seq<u8>, r: int, replies: Seq<Vote>)
    ensures
        reconstructed(password, r, replies) == total(
            Seq::new(
                replies.len(),
                |i: int|
                    decrypted_share(password, r, replies[i].1) * id_weights(
                        replies.map_values(|vote: Vote| vote.0),
                    )[i],
            ),
        ) % order(),
{
    let ids = replies.map_values(|vote: Vote| vote.0);
    assert(provider_ids(replies) =~= ids);
    let shares = Seq::new(replies.len(), |i: int| decrypted_share(password, r, replies[i].1));
    assert(products(shares, id_weights(ids)) =~= Seq::new(
        replies.len(),
        |i: int| decrypted_share(password, r, replies[i].1) * id_weights(ids)[i],
    ));
}

/// A combination of group elements is the sum of their multiples, each with its own
/// factor.
pub proof fn law_combination_sums_the_multiples(
    points: Seq<Seq<u8>>,
    factors: Seq<int>,
    point: Seq<u8>,
    factor: int,
)
    requires
        points.len() == factors.len(),
    ensures
        points.len() == 0 ==> combination(points.push(point), factors.push(factor)) == point_mul(
            point,
            factor,
        ),
        points.len() > 0 ==> combination(points.push(point), factors.push(factor)) == point_sum(
            combination(points, factors),
            point_mul(point, factor),
        ),
{
    assert(points.push(point).drop_last() =~= points);
    assert(factors.push(factor).drop_last() =~= factors);
}

/// A TSPA registration stores at the address of user and login server. The ciphertext of
/// provider `i` is the drawn vector followed by the polynomial's value at `i` under the key
/// stream of the password and the provider's drawn key. The verifier is that of the
/// polynomial's constant.
pub proof fn law_tspa_shares_are_encrypted_for_their_providers(
    uid: Seq<u8>,
    ls: Seq<u8>,
    password: Seq<u8>,
    draw: RegistrationDraw,
)
    requires
        draw.keys.len() == draw.ivs.len(),
    ensures
        ({
            let data = registration_of(uid, ls, password, draw);
            &&& data.stor_uid == storage_address(uid, ls)
            &&& data.verifier == tspa_vinfo(draw.coeffs[0], ls)
            &&& data.keys == draw.keys
            &&& data.ciphertexts.len() == draw.keys.len()
            &&& forall|i: int|
                #![trigger data.ciphertexts[i]]
                0 <= i < draw.keys.len() ==> data.ciphertexts[i] == draw.ivs[i] + aes_ctr(
                    share_key(password, le_value(draw.keys[i]) as int % order()),
                    draw.ivs[i],
                    scalar_bytes(evaluate(values_of(draw.coeffs), i + 1) % order()),
                )
        }),
{
}

/// The words of the generator's stream that are passed over by a number of pieces.
proof fn lemma_position(rng: RngModel, count: nat, size: nat)
    ensures
        rng.after_pieces(count, size).seed == rng.seed,
        rng.after_pieces(count, size).position == (rng.position + count * ((size + 3) / 4)) % (
        u128::MAX + 1),
    decreases count,
{
    let words = (size + 3) / 4;
    let range = u128::MAX + 1;
    if count == 0 {
        vstd::arithmetic::div_mod::lemma_small_mod(rng.position as nat, range as nat);
        assert(0 * words == 0);
    } else {
        let fewer = (count - 1) as nat;
        lemma_position(rng, fewer, size);
        let so_far = rng.position + fewer * words;
        vstd::arithmetic::div_mod::lemma_add_mod_noop(so_far, words as int, range);
        vstd::arithmetic::div_mod::lemma_mod_bound(so_far, range);
        vstd::arithmetic::div_mod::lemma_mod_bound((so_far % range) + words, range);
        assert((so_far + words) % range == ((so_far % range) + words) % range) by {
            lemma_passed(so_far, words as int);
        }
        assert(so_far + words == rng.position + count * words) by (nonlinear_arith)
            requires
                so_far == rng.position + fewer * words,
                count == fewer + 1,
        ;
    }
}

/// Positions add up.
proof fn lemma_passed(a: int, b: int)
    ensures
        ((a % (u128::MAX + 1)) + b) % (u128::MAX + 1) == (a + b) % (u128::MAX + 1),
{
    let range = u128::MAX + 1;
    vstd::arithmetic::div_mod::lemma_add_mod_noop(a, b, range);
    vstd::arithmetic::div_mod::lemma_add_mod_noop(a % range, b, range);
    vstd::arithmetic::div_mod::lemma_mod_twice(a, range);
}

/// The generator a number of words further on in its stream.
#[verifier::opaque]
pub open spec fn words_on(rng: RngModel, words: int) -> RngModel {
    RngModel {
        seed: rng.seed,
        position: ((rng.position + words) % (u128::MAX + 1)) as u128,
    }
}

/// The bytes that the generator's stream has a number of words further on.
pub open spec fn stream(rng: RngModel, words: int, count: nat) -> Seq<u8> {
    chacha_bytes(
        rng.seed,
        ((rng.position + words) % (u128::MAX + 1)) as u128,
        count,
    )
}

proof fn lemma_words_on(rng: RngModel, words: int, count: nat)
    requires
        0 <= words,
    ensures
        words_on(rng, words).after(count) == words_on(rng, words + (count + 3) / 4),
        words_on(rng, words).bytes(count) == stream(rng, words, count),
        words_on(rng, 0) == rng,
{
    reveal(words_on);
    let range = u128::MAX + 1;
    vstd::arithmetic::div_mod::lemma_mod_bound(rng.position + words, range);
    lemma_passed(rng.position + words, ((count + 3) / 4) as int);
    vstd::arithmetic::div_mod::lemma_mod_bound(
        rng.position + words + (count + 3) / 4,
        range,
    );
    vstd::arithmetic::div_mod::lemma_small_mod(rng.position as nat, range as nat);
}

proof fn lemma_pieces_on(
    rng: RngModel,
    words: int,
    count: nat,
    size: nat,
    each: int,
    end: int,
)
    requires
        0 <= words,
        each == (size + 3) / 4,
        end == words + count * each,
    ensures
        words_on(rng, words).after_pieces(count, size) == words_on(rng, end),
{
    reveal(words_on);
    let range = u128::MAX + 1;
    let here = words_on(rng, words);
    lemma_position(here, count, size);
    vstd::arithmetic::div_mod::lemma_mod_bound(rng.position + words, range);
    lemma_passed(rng.position + words, end - words);
    vstd::arithmetic::div_mod::lemma_mod_bound(rng.position + end, range);
}

/// The scalar behind a number of scalars.
proof fn lemma_scalar_on(rng: RngModel, words: int, i: int)
    requires
        0 <= words,
        0 <= i,
    ensures
        words_on(rng, words).after_scalars(i as nat).scalar() == le_value(
            stream(rng, words + 16 * i, 64),
        ) as int % order(),
{
    lemma_pieces_on(rng, words, i as nat, 64, 16, words + 16 * i);
    lemma_words_on(rng, words + 16 * i, 64);
}

/// The piece of 16 bytes behind a number of such pieces.
proof fn lemma_piece_on(rng: RngModel, words: int, i: int)
    requires
        0 <= words,
        0 <= i,
    ensures
        words_on(rng, words).after_pieces(i as nat, 16).bytes(16) == stream(
            rng,
            words + 4 * i,
            16,
        ),
{
    lemma_pieces_on(rng, words, i as nat, 16, 4, words + 4 * i);
    lemma_words_on(rng, words + 4 * i, 16);
}

/// Bytes are drawn from the stream of the generator's seed where the last draw ended: no
/// word of it is used twice.
pub proof fn law_draw_moves_behind_what_was_drawn(rng: RngModel, count: nat)
    ensures
        rng.bytes(count) == chacha_bytes(rng.seed, rng.position, count),
        rng.after(count) == words_on(rng, ((count + 3) / 4) as int),
        rng.scalar() == le_value(chacha_bytes(rng.seed, rng.position, 64)) as int % order(),
{
    lemma_words_on(rng, 0, count);
}

/// A ciphertext with a nonce of its own takes the next 24 bytes of the stream for it, and the
/// generator moves behind them: the next ciphertext has another part of the stream.
pub proof fn law_every_ciphertext_has_its_own_nonce(
    key: Seq<u8>,
    rng: RngModel,
    aad: Seq<u8>,
    plaintext: Seq<u8>,
)
    ensures
        ({
            let (blob, next) = freshly_sealed(key, rng, aad, plaintext);
            let nonce = stream(rng, 0, 24);
            let sealed = xchacha_seal(key, nonce, aad, plaintext);
            &&& blob == nonce + sealed.0 + sealed.1
            &&& next == words_on(rng, 6)
        }),
{
    lemma_words_on(rng, 0, 24);
}

/// The signature of a password update is over every field but itself, in their order, texts
/// and byte strings with their length in front.
pub proof fn law_signature_is_over_the_fields_in_order(update: PasswordUpdateModel)
    ensures
        ({
            let text = encode_utf8(update.operation);
            update.signed_bytes() == spec_u64_to_le_bytes(text.len() as u64) + text + update.sid
                + spec_u64_to_le_bytes(update.uid.len() as u64) + update.uid
                + spec_u32_to_le_bytes(update.provider_id) + spec_u64_to_le_bytes(
                update.timestamp_old,
            ) + spec_u64_to_le_bytes(update.timestamp_new) + spec_u64_to_le_bytes(
                update.cid_new.len() as u64,
            ) + update.cid_new + update.share_new
        }),
{
    let text = encode_utf8(update.operation);
    assert(update.signed_bytes() =~= spec_u64_to_le_bytes(text.len() as u64) + text + update.sid
        + spec_u64_to_le_bytes(update.uid.len() as u64) + update.uid + spec_u32_to_le_bytes(
        update.provider_id,
    ) + spec_u64_to_le_bytes(update.timestamp_old) + spec_u64_to_le_bytes(update.timestamp_new)
        + spec_u64_to_le_bytes(update.cid_new.len() as u64) + update.cid_new + update.share_new);
}

/// A setup draws, one behind the other, the session, the address seed, the coefficients,
/// the signing key, the account key and the nonce.
pub proof fn law_setup_draws_one_behind_the_other(rng: RngModel, t: int)
    requires
        0 <= t,
    ensures
        ({
            let draw = setup_draw(rng, t as nat);
            &&& draw.sid == stream(rng, 0, 16)
            &&& draw.rsp == stream(rng, 4, 32)
            &&& draw.coeffs.len() == t
            &&& forall|i: int|
                #![trigger draw.coeffs[i]]
                0 <= i < t ==> draw.coeffs[i] == le_value(stream(rng, 12 + 16 * i, 64)) as int
                    % order()
            &&& draw.ssk == stream(rng, 12 + 16 * t, 32)
            &&& draw.k0 == stream(rng, 20 + 16 * t, 32)
            &&& draw.nonce == stream(rng, 28 + 16 * t, 24)
            &&& after_setup_draw(rng, t as nat) == words_on(rng, 34 + 16 * t)
        }),
{
    lemma_words_on(rng, 0, 16);
    lemma_words_on(rng, 4, 32);
    lemma_pieces_on(rng, 12, t as nat, 64, 16, 12 + 16 * t);
    lemma_words_on(rng, 12 + 16 * t, 32);
    lemma_words_on(rng, 20 + 16 * t, 32);
    lemma_words_on(rng, 28 + 16 * t, 24);
    let draw = setup_draw(rng, t as nat);
    assert forall|i: int| #![trigger draw.coeffs[i]] 0 <= i < t implies draw.coeffs[i] == le_value(
        stream(rng, 12 + 16 * i, 64),
    ) as int % order() by {
        lemma_scalar_on(rng, 12, i);
    }
}

/// An account write draws, one behind the other, the session, the secret and the nonce.
pub proof fn law_account_draws_one_behind_the_other(rng: RngModel)
    ensures
        account_draw(rng).sid == stream(rng, 0, 16),
        account_draw(rng).secret == stream(rng, 4, 32),
        account_draw(rng).nonce == stream(rng, 12, 24),
        after_account_draw(rng) == words_on(rng, 18),
{
    lemma_words_on(rng, 0, 16);
    lemma_words_on(rng, 4, 32);
    lemma_words_on(rng, 12, 24);
}

/// A password update draws, one behind the other, the session, the coefficients and, if the
/// timestamp is not used up, the nonce.
pub proof fn law_password_update_draws_one_behind_the_other(
    system: SystemModel,
    uid: Seq<u8>,
    password: Seq<u8>,
    state: StateModel,
    now: u64,
)
    requires
        system.wf(),
    ensures
        ({
            let rng = system.rng;
            let t = system.t;
            let draw = update_draw(rng, t as nat);
            let next = update_started(system, uid, password, state, now).0;
            &&& draw.sid == stream(rng, 0, 16)
            &&& draw.coeffs.len() == t
            &&& forall|i: int|
                #![trigger draw.coeffs[i]]
                0 <= i < t ==> draw.coeffs[i] == le_value(stream(rng, 4 + 16 * i, 64)) as int
                    % order()
            &&& draw.nonce == stream(rng, 4 + 16 * t, 24)
            &&& state.timestamp < u64::MAX ==> next.rng == words_on(rng, 10 + 16 * t)
            &&& state.timestamp == u64::MAX ==> next.rng == words_on(rng, 4 + 16 * t)
        }),
{
    let rng = system.rng;
    let t = system.t as nat;
    lemma_words_on(rng, 0, 16);
    lemma_pieces_on(rng, 4, t, 64, 16, 4 + 16 * system.t);
    lemma_words_on(rng, 4 + 16 * system.t, 24);
    let draw = update_draw(rng, t);
    assert forall|i: int| #![trigger draw.coeffs[i]] 0 <= i < t implies draw.coeffs[i] == le_value(
        stream(rng, 4 + 16 * i, 64),
    ) as int % order() by {
        lemma_scalar_on(rng, 4, i);
    }
}

proof fn lemma_registration_positions(rng: RngModel, n: int, t: int)
    requires
        0 <= n,
        0 <= t,
    ensures
        rng == words_on(rng, 0),
        rng.after_scalars(t as nat) == words_on(rng, 16 * t),
        rng.after_scalars(t as nat).after_scalars(n as nat) == words_on(rng, 16 * t + 16 * n),
        after_registration_draw(rng, n as nat, t as nat) == words_on(rng, 16 * t + 20 * n),
{
    lemma_words_on(rng, 0, 0);
    lemma_pieces_on(rng, 0, t as nat, 64, 16, 16 * t);
    lemma_pieces_on(rng, 16 * t, n as nat, 64, 16, 16 * t + 16 * n);
    lemma_pieces_on(rng, 16 * t + 16 * n, n as nat, 16, 4, 16 * t + 20 * n);
}

proof fn lemma_registration_coefficient(rng: RngModel, n: int, t: int, i: int)
    requires
        0 <= n,
        0 <= i < t,
    ensures
        registration_draw(rng, n as nat, t as nat).coeffs[i] == scalar_bytes(
            le_value(stream(rng, 16 * i, 64)) as int % order(),
        ),
{
    lemma_registration_positions(rng, n, t);
    lemma_scalar_on(rng, 0, i);
}

proof fn lemma_registration_key(rng: RngModel, n: int, t: int, i: int)
    requires
        0 <= i < n,
        0 <= t,
    ensures
        registration_draw(rng, n as nat, t as nat).keys[i] == scalar_bytes(
            le_value(stream(rng, 16 * t + 16 * i, 64)) as int % order(),
        ),
{
    lemma_registration_positions(rng, n, t);
    lemma_scalar_on(rng, 16 * t, i);
}

proof fn lemma_registration_vector(rng: RngModel, n: int, t: int, i: int)
    requires
        0 <= i < n,
        0 <= t,
    ensures
        registration_draw(rng, n as nat, t as nat).ivs[i] == stream(
            rng,
            16 * t + 16 * n + 4 * i,
            16,
        ),
{
    lemma_registration_positions(rng, n, t);
    lemma_piece_on(rng, 16 * t + 16 * n, i);
}

/// A TSPA registration draws, one behind the other, the coefficients, a key for each
/// provider and a vector for each provider.
pub proof fn law_tspa_registration_draws_one_behind_the_other(rng: RngModel, n: int, t: int)
    requires
        0 <= n,
        0 <= t,
    ensures
        ({
            let draw = registration_draw(rng, n as nat, t as nat);
            &&& draw.coeffs.len() == t
            &&& draw.keys.len() == n
            &&& draw.ivs.len() == n
            &&& forall|i: int|
                #![trigger draw.coeffs[i]]
                0 <= i < t ==> draw.coeffs[i] == scalar_bytes(
                    le_value(stream(rng, 16 * i, 64)) as int % order(),
                )
            &&& forall|i: int|
                #![trigger draw.keys[i]]
                0 <= i < n ==> draw.keys[i] == scalar_bytes(
                    le_value(stream(rng, 16 * t + 16 * i, 64)) as int % order(),
                )
            &&& forall|i: int|
                #![trigger draw.ivs[i]]
                0 <= i < n ==> draw.ivs[i] == stream(rng, 16 * t + 16 * n + 4 * i, 16)
            &&& after_registration_draw(rng, n as nat, t as nat) == words_on(rng, 16 * t + 20 * n)
        }),
{
    let draw = registration_draw(rng, n as nat, t as nat);
    assert forall|i: int| #![trigger draw.coeffs[i]] 0 <= i < t implies draw.coeffs[i]
        == scalar_bytes(le_value(stream(rng, 16 * i, 64)) as int % order()) by {
        lemma_registration_coefficient(rng, n, t, i);
    }
    assert forall|i: int| #![trigger draw.keys[i]] 0 <= i < n implies draw.keys[i] == scalar_bytes(
        le_value(stream(rng, 16 * t + 16 * i, 64)) as int % order(),
    ) by {
        lemma_registration_key(rng, n, t, i);
    }
    assert forall|i: int| #![trigger draw.ivs[i]] 0 <= i < n implies draw.ivs[i] == stream(
        rng,
        16 * t + 16 * n + 4 * i,
        16,
    ) by {
        lemma_registration_vector(rng, n, t, i);
    }
    lemma_registration_positions(rng, n, t);
}

} // verus!
