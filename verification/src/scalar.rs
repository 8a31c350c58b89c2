//! Scalars of the Ristretto group as 32 little-endian bytes.

use vstd::prelude::*;

use curve25519_dalek::scalar::Scalar;

use crate::interpolation::{
    apart, congruent, evaluate, inverse, lemma_congruent_add, lemma_congruent_mul,
    lemma_congruent_sub, lemma_congruent_sym, lemma_congruent_trans, lemma_inverse,
    lemma_inverse_unique, lemma_residue, lemma_same_residue, order, separated, weight,
};
use crate::messages::Key;

verus! {

/// The number that the bytes stand for, lowest byte first.
pub open spec fn le_value(bytes: Seq<u8>) -> nat
    decreases bytes.len(),
{
    if bytes.len() == 0 {
        0
    } else {
        bytes[0] as nat + 256 * le_value(bytes.drop_first())
    }
}

/// The residue that a scalar's bytes stand for.
pub open spec fn scalar_value(bytes: Seq<u8>) -> int {
    le_value(bytes) as int % order()
}

/// The bytes of a reduced scalar.
pub open spec fn is_canonical(bytes: Seq<u8>) -> bool {
    bytes.len() == 32 && le_value(bytes) < order()
}

/// The residues of a sequence of scalars.
pub open spec fn scalar_values(scalars: Seq<Key>) -> Seq<int> {
    scalars.map_values(|s: Key| scalar_value(s@))
}

/// The residues of a sequence of encodings.
pub open spec fn values_of(encodings: Seq<Seq<u8>>) -> Seq<int> {
    Seq::new(encodings.len(), |i: int| scalar_value(encodings[i]))
}

/// The bytes that stand for a number, lowest byte first.
pub open spec fn le_bytes(value: nat, count: nat) -> Seq<u8>
    decreases count,
{
    if count == 0 {
        Seq::empty()
    } else {
        seq![(value % 256) as u8] + le_bytes(value / 256, (count - 1) as nat)
    }
}

/// Bytes are those of the number that they stand for.
pub proof fn lemma_le_bytes(bytes: Seq<u8>)
    ensures
        le_bytes(le_value(bytes), bytes.len()) == bytes,
    decreases bytes.len(),
{
    if bytes.len() > 0 {
        let rest = bytes.drop_first();
        lemma_le_bytes(rest);
        let v = le_value(bytes);
        assert(v % 256 == bytes[0] as nat && v / 256 == le_value(rest));
        assert(seq![bytes[0]] + rest =~= bytes);
    }
    assert(le_bytes(le_value(bytes), bytes.len()) =~= bytes);
}

/// The number of values of this many bytes.
pub open spec fn byte_range(count: nat) -> nat
    decreases count,
{
    if count == 0 {
        1
    } else {
        256 * byte_range((count - 1) as nat)
    }
}

/// The bytes of a number that fits stand for it.
pub proof fn lemma_le_bytes_value(value: nat, count: nat)
    requires
        value < byte_range(count),
    ensures
        le_bytes(value, count).len() == count,
        le_value(le_bytes(value, count)) == value,
    decreases count,
{
    if count > 0 {
        lemma_le_bytes_value(value / 256, (count - 1) as nat);
        let bytes = le_bytes(value, count);
        assert(bytes.drop_first() =~= le_bytes(value / 256, (count - 1) as nat));
        assert(bytes[0] == (value % 256) as u8);
    }
}

/// The bytes of the scalar of a residue are canonical and stand for it.
pub proof fn lemma_scalar_bytes(value: int)
    requires
        0 <= value < order(),
    ensures
        is_canonical(scalar_bytes(value)),
        scalar_value(scalar_bytes(value)) == value,
{
    assert(order() < byte_range(32)) by {
        reveal_with_fuel(byte_range, 33);
    }
    lemma_le_bytes_value(value as nat, 32);
    vstd::arithmetic::div_mod::lemma_small_mod(value as nat, order() as nat);
}

/// The bytes of the scalar of a residue.
pub open spec fn scalar_bytes(value: int) -> Seq<u8> {
    le_bytes(value as nat, 32)
}

/// `Scalar::from_canonical_bytes`: whether the bytes are a reduced scalar.
#[verifier::external_body]
pub(crate) fn scalar_is_canonical(bytes: &Key) -> (canonical: bool)
    ensures
        canonical == is_canonical(bytes@),
{
    bool::from(Scalar::from_canonical_bytes(*bytes).is_some())
}

/// `Scalar * Scalar`, with `Scalar::from_bytes_mod_order` before and `to_bytes` after it:
/// the reduced product.
#[verifier::external_body]
pub(crate) fn scalar_product(a: &Key, b: &Key) -> (product: Key)
    ensures
        le_value(product@) == (le_value(a@) * le_value(b@)) as int % order(),
{
    (Scalar::from_bytes_mod_order(*a) * Scalar::from_bytes_mod_order(*b)).to_bytes()
}

/// `Scalar + Scalar`, with `Scalar::from_bytes_mod_order` before and `to_bytes` after it:
/// the reduced sum.
#[verifier::external_body]
pub(crate) fn scalar_sum(a: &Key, b: &Key) -> (sum: Key)
    ensures
        le_value(sum@) == (le_value(a@) + le_value(b@)) as int % order(),
{
    (Scalar::from_bytes_mod_order(*a) + Scalar::from_bytes_mod_order(*b)).to_bytes()
}

/// `Scalar - Scalar`, with `Scalar::from_bytes_mod_order` before and `to_bytes` after it:
/// the reduced difference.
#[verifier::external_body]
pub(crate) fn scalar_difference(a: &Key, b: &Key) -> (difference: Key)
    ensures
        le_value(difference@) == (le_value(a@) - le_value(b@)) % order(),
{
    (Scalar::from_bytes_mod_order(*a) - Scalar::from_bytes_mod_order(*b)).to_bytes()
}

/// `Scalar::invert`, with `Scalar::from_bytes_mod_order` before and `to_bytes` after it:
/// the reduced inverse of a scalar that is not zero. On zero its addition chain multiplies
/// zeros and gives zero.
#[verifier::external_body]
pub(crate) fn scalar_inverse(a: &Key) -> (inverted: Key)
    ensures
        le_value(inverted@) < order(),
        le_value(a@) as int % order() != 0 ==> congruent(
            (le_value(a@) * le_value(inverted@)) as int,
            1,
        ),
        le_value(a@) as int % order() == 0 ==> le_value(inverted@) == 0,
{
    Scalar::from_bytes_mod_order(*a).invert().to_bytes()
}

/// `Scalar::from` on a 64-bit integer: the scalar of that integer.
#[verifier::external_body]
pub(crate) fn scalar_from_u64(value: u64) -> (scalar: Key)
    ensures
        le_value(scalar@) == value,
{
    Scalar::from(value).to_bytes()
}

/// `Scalar::from_bytes_mod_order_wide`: the residue of a 512-bit integer.
#[verifier::external_body]
pub(crate) fn scalar_from_wide(bytes: &[u8; 64]) -> (scalar: Key)
    ensures
        le_value(scalar@) == le_value(bytes@) as int % order(),
{
    Scalar::from_bytes_mod_order_wide(bytes).to_bytes()
}

/// The scalar zero.
pub fn scalar_zero() -> (zero: Key)
    ensures
        le_value(zero@) == 0,
        is_canonical(zero@),
{
    let zero: Key = [0u8; 32];
    proof {
        lemma_zeros(zero@);
    }
    zero
}

proof fn lemma_zeros(bytes: Seq<u8>)
    requires
        forall|i: int| 0 <= i < bytes.len() ==> bytes[i] == 0,
    ensures
        le_value(bytes) == 0,
    decreases bytes.len(),
{
    if bytes.len() > 0 {
        lemma_zeros(bytes.drop_first());
    }
}

/// The value at `x` of the polynomial with these coefficients, lowest degree first.
pub fn eval_poly(coefficients: &[Key], x: &Key) -> (value: Key)
    ensures
        is_canonical(value@),
        le_value(value@) == evaluate(scalar_values(coefficients@), scalar_value(x@)) % order(),
{
    let mut value = scalar_zero();
    let mut i: usize = coefficients.len();
    let ghost cs = scalar_values(coefficients@);
    proof {
        assert(cs.skip(cs.len() as int) =~= Seq::<int>::empty());
        lemma_residue(0);
        assert(evaluate(Seq::<int>::empty(), scalar_value(x@)) == 0);
    }
    while i > 0
        invariant
            i <= coefficients@.len(),
            cs == scalar_values(coefficients@),
            is_canonical(value@),
            congruent(le_value(value@) as int, evaluate(cs.skip(i as int), scalar_value(x@))),
        decreases i,
    {
        i -= 1;
        let scaled = scalar_product(&value, x);
        let ghost before = value;
        value = scalar_sum(&scaled, &coefficients[i]);
        proof {
            let xv = scalar_value(x@);
            let tail = cs.skip(i as int);
            assert(tail.drop_first() =~= cs.skip(i + 1));
            assert(tail[0] == scalar_value(coefficients@[i as int]@));
            let rest = evaluate(cs.skip(i + 1), xv);
            let b = le_value(before@) as int;
            let s = le_value(scaled@) as int;
            let c = le_value(coefficients@[i as int]@) as int;
            lemma_residue(le_value(x@) as int);
            lemma_congruent_mul(b, rest, le_value(x@) as int, xv);
            lemma_residue(b * le_value(x@) as int);
            lemma_congruent_trans(s, b * le_value(x@) as int, rest * xv);
            lemma_residue(c);
            lemma_congruent_add(s, rest * xv, c, tail[0]);
            lemma_residue(s + c);
            lemma_congruent_trans(le_value(value@) as int, s + c, rest * xv + tail[0]);
            assert(rest * xv == xv * rest) by (nonlinear_arith);
        }
    }
    proof {
        assert(cs.skip(0) =~= cs);
        lemma_same_residue(le_value(value@) as int, evaluate(cs, scalar_value(x@)));
        lemma_canonical_residue(value@);
    }
    value
}

/// Numbers that differ modulo the order.
pub open spec fn all_different(values: Seq<int>) -> bool {
    forall|i: int, j: int|
        0 <= i < values.len() && 0 <= j < values.len() && i != j ==> (#[trigger] values[j]
            - #[trigger] values[i]) % order() != 0
}

/// The factor `o / (o - x)` of a Lagrange weight.
fn lagrange_factor(x: &Key, o: &Key) -> (factor: Key)
    ensures
        is_canonical(factor@),
        congruent(
            le_value(factor@) as int,
            scalar_value(o@) * inverse(scalar_value(o@) - scalar_value(x@)),
        ),
        (scalar_value(o@) - scalar_value(x@)) % order() != 0 ==> apart(
            scalar_value(o@),
            scalar_value(x@),
        ),
{
    let difference = scalar_difference(o, x);
    let inverted = scalar_inverse(&difference);
    let factor = scalar_product(o, &inverted);
    proof {
        let xv = scalar_value(x@);
        let ov = scalar_value(o@);
        let d = le_value(difference@) as int;
        let e = le_value(inverted@) as int;
        lemma_residue(le_value(o@) as int);
        lemma_residue(le_value(x@) as int);
        lemma_congruent_sub(le_value(o@) as int, ov, le_value(x@) as int, xv);
        lemma_residue(le_value(o@) - le_value(x@));
        lemma_congruent_trans(d, le_value(o@) - le_value(x@), ov - xv);
        lemma_same_residue(d, ov - xv);
        assert(congruent(e, e));
        if (ov - xv) % order() != 0 {
            lemma_congruent_mul(d, ov - xv, e, e);
            lemma_congruent_sym(d * e, (ov - xv) * e);
            lemma_congruent_trans((ov - xv) * e, d * e, 1);
            lemma_inverse(ov - xv);
            lemma_inverse_unique(ov - xv, e, inverse(ov - xv));
        }
        lemma_congruent_mul(le_value(o@) as int, ov, e, inverse(ov - xv));
        lemma_residue(le_value(o@) as int * e);
        lemma_congruent_trans(
            le_value(factor@) as int,
            le_value(o@) as int * e,
            ov * inverse(ov - xv),
        );
    }
    factor
}

/// The Lagrange weights at zero of a sequence of points.
pub fn lagrange_lambdas_at_zero(xs: &[Key]) -> (lambdas: Vec<Key>)
    ensures
        lambdas@.len() == xs@.len(),
        forall|i: int| 0 <= i < xs@.len() ==> is_canonical(#[trigger] lambdas@[i]@),
        forall|i: int|
            0 <= i < xs@.len() ==> le_value(#[trigger] lambdas@[i]@) == weight(
                scalar_values(xs@)[i],
                scalar_values(xs@).remove(i),
            ) % order(),
        all_different(scalar_values(xs@)) ==> separated(scalar_values(xs@)),
{
    let ghost vs = scalar_values(xs@);
    let one = scalar_from_u64(1);
    let mut lambdas: Vec<Key> = Vec::new();
    let mut i: usize = 0;
    while i < xs.len()
        invariant
            i <= xs@.len(),
            vs == scalar_values(xs@),
            le_value(one@) == 1,
            lambdas@.len() == i,
            forall|k: int| 0 <= k < i ==> is_canonical(#[trigger] lambdas@[k]@),
            forall|k: int|
                0 <= k < i ==> le_value(#[trigger] lambdas@[k]@) == weight(vs[k], vs.remove(k))
                    % order(),
            all_different(vs) ==> forall|k: int, j: int|
                0 <= k < i && 0 <= j < vs.len() && k != j ==> #[trigger] apart(vs[j], vs[k]),
        decreases xs@.len() - i,
    {
        let ghost others = vs.remove(i as int);
        let mut product = one;
        let mut j: usize = 0;
        proof {
            assert(others.take(0) =~= Seq::<int>::empty());
            lemma_residue(1);
        }
        while j < xs.len()
            invariant
                i < xs@.len(),
                j <= xs@.len(),
                vs == scalar_values(xs@),
                others == vs.remove(i as int),
                is_canonical(product@),
                congruent(
                    le_value(product@) as int,
                    weight(vs[i as int], others.take(if j <= i { j as int } else { j - 1 })),
                ),
                all_different(vs) ==> forall|k: int|
                    0 <= k < j && k != i ==> #[trigger] apart(vs[k], vs[i as int]),
            decreases xs@.len() - j,
        {
            if j != i {
                let factor = lagrange_factor(&xs[i], &xs[j]);
                let ghost before = product;
                product = scalar_product(&product, &factor);
                proof {
                    let k = if j < i { j as int } else { j - 1 };
                    let prefix = others.take(k + 1);
                    assert(prefix.drop_last() =~= others.take(k));
                    assert(prefix.last() == vs[j as int]);
                    let f = vs[j as int] * inverse(vs[j as int] - vs[i as int]);
                    lemma_congruent_mul(
                        le_value(before@) as int,
                        weight(vs[i as int], others.take(k)),
                        le_value(factor@) as int,
                        f,
                    );
                    lemma_residue(le_value(before@) as int * le_value(factor@) as int);
                    lemma_congruent_trans(
                        le_value(product@) as int,
                        le_value(before@) as int * le_value(factor@) as int,
                        weight(vs[i as int], prefix),
                    );
                    if all_different(vs) {
                        assert((vs[j as int] - vs[i as int]) % order() != 0);
                    }
                }
            }
            j += 1;
        }
        proof {
            assert(others.take(others.len() as int) =~= others);
            lemma_same_residue(le_value(product@) as int, weight(vs[i as int], others));
            lemma_canonical_residue(product@);
        }
        lambdas.push(product);
        i += 1;
    }
    lambdas
}

/// The numbers of a sequence of provider identifiers.
pub open spec fn id_values(ids: Seq<u32>) -> Seq<int> {
    ids.map_values(|id: u32| id as int)
}

/// The Lagrange weights at zero of the providers, reduced.
pub open spec fn id_weights(ids: Seq<u32>) -> Seq<int> {
    Seq::new(
        ids.len(),
        |i: int|
            weight(id_values(ids)[i], id_values(ids).remove(i)) % order(),
    )
}

/// The Lagrange weights at zero of a sequence of provider identifiers.
pub fn lagrange_coeffs_at_zero(ids: &[u32]) -> (lambdas: Vec<Key>)
    ensures
        lambdas@.len() == ids@.len(),
        forall|i: int| 0 <= i < ids@.len() ==> is_canonical(#[trigger] lambdas@[i]@),
        forall|i: int|
            0 <= i < ids@.len() ==> le_value(#[trigger] lambdas@[i]@) == weight(
                id_values(ids@)[i],
                id_values(ids@).remove(i),
            ) % order(),
        ids@.no_duplicates() ==> separated(id_values(ids@)),
{
    let mut xs: Vec<Key> = Vec::new();
    let mut i: usize = 0;
    while i < ids.len()
        invariant
            i <= ids@.len(),
            xs@.len() == i,
            forall|k: int| 0 <= k < i ==> le_value(#[trigger] xs@[k]@) == ids@[k],
        decreases ids@.len() - i,
    {
        xs.push(scalar_from_u64(ids[i] as u64));
        i += 1;
    }
    proof {
        let vs = scalar_values(xs@);
        assert forall|k: int| 0 <= k < ids@.len() implies vs[k] == id_values(ids@)[k] by {
            vstd::arithmetic::div_mod::lemma_small_mod(le_value(xs@[k]@), order() as nat);
        }
        assert(vs =~= id_values(ids@));
        if ids@.no_duplicates() {
            assert forall|a: int, b: int|
                0 <= a < vs.len() && 0 <= b < vs.len() && a != b implies (#[trigger] vs[b]
                - #[trigger] vs[a]) % order() != 0 by {
                lemma_small_difference(ids@[b] as int, ids@[a] as int);
            }
        }
    }
    lagrange_lambdas_at_zero(xs.as_slice())
}

/// Different numbers below the order differ modulo the order.
pub proof fn lemma_small_difference(a: int, b: int)
    requires
        0 <= a < order(),
        0 <= b < order(),
        a != b,
    ensures
        (a - b) % order() != 0,
{
    if a > b {
        vstd::arithmetic::div_mod::lemma_small_mod((a - b) as nat, order() as nat);
    } else {
        vstd::arithmetic::div_mod::lemma_small_mod((a - b + order()) as nat, order() as nat);
        vstd::arithmetic::div_mod::lemma_mod_multiples_vanish(-1, a - b + order(), order());
        assert(order() * -1 + (a - b + order()) == a - b);
    }
}

/// The residue of a reduced scalar is its number.
pub proof fn lemma_canonical_residue(bytes: Seq<u8>)
    requires
        is_canonical(bytes),
    ensures
        scalar_value(bytes) == le_value(bytes),
{
    vstd::arithmetic::div_mod::lemma_small_mod(le_value(bytes), order() as nat);
}

} // verus!
