//! Arithmetic modulo the order of the group, and interpolation of polynomials at zero.

use vstd::arithmetic::div_mod::{
    lemma_fundamental_div_mod, lemma_mod_multiples_vanish, lemma_small_mod,
};
use vstd::prelude::*;

verus! {

/// The prime order of the Ristretto group: 2^252 + 27742317777372353535851937790883648493.
pub open spec fn order() -> int {
    7237005577332262213973186563042994240857116359379907606001950938285454250989int
}

/// Equality modulo the order.
pub open spec fn congruent(a: int, b: int) -> bool {
    (a - b) % order() == 0
}

/// A number with an inverse modulo the order.
pub open spec fn invertible(d: int) -> bool {
    exists|b: int| #[trigger] congruent(d * b, 1)
}

/// An inverse modulo the order, and zero for multiples of the order.
pub open spec fn inverse(d: int) -> int {
    if d % order() == 0 {
        0
    } else {
        choose|b: int| #[trigger] congruent(d * b, 1)
    }
}

/// The Lagrange weight at zero of the point `x` beside the points `others`:
/// the product of `o / (o - x)` over them.
pub open spec fn weight(x: int, others: Seq<int>) -> int
    decreases others.len(),
{
    if others.len() == 0 {
        1
    } else {
        weight(x, others.drop_last()) * (others.last() * inverse(others.last() - x))
    }
}

/// The sum of a sequence.
pub open spec fn total(terms: Seq<int>) -> int
    decreases terms.len(),
{
    if terms.len() == 0 {
        0
    } else {
        total(terms.drop_last()) + terms.last()
    }
}

/// The terms whose sum is the value at zero of the polynomial through the points.
pub open spec fn weighted(xs: Seq<int>, ys: Seq<int>) -> Seq<int> {
    Seq::new(xs.len(), |i: int| weight(xs[i], xs.remove(i)) * ys[i])
}

/// The value at zero of the polynomial of least degree through the points.
pub open spec fn interpolate(xs: Seq<int>, ys: Seq<int>) -> int {
    total(weighted(xs, ys))
}

/// Two points whose difference has an inverse.
pub open spec fn apart(a: int, b: int) -> bool {
    invertible(a - b)
}

/// Points whose differences have inverses.
pub open spec fn separated(xs: Seq<int>) -> bool {
    forall|i: int, j: int|
        0 <= i < xs.len() && 0 <= j < xs.len() && i != j ==> #[trigger] apart(xs[j], xs[i])
}

/// The value of the polynomial with these coefficients, lowest degree first.
pub open spec fn evaluate(coefficients: Seq<int>, x: int) -> int
    decreases coefficients.len(),
{
    if coefficients.len() == 0 {
        0
    } else {
        coefficients[0] + x * evaluate(coefficients.drop_first(), x)
    }
}

/// The coefficients of `(f(x) - f(a)) / (x - a)`.
pub open spec fn quotient(coefficients: Seq<int>, a: int) -> Seq<int>
    decreases coefficients.len(),
{
    if coefficients.len() <= 1 {
        Seq::empty()
    } else {
        seq![evaluate(coefficients.drop_first(), a)] + quotient(coefficients.drop_first(), a)
    }
}

pub proof fn lemma_congruent_by(a: int, b: int, k: int)
    requires
        a - b == k * order(),
    ensures
        congruent(a, b),
{
    lemma_mod_multiples_vanish(k, 0, order());
    assert((k * order()) % order() == 0) by {
        assert(order() * k + 0 == k * order()) by (nonlinear_arith);
    }
}

pub proof fn lemma_congruent_factor(a: int, b: int) -> (k: int)
    requires
        congruent(a, b),
    ensures
        a - b == k * order(),
{
    let k = (a - b) / order();
    lemma_fundamental_div_mod(a - b, order());
    assert(order() * k == k * order()) by (nonlinear_arith);
    k
}

pub proof fn lemma_congruent_trans(a: int, b: int, c: int)
    requires
        congruent(a, b),
        congruent(b, c),
    ensures
        congruent(a, c),
{
    let k = lemma_congruent_factor(a, b);
    let h = lemma_congruent_factor(b, c);
    assert(k * order() + h * order() == (k + h) * order()) by (nonlinear_arith);
    lemma_congruent_by(a, c, k + h);
}

pub proof fn lemma_congruent_sym(a: int, b: int)
    requires
        congruent(a, b),
    ensures
        congruent(b, a),
{
    let k = lemma_congruent_factor(a, b);
    assert(-(k * order()) == (-k) * order()) by (nonlinear_arith);
    lemma_congruent_by(b, a, -k);
}

pub proof fn lemma_congruent_add(a: int, b: int, c: int, d: int)
    requires
        congruent(a, b),
        congruent(c, d),
    ensures
        congruent(a + c, b + d),
{
    let k = lemma_congruent_factor(a, b);
    let h = lemma_congruent_factor(c, d);
    assert(k * order() + h * order() == (k + h) * order()) by (nonlinear_arith);
    lemma_congruent_by(a + c, b + d, k + h);
}

pub proof fn lemma_congruent_sub(a: int, b: int, c: int, d: int)
    requires
        congruent(a, b),
        congruent(c, d),
    ensures
        congruent(a - c, b - d),
{
    let k = lemma_congruent_factor(a, b);
    let h = lemma_congruent_factor(c, d);
    assert(k * order() - h * order() == (k - h) * order()) by (nonlinear_arith);
    lemma_congruent_by(a - c, b - d, k - h);
}

pub proof fn lemma_congruent_mul(a: int, b: int, c: int, d: int)
    requires
        congruent(a, b),
        congruent(c, d),
    ensures
        congruent(a * c, b * d),
{
    let k = lemma_congruent_factor(a, b);
    let h = lemma_congruent_factor(c, d);
    let l = order();
    assert(a * c - b * d == (k * c + b * h) * l) by (nonlinear_arith)
        requires
            a - b == k * l,
            c - d == h * l,
    ;
    lemma_congruent_by(a * c, b * d, k * c + b * h);
}

/// A number is congruent to its residue.
pub proof fn lemma_residue(a: int)
    ensures
        congruent(a % order(), a),
        congruent(a, a % order()),
        0 <= a % order() < order(),
{
    lemma_fundamental_div_mod(a, order());
    let k = a / order();
    assert(order() * k == k * order()) by (nonlinear_arith);
    lemma_congruent_by(a, a % order(), k);
    lemma_congruent_sym(a, a % order());
}

/// Congruent numbers have the same residue.
pub proof fn lemma_same_residue(a: int, b: int)
    requires
        congruent(a, b),
    ensures
        a % order() == b % order(),
{
    let k = lemma_congruent_factor(a, b);
    lemma_mod_multiples_vanish(k, b, order());
    assert(order() * k == k * order()) by (nonlinear_arith);
}

pub proof fn lemma_inverse(d: int)
    requires
        invertible(d),
    ensures
        congruent(d * inverse(d), 1),
{
    if d % order() == 0 {
        let b = choose|b: int| #[trigger] congruent(d * b, 1);
        assert(congruent(d, 0));
        assert(congruent(b, b));
        lemma_congruent_mul(d, 0, b, b);
        assert(0 * b == 0) by (nonlinear_arith);
        lemma_congruent_sym(d * b, 0);
        lemma_congruent_trans(0, d * b, 1);
        assert(!congruent(0, 1)) by {
            lemma_small_mod((order() - 1) as nat, order() as nat);
            lemma_mod_multiples_vanish(-1, order() - 1, order());
            assert(order() * -1 + (order() - 1) == 0 - 1);
        }
    }
}

/// Inverses are unique up to congruence.
pub proof fn lemma_inverse_unique(d: int, b: int, c: int)
    requires
        congruent(d * b, 1),
        congruent(d * c, 1),
    ensures
        congruent(b, c),
{
    lemma_congruent_mul(d * b, 1, c, c);
    lemma_congruent_mul(d * c, 1, b, b);
    assert(d * b * c == d * c * b) by (nonlinear_arith);
    lemma_congruent_sym(d * c * b, 1 * b);
    lemma_congruent_trans(1 * b, d * b * c, 1 * c);
}

/// The factor of one of the other points can be taken out of a weight.
proof fn lemma_weight_take_out(x: int, others: Seq<int>, k: int)
    requires
        0 <= k < others.len(),
    ensures
        weight(x, others) == weight(x, others.remove(k)) * (others[k] * inverse(others[k] - x)),
    decreases others.len(),
{
    if k < others.len() - 1 {
        let rest = others.drop_last();
        lemma_weight_take_out(x, rest, k);
        let out = others.remove(k);
        assert(out.drop_last() =~= rest.remove(k));
        assert(out.last() == others.last());
        let w = weight(x, rest.remove(k));
        let fk = others[k] * inverse(others[k] - x);
        let fl = others.last() * inverse(others.last() - x);
        assert(w * fk * fl == w * fl * fk) by (nonlinear_arith);
    } else {
        assert(others.remove(k) =~= others.drop_last());
    }
}

proof fn lemma_total_take_out(terms: Seq<int>, k: int)
    requires
        0 <= k < terms.len(),
    ensures
        total(terms) == total(terms.remove(k)) + terms[k],
    decreases terms.len(),
{
    if k < terms.len() - 1 {
        lemma_total_take_out(terms.drop_last(), k);
        assert(terms.remove(k).drop_last() =~= terms.drop_last().remove(k));
        assert(terms.remove(k).last() == terms.last());
    } else {
        assert(terms.remove(k) =~= terms.drop_last());
    }
}

/// Term by term congruent sequences have congruent sums.
pub proof fn lemma_total_congruent(a: Seq<int>, b: Seq<int>)
    requires
        a.len() == b.len(),
        forall|i: int| 0 <= i < a.len() ==> congruent(#[trigger] a[i], b[i]),
    ensures
        congruent(total(a), total(b)),
    decreases a.len(),
{
    if a.len() > 0 {
        lemma_total_congruent(a.drop_last(), b.drop_last());
        assert(congruent(a[a.len() - 1], b[b.len() - 1]));
        lemma_congruent_add(total(a.drop_last()), total(b.drop_last()), a.last(), b.last());
    }
}

pub proof fn lemma_total_scale(terms: Seq<int>, c: int, scaled: Seq<int>)
    requires
        scaled.len() == terms.len(),
        forall|i: int| 0 <= i < terms.len() ==> #[trigger] scaled[i] == c * terms[i],
    ensures
        total(scaled) == c * total(terms),
    decreases terms.len(),
{
    if terms.len() > 0 {
        lemma_total_scale(terms.drop_last(), c, scaled.drop_last());
        assert(scaled.last() == c * terms.last());
        assert(c * total(terms.drop_last()) + c * terms.last() == c * (total(terms.drop_last())
            + terms.last())) by (nonlinear_arith);
    } else {
        assert(c * 0 == 0) by (nonlinear_arith);
    }
}

proof fn lemma_total_add(a: Seq<int>, b: Seq<int>, sum: Seq<int>)
    requires
        a.len() == b.len() == sum.len(),
        forall|i: int| 0 <= i < a.len() ==> #[trigger] sum[i] == a[i] + b[i],
    ensures
        total(sum) == total(a) + total(b),
    decreases a.len(),
{
    if a.len() > 0 {
        lemma_total_add(a.drop_last(), b.drop_last(), sum.drop_last());
        assert(sum.last() == a.last() + b.last());
    }
}

proof fn lemma_shift_term(whole: int, w: int, x: int, a: int, g: int)
    requires
        invertible(a - x),
        whole == w * (a * inverse(a - x)),
    ensures
        congruent(whole * ((x - a) * g), -a * (w * g)),
{
    let d = a - x;
    let e = inverse(d);
    let tail = -a * (w * g);
    lemma_inverse(d);
    assert(whole * ((x - a) * g) == (d * e) * tail) by (nonlinear_arith)
        requires
            whole == w * (a * e),
            tail == -a * (w * g),
            d == a - x,
    ;
    assert(congruent(tail, tail));
    lemma_congruent_mul(d * e, 1, tail, tail);
}

/// Values that carry the factor `x - xs[m]` interpolate to those of the other points,
/// times minus `xs[m]`.
proof fn lemma_shift(xs: Seq<int>, m: int, ys: Seq<int>, gs: Seq<int>)
    requires
        separated(xs),
        0 <= m < xs.len(),
        ys.len() == xs.len(),
        gs.len() == xs.len(),
        forall|i: int| 0 <= i < xs.len() ==> #[trigger] ys[i] == (xs[i] - xs[m]) * gs[i],
    ensures
        congruent(interpolate(xs, ys), -xs[m] * interpolate(xs.remove(m), gs.remove(m))),
{
    let a = xs[m];
    let rest = xs.remove(m);
    let grest = gs.remove(m);
    let terms = weighted(xs, ys);
    let inner = weighted(rest, grest);
    lemma_total_take_out(terms, m);
    assert(terms[m] == 0) by {
        assert(ys[m] == (xs[m] - xs[m]) * gs[m]);
        assert((xs[m] - xs[m]) * gs[m] == 0) by (nonlinear_arith);
        let w = weight(xs[m], xs.remove(m));
        assert(w * 0 == 0) by (nonlinear_arith);
    }
    let scaled = Seq::new(rest.len(), |i: int| -a * inner[i]);
    lemma_total_scale(inner, -a, scaled);
    let left = terms.remove(m);
    assert forall|i: int| 0 <= i < left.len() implies congruent(#[trigger] left[i], scaled[i]) by {
        let j = if i < m { i } else { i + 1 };
        let x = xs[j];
        let g = gs[j];
        assert(rest[i] == x && grest[i] == g);
        assert(left[i] == weight(x, xs.remove(j)) * ys[j]);
        let k = if m < j { m } else { m - 1 };
        let others = xs.remove(j);
        assert(others[k] == a);
        lemma_weight_take_out(x, others, k);
        assert(others.remove(k) =~= rest.remove(i));
        let w = weight(x, rest.remove(i));
        assert(apart(xs[m], xs[j]));
        assert(ys[j] == (x - a) * g);
        lemma_shift_term(weight(x, others), w, x, a, g);
        let tail = -a * (w * g);
        assert(scaled[i] == tail);
    }
    lemma_total_congruent(left, scaled);
}

/// The constant one interpolates to one.
proof fn lemma_interpolate_one(xs: Seq<int>, ones: Seq<int>)
    requires
        separated(xs),
        xs.len() >= 1,
        ones.len() == xs.len(),
        forall|i: int| 0 <= i < ones.len() ==> #[trigger] ones[i] == 1,
    ensures
        congruent(interpolate(xs, ones), 1),
    decreases xs.len(),
{
    let n = xs.len() as int;
    if n == 1 {
        assert(xs.remove(0) =~= Seq::<int>::empty());
        assert(weighted(xs, ones)[0] == 1);
        assert(weighted(xs, ones).drop_last() =~= Seq::<int>::empty());
        assert(total(weighted(xs, ones).drop_last()) == 0);
        lemma_small_mod(0, order() as nat);
    } else {
        let a = xs[n - 1];
        let b = xs[n - 2];
        let ya = Seq::new(xs.len(), |i: int| (xs[i] - xs[n - 1]) * ones[i]);
        let yb = Seq::new(xs.len(), |i: int| (xs[i] - xs[n - 2]) * ones[i]);
        lemma_shift(xs, n - 1, ya, ones);
        lemma_shift(xs, n - 2, yb, ones);
        lemma_separated_remove(xs, n - 1);
        lemma_separated_remove(xs, n - 2);
        lemma_interpolate_one(xs.remove(n - 1), ones.remove(n - 1));
        lemma_interpolate_one(xs.remove(n - 2), ones.remove(n - 2));
        lemma_residue(-a);
        lemma_congruent_trans(-a, (-a) % order(), -a);
        lemma_residue(-b);
        lemma_congruent_trans(-b, (-b) % order(), -b);
        let ia = interpolate(xs, ya);
        let ib = interpolate(xs, yb);
        let one = interpolate(xs, ones);
        lemma_congruent_mul(-a, -a, interpolate(xs.remove(n - 1), ones.remove(n - 1)), 1);
        lemma_congruent_trans(
            ia,
            -a * interpolate(xs.remove(n - 1), ones.remove(n - 1)),
            -a * 1,
        );
        lemma_congruent_mul(-b, -b, interpolate(xs.remove(n - 2), ones.remove(n - 2)), 1);
        lemma_congruent_trans(
            ib,
            -b * interpolate(xs.remove(n - 2), ones.remove(n - 2)),
            -b * 1,
        );
        lemma_congruent_sub(ia, -a * 1, ib, -b * 1);
        // The two differ by (b - a) times the interpolation of one.
        let d = b - a;
        let scaled = Seq::new(xs.len(), |i: int| d * weighted(xs, ones)[i]);
        lemma_total_scale(weighted(xs, ones), d, scaled);
        let wb = weighted(xs, yb);
        let wa = weighted(xs, ya);
        assert forall|i: int| 0 <= i < xs.len() implies #[trigger] wa[i] == wb[i] + scaled[i] by {
            let w = weight(xs[i], xs.remove(i));
            let x = xs[i];
            let v = ones[i];
            assert(w * ((x - a) * v) == w * ((x - b) * v) + (b - a) * (w * v)) by (nonlinear_arith);
        }
        lemma_total_add(wb, scaled, wa);
        assert(ia - ib == d * one);
        assert(congruent(d * one, d));
        assert(apart(xs[n - 2], xs[n - 1]));
        lemma_inverse(d);
        let e = inverse(d);
        lemma_residue(e);
        lemma_congruent_trans(e, e % order(), e);
        lemma_congruent_mul(e, e, d * one, d);
        assert(e * d == d * e && e * (d * one) == (d * e) * one) by (nonlinear_arith);
        lemma_residue(one);
        lemma_congruent_trans(one, one % order(), one);
        lemma_congruent_mul(d * e, 1, one, one);
        lemma_congruent_sym((d * e) * one, 1 * one);
        lemma_congruent_trans(one, (d * e) * one, d * e);
        lemma_congruent_trans(one, d * e, 1);
    }
}

proof fn lemma_separated_remove(xs: Seq<int>, m: int)
    requires
        separated(xs),
        0 <= m < xs.len(),
    ensures
        separated(xs.remove(m)),
{
    let rest = xs.remove(m);
    assert forall|i: int, j: int|
        0 <= i < rest.len() && 0 <= j < rest.len() && i != j implies #[trigger] apart(
        rest[j],
        rest[i],
    ) by {
        let p = if i < m { i } else { i + 1 };
        let q = if j < m { j } else { j + 1 };
        assert(apart(xs[q], xs[p]));
    }
}

proof fn lemma_quotient(coefficients: Seq<int>, a: int, x: int)
    ensures
        coefficients.len() > 0 ==> quotient(coefficients, a).len() == coefficients.len() - 1,
        evaluate(coefficients, x) == evaluate(coefficients, a) + (x - a) * evaluate(
            quotient(coefficients, a),
            x,
        ),
    decreases coefficients.len(),
{
    let q = quotient(coefficients, a);
    if coefficients.len() == 0 {
        assert((x - a) * 0 == 0) by (nonlinear_arith);
    } else if coefficients.len() == 1 {
        assert(coefficients.drop_first() =~= Seq::<int>::empty());
        assert(x * 0 == 0 && a * 0 == 0 && (x - a) * 0 == 0) by (nonlinear_arith);
        assert(evaluate(coefficients.drop_first(), x) == 0);
        assert(evaluate(coefficients.drop_first(), a) == 0);
        assert(evaluate(q, x) == 0);
    } else {
        let rest = coefficients.drop_first();
        lemma_quotient(rest, a, x);
        let qr = quotient(rest, a);
        assert(q.drop_first() =~= qr);
        assert(q.len() > 0 && q[0] == evaluate(rest, a));
        assert(evaluate(q, x) == q[0] + x * evaluate(qr, x));
        let c = coefficients[0];
        let ra = evaluate(rest, a);
        let rx = evaluate(rest, x);
        let qx = evaluate(qr, x);
        assert(c + x * rx == c + a * ra + (x - a) * (ra + x * qx)) by (nonlinear_arith)
            requires
                rx == ra + (x - a) * qx,
        ;
    }
}

/// Interpolation at zero recovers the constant coefficient of every polynomial with at
/// most as many coefficients as there are points.
pub proof fn law_interpolation_recovers_the_constant(
    xs: Seq<int>,
    coefficients: Seq<int>,
    ys: Seq<int>,
)
    requires
        separated(xs),
        1 <= coefficients.len() <= xs.len(),
        ys.len() == xs.len(),
        forall|i: int| 0 <= i < xs.len() ==> congruent(#[trigger] ys[i], evaluate(coefficients, xs[i])),
    ensures
        congruent(interpolate(xs, ys), coefficients[0]),
    decreases xs.len(),
{
    let exact = Seq::new(xs.len(), |i: int| evaluate(coefficients, xs[i]));
    assert forall|i: int| 0 <= i < xs.len() implies congruent(
        #[trigger] weighted(xs, ys)[i],
        weighted(xs, exact)[i],
    ) by {
        let w = weight(xs[i], xs.remove(i));
        lemma_residue(w);
        lemma_congruent_trans(w, w % order(), w);
        assert(congruent(ys[i], exact[i]));
        lemma_congruent_mul(w, w, ys[i], exact[i]);
    }
    lemma_total_congruent(weighted(xs, ys), weighted(xs, exact));
    lemma_interpolate_exact(xs, coefficients, exact);
    lemma_congruent_trans(interpolate(xs, ys), interpolate(xs, exact), coefficients[0]);
}

proof fn lemma_interpolate_exact(xs: Seq<int>, coefficients: Seq<int>, exact: Seq<int>)
    requires
        separated(xs),
        1 <= coefficients.len() <= xs.len(),
        exact.len() == xs.len(),
        forall|i: int| 0 <= i < xs.len() ==> #[trigger] exact[i] == evaluate(coefficients, xs[i]),
    ensures
        congruent(interpolate(xs, exact), coefficients[0]),
    decreases xs.len(),
{
    let n = xs.len() as int;
    let a = xs[n - 1];
    let fa = evaluate(coefficients, a);
    let q = quotient(coefficients, a);
    let ones = Seq::new(xs.len(), |i: int| 1int);
    lemma_interpolate_one(xs, ones);
    let qs = Seq::new(xs.len(), |i: int| evaluate(q, xs[i]));
    let shifted = Seq::new(xs.len(), |i: int| (xs[i] - xs[n - 1]) * qs[i]);
    lemma_shift(xs, n - 1, shifted, qs);
    let scaled = Seq::new(xs.len(), |i: int| fa * weighted(xs, ones)[i]);
    lemma_total_scale(weighted(xs, ones), fa, scaled);
    let ws = weighted(xs, shifted);
    let we = weighted(xs, exact);
    assert forall|i: int| 0 <= i < xs.len() implies #[trigger] we[i] == scaled[i] + ws[i] by {
        let w = weight(xs[i], xs.remove(i));
        let x = xs[i];
        lemma_quotient(coefficients, a, x);
        let qx = evaluate(q, x);
        assert(w * (fa + (x - a) * qx) == fa * (w * 1) + w * ((x - a) * qx)) by (nonlinear_arith);
        assert(exact[i] == fa + (x - a) * qx);
    }
    lemma_total_add(scaled, ws, we);
    lemma_residue(fa);
    lemma_congruent_trans(fa, fa % order(), fa);
    lemma_congruent_mul(fa, fa, interpolate(xs, ones), 1);
    // f(0) = f(a) - a q(0)
    lemma_quotient(coefficients, a, 0);
    let q0 = if q.len() == 0 { 0 } else { q[0] };
    assert(evaluate(q, 0) == q0) by {
        if q.len() > 0 {
            let r = evaluate(q.drop_first(), 0);
            assert(0 * r == 0) by (nonlinear_arith);
        }
    }
    assert(evaluate(coefficients, 0) == coefficients[0]) by {
        let r = evaluate(coefficients.drop_first(), 0);
        assert(0 * r == 0) by (nonlinear_arith);
    }
    let rest = xs.remove(n - 1);
    let qrest = qs.remove(n - 1);
    let inner = interpolate(rest, qrest);
    lemma_residue(-a);
    lemma_congruent_trans(-a, (-a) % order(), -a);
    if q.len() == 0 {
        let zeros = weighted(rest, qrest);
        assert forall|i: int| 0 <= i < zeros.len() implies #[trigger] zeros[i] == 0 * ones[i] by {
            let w = weight(rest[i], rest.remove(i));
            assert(w * 0 == 0) by (nonlinear_arith);
            assert(qrest[i] == 0);
        }
        lemma_total_scale(ones.remove(n - 1), 0, zeros);
        assert(inner == 0 * total(ones.remove(n - 1)));
        assert(inner == 0) by (nonlinear_arith)
            requires
                inner == 0 * total(ones.remove(n - 1)),
        ;
        lemma_small_mod(0, order() as nat);
        assert(congruent(inner, q0));
    } else {
        lemma_separated_remove(xs, n - 1);
        lemma_interpolate_exact(rest, q, qrest);
    }
    lemma_congruent_mul(-a, -a, inner, q0);
    lemma_congruent_trans(interpolate(xs, shifted), -a * inner, -a * q0);
    lemma_congruent_add(
        fa * interpolate(xs, ones),
        fa * 1,
        interpolate(xs, shifted),
        -a * q0,
    );
    assert((0 - a) * q0 == -a * q0) by (nonlinear_arith);
}

} // verus!
