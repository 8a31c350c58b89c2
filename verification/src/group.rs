//! Elements of the Ristretto group as compressed 32-byte encodings.

use vstd::prelude::*;

use curve25519_dalek::ristretto::{CompressedRistretto, RistrettoPoint};
use curve25519_dalek::scalar::Scalar;

use crate::interpolation::{lemma_congruent_add, lemma_residue, lemma_same_residue, order, total};
use crate::messages::Key;
use crate::scalar::{scalar_value, scalar_values};

verus! {

/// Whether bytes are the encoding of a group element, as `CompressedRistretto::decompress`
/// decides.
pub uninterp spec fn point_decodes(bytes: Seq<u8>) -> bool;

/// The encoding of a multiple of a group element.
pub uninterp spec fn point_mul(point: Seq<u8>, factor: int) -> Seq<u8>;

/// The encoding of the sum of two group elements.
pub uninterp spec fn point_sum(a: Seq<u8>, b: Seq<u8>) -> Seq<u8>;

/// The encoding of the group element that `RistrettoPoint::from_uniform_bytes` gives.
pub uninterp spec fn point_from_uniform(bytes: Seq<u8>) -> Seq<u8>;

/// `CompressedRistretto::decompress`: whether the bytes encode a group element.
#[verifier::external_body]
pub(crate) fn decode_point(bytes: &Key) -> (decodes: bool)
    ensures
        decodes == point_decodes(bytes@),
{
    CompressedRistretto(*bytes).decompress().is_some()
}

/// `RistrettoPoint * Scalar`, with `CompressedRistretto::decompress` and
/// `Scalar::from_bytes_mod_order` before and `compress` after it: nothing if the bytes do
/// not decode. The result is the encoding of a group element. Encodings are canonical and
/// the group has order [`order`], so a multiple of a multiple is the multiple by the
/// product.
#[verifier::external_body]
pub(crate) fn multiply_point(point: &Key, scalar: &Key) -> (product: Option<Key>)
    ensures
        product is Some == point_decodes(point@),
        product matches Some(p) ==> p@ == point_mul(point@, scalar_value(scalar@)),
        product matches Some(p) ==> point_decodes(p@),
        product matches Some(p) ==> forall|base: Seq<u8>, x: int|
            #![trigger point_mul(base, x)]
            point_decodes(base) && 0 <= x < order() && point@ == point_mul(base, x) ==> p@
                == point_mul(base, (x * scalar_value(scalar@)) % order()),
{
    let element = CompressedRistretto(*point).decompress()?;
    Some((element * Scalar::from_bytes_mod_order(*scalar)).compress().to_bytes())
}

/// `RistrettoPoint + RistrettoPoint`, with `CompressedRistretto::decompress` before and
/// `compress` after it: nothing if either does not decode. The result is the encoding of a
/// group element. The sum of two multiples of an element is its multiple by the sum.
#[verifier::external_body]
pub(crate) fn add_points(a: &Key, b: &Key) -> (sum: Option<Key>)
    ensures
        sum is Some == (point_decodes(a@) && point_decodes(b@)),
        sum matches Some(s) ==> s@ == point_sum(a@, b@),
        sum matches Some(s) ==> point_decodes(s@),
        sum matches Some(s) ==> forall|base: Seq<u8>, x: int, y: int|
            #![trigger point_mul(base, x), point_mul(base, y)]
            point_decodes(base) && 0 <= x < order() && 0 <= y < order() && a@ == point_mul(base, x)
                && b@ == point_mul(base, y) ==> s@ == point_mul(base, (x + y) % order()),
{
    let first = CompressedRistretto(*a).decompress()?;
    let second = CompressedRistretto(*b).decompress()?;
    Some((first + second).compress().to_bytes())
}

/// `RistrettoPoint::from_uniform_bytes` and `compress`: the encoding of a group element
/// that 64 bytes determine.
#[verifier::external_body]
pub(crate) fn uniform_point(bytes: &[u8; 64]) -> (point: Key)
    ensures
        point@ == point_from_uniform(bytes@),
        point_decodes(point@),
{
    RistrettoPoint::from_uniform_bytes(bytes).compress().to_bytes()
}

/// The encodings of a sequence of group elements.
pub open spec fn encodings(points: Seq<Key>) -> Seq<Seq<u8>> {
    points.map_values(|p: Key| p@)
}

/// Every member of the sequence encodes a group element.
pub open spec fn all_decode(points: Seq<Seq<u8>>) -> bool {
    forall|i: int| 0 <= i < points.len() ==> point_decodes(#[trigger] points[i])
}

/// The sum of the points, each times its factor, added from the left.
pub open spec fn combination(points: Seq<Seq<u8>>, factors: Seq<int>) -> Seq<u8>
    decreases points.len(),
{
    if points.len() <= 1 {
        point_mul(points[0], factors[0])
    } else {
        point_sum(
            combination(points.drop_last(), factors.drop_last()),
            point_mul(points.last(), factors.last()),
        )
    }
}

/// The points are these multiples of one group element.
pub open spec fn multiples_of(points: Seq<Seq<u8>>, base: Seq<u8>, xs: Seq<int>) -> bool {
    &&& point_decodes(base)
    &&& xs.len() == points.len()
    &&& forall|i: int|
        0 <= i < xs.len() ==> 0 <= #[trigger] xs[i] < order() && points[i] == point_mul(
            base,
            xs[i],
        )
}

/// The products of two sequences, member by member.
pub open spec fn products(a: Seq<int>, b: Seq<int>) -> Seq<int> {
    Seq::new(a.len(), |i: int| a[i] * b[i])
}

/// The sum of the points, each times its factor. Multiples of one group element combine
/// to its multiple by the sum of the products.
pub fn combine_points(points: &[Key], factors: &[Key]) -> (combined: Option<Key>)
    requires
        1 <= points@.len() == factors@.len(),
    ensures
        combined is Some == all_decode(encodings(points@)),
        combined matches Some(c) ==> point_decodes(c@) && c@ == combination(
            encodings(points@),
            scalar_values(factors@),
        ),
        combined matches Some(c) ==> forall|base: Seq<u8>, xs: Seq<int>| #[trigger]
            multiples_of(encodings(points@), base, xs) ==> c@ == point_mul(
                base,
                total(products(xs, scalar_values(factors@))) % order(),
            ),
{
    let ghost ps = encodings(points@);
    let ghost fs = scalar_values(factors@);
    let mut combined = match multiply_point(&points[0], &factors[0]) {
        Some(first) => first,
        None => {
            assert(!point_decodes(ps[0]));
            return None;
        },
    };
    let mut i: usize = 1;
    proof {
        assert(ps.take(1)[0] == points@[0]@);
        assert(fs.take(1)[0] == scalar_value(factors@[0]@));
        assert forall|base: Seq<u8>, xs: Seq<int>| #[trigger]
            multiples_of(ps.take(1), base, xs) implies combined@ == point_mul(
            base,
            total(products(xs, fs.take(1))) % order(),
        ) by {
            let terms = products(xs, fs.take(1));
            assert(terms.drop_last() =~= Seq::<int>::empty());
            assert(total(terms.drop_last()) == 0);
            assert(0 <= xs[0] < order());
            assert(points@[0]@ == point_mul(base, xs[0]));
        }
    }
    while i < points.len()
        invariant
            1 <= i <= points@.len(),
            points@.len() == factors@.len(),
            ps == encodings(points@),
            fs == scalar_values(factors@),
            point_decodes(combined@),
            all_decode(ps.take(i as int)),
            combined@ == combination(ps.take(i as int), fs.take(i as int)),
            forall|base: Seq<u8>, xs: Seq<int>| #[trigger]
                multiples_of(ps.take(i as int), base, xs) ==> combined@ == point_mul(
                    base,
                    total(products(xs, fs.take(i as int))) % order(),
                ),
        decreases points@.len() - i,
    {
        let term = match multiply_point(&points[i], &factors[i]) {
            Some(term) => term,
            None => {
                assert(!point_decodes(ps[i as int]));
                return None;
            },
        };
        let ghost before = combined@;
        combined = match add_points(&combined, &term) {
            Some(sum) => sum,
            None => {
                return None;
            },
        };
        proof {
            let pt = ps.take(i + 1);
            let ft = fs.take(i + 1);
            assert(pt.drop_last() =~= ps.take(i as int));
            assert(ft.drop_last() =~= fs.take(i as int));
            assert(pt.last() == points@[i as int]@);
            assert(ft.last() == scalar_value(factors@[i as int]@));
            assert forall|k: int| 0 <= k < pt.len() implies point_decodes(#[trigger] pt[k]) by {
                if k < i {
                    assert(pt[k] == ps.take(i as int)[k]);
                }
            }
            assert forall|base: Seq<u8>, xs: Seq<int>| #[trigger] multiples_of(pt, base, xs) implies
                combined@ == point_mul(base, total(products(xs, ft)) % order()) by {
                let head = xs.drop_last();
                assert forall|k: int| 0 <= k < head.len() implies 0 <= #[trigger] head[k] < order()
                    && ps.take(i as int)[k] == point_mul(base, head[k]) by {
                    assert(xs[k] == head[k]);
                    assert(pt[k] == ps.take(i as int)[k]);
                }
                assert(multiples_of(ps.take(i as int), base, head));
                let terms = products(xs, ft);
                assert(terms.drop_last() =~= products(head, fs.take(i as int)));
                let x = total(products(head, fs.take(i as int))) % order();
                let y = (xs.last() * ft.last()) % order();
                assert(0 <= xs[i as int] < order() && pt[i as int] == point_mul(base, xs[i as int]));
                assert(term@ == point_mul(base, y));
                assert(before == point_mul(base, x));
                lemma_residue(total(products(head, fs.take(i as int))));
                lemma_residue(xs.last() * ft.last());
                lemma_congruent_add(
                    x,
                    total(products(head, fs.take(i as int))),
                    y,
                    xs.last() * ft.last(),
                );
                lemma_same_residue(x + y, total(terms));
            }
        }
        i += 1;
    }
    proof {
        assert(ps.take(ps.len() as int) =~= ps);
        assert(fs.take(fs.len() as int) =~= fs);
    }
    Some(combined)
}

} // verus!
