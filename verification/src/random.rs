//! Protocol randomness: the ChaCha20 stream of a seed, drawn piece by piece.

use vstd::prelude::*;

use rand_chacha::ChaCha20Rng;
use rand_core::{RngCore, SeedableRng};

use crate::group::encodings;
use crate::interpolation::{lemma_residue, order};
use crate::messages::Key;
use crate::scalar::{
    is_canonical, le_value, lemma_canonical_residue, lemma_le_bytes, scalar_bytes, scalar_from_wide,
    scalar_value, scalar_values,
};

verus! {

/// Bytes of the ChaCha20 stream of a seed, from a position that counts 32-bit words.
pub uninterp spec fn chacha_bytes(seed: Seq<u8>, position: u128, count: nat) -> Seq<u8>;

/// `RngCore::fill_bytes` on a `ChaCha20Rng` made by `from_seed` and moved to a position by
/// `set_word_pos`: bytes that seed and position determine.
#[verifier::external_body]
pub(crate) fn chacha_stream<const N: usize>(seed: &Key, position: u128) -> (bytes: [u8; N])
    ensures
        bytes@ == chacha_bytes(seed@, position, N as nat),
{
    let mut generator = ChaCha20Rng::from_seed(*seed);
    generator.set_word_pos(position);
    let mut bytes = [0u8; N];
    generator.fill_bytes(&mut bytes);
    bytes
}

/// A generator: the seed of its stream and how many 32-bit words were drawn.
#[derive(Clone, Copy, Debug, PartialEq, Eq)]
pub struct Rng {
    pub seed: Key,
    pub position: u128,
}

/// Model of [`Rng`].
pub struct RngModel {
    pub seed: Seq<u8>,
    pub position: u128,
}

impl View for Rng {
    type V = RngModel;

    open spec fn view(&self) -> RngModel {
        RngModel { seed: self.seed@, position: self.position }
    }
}

impl RngModel {
    /// The next bytes.
    pub open spec fn bytes(self, count: nat) -> Seq<u8> {
        chacha_bytes(self.seed, self.position, count)
    }

    /// The generator behind the next bytes. It moves by whole words.
    pub open spec fn after(self, count: nat) -> RngModel {
        RngModel {
            position: ((self.position + (count + 3) / 4) % (u128::MAX + 1)) as u128,
            ..self
        }
    }

    /// The next scalar: the residue of the next 64 bytes.
    pub open spec fn scalar(self) -> int {
        le_value(self.bytes(64)) as int % order()
    }

    /// The generator behind the next pieces of one size.
    pub open spec fn after_pieces(self, count: nat, size: nat) -> RngModel
        decreases count,
    {
        if count == 0 {
            self
        } else {
            self.after_pieces((count - 1) as nat, size).after(size)
        }
    }

    /// The generator behind the next scalars.
    pub open spec fn after_scalars(self, count: nat) -> RngModel {
        self.after_pieces(count, 64)
    }

    /// The next pieces of one size.
    pub open spec fn pieces(self, count: nat, size: nat) -> Seq<Seq<u8>> {
        Seq::new(count, |i: int| self.after_pieces(i as nat, size).bytes(size))
    }

    /// The next scalars.
    pub open spec fn scalars(self, count: nat) -> Seq<int> {
        Seq::new(count, |i: int| self.after_scalars(i as nat).scalar())
    }
}

/// The encodings of residues.
pub open spec fn encoded_scalars(values: Seq<int>) -> Seq<Seq<u8>> {
    Seq::new(values.len(), |i: int| scalar_bytes(values[i]))
}

impl Rng {
    /// The generator of a seed.
    pub fn from_seed(seed: Key) -> (rng: Self)
        ensures
            rng@ == (RngModel { seed: seed@, position: 0 }),
    {
        Rng { seed, position: 0 }
    }
}

/// Draws bytes.
pub fn rand_bytes<const N: usize>(rng: &mut Rng) -> (bytes: [u8; N])
    ensures
        bytes@ == old(rng)@.bytes(N as nat),
        final(rng)@ == old(rng)@.after(N as nat),
{
    let bytes = chacha_stream(&rng.seed, rng.position);
    let words: u128 = (N as u128 + 3) / 4;
    rng.position = rng.position.wrapping_add(words);
    bytes
}

/// Draws a scalar.
pub fn random_scalar(rng: &mut Rng) -> (scalar: Key)
    ensures
        is_canonical(scalar@),
        scalar@ == scalar_bytes(old(rng)@.scalar()),
        scalar_value(scalar@) == old(rng)@.scalar(),
        final(rng)@ == old(rng)@.after(64),
{
    let wide: [u8; 64] = rand_bytes(rng);
    let scalar = scalar_from_wide(&wide);
    proof {
        lemma_residue(le_value(wide@) as int);
        lemma_canonical_residue(scalar@);
        lemma_le_bytes(scalar@);
    }
    scalar
}

/// Draws scalars.
pub fn random_scalars(count: usize, rng: &mut Rng) -> (scalars: Vec<Key>)
    ensures
        scalars@.len() == count,
        forall|i: int| 0 <= i < count ==> is_canonical(#[trigger] scalars@[i]@),
        scalar_values(scalars@) == old(rng)@.scalars(count as nat),
        encodings(scalars@) == encoded_scalars(old(rng)@.scalars(count as nat)),
        final(rng)@ == old(rng)@.after_scalars(count as nat),
{
    let mut scalars: Vec<Key> = Vec::new();
    while scalars.len() < count
        invariant
            scalars@.len() <= count,
            rng@ == old(rng)@.after_scalars(scalars@.len()),
            forall|i: int|
                0 <= i < scalars@.len() ==> is_canonical(#[trigger] scalars@[i]@) && scalars@[i]@
                    == scalar_bytes(old(rng)@.scalars(count as nat)[i]) && scalar_value(
                    scalars@[i]@,
                ) == old(rng)@.scalars(count as nat)[i],
        decreases count - scalars@.len(),
    {
        scalars.push(random_scalar(rng));
    }
    assert(scalar_values(scalars@) =~= old(rng)@.scalars(count as nat));
    assert(encodings(scalars@) =~= encoded_scalars(old(rng)@.scalars(count as nat)));
    scalars
}

} // verus!
