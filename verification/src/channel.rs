//! The Fiat-Shamir transcript: both parties absorb the same values in the
//! same order and squeeze the same randomness.

use vstd::prelude::*;
use crate::fields::qm31::QM31;
use crate::vcs::hasher::MerkleHasher;

pub mod blake2s;

verus! {

/// A transcript. Each operation is a function of the state before it: the
/// state after it, and what is drawn, depend on nothing else.
pub trait Channel: Sized + Copy {
    /// The number of low zero bits of the state, which grinding raises.
    spec fn spec_trailing_zeros(&self) -> u32;

    /// The state after absorbing a 64-bit value.
    spec fn spec_mix_u64(&self, value: u64) -> Self;

    /// The state after absorbing field elements.
    spec fn spec_mix_felts(&self, felts: Seq<QM31>) -> Self;

    /// The state after a draw of one field element, and the element.
    spec fn spec_draw_secure_felt(&self) -> (Self, QM31);

    /// The state after a draw of `n` field elements, and the elements.
    spec fn spec_draw_secure_felts(&self, n: nat) -> (Self, Seq<QM31>);

    /// The state after a draw of bytes, and the bytes.
    spec fn spec_draw_random_bytes(&self) -> (Self, Seq<u8>);

    fn trailing_zeros(&self) -> (r: u32)
        ensures
            r == self.spec_trailing_zeros(),
    ;

    fn mix_u64(&mut self, value: u64)
        ensures
            *final(self) == old(self).spec_mix_u64(value),
    ;

    fn mix_felts(&mut self, felts: &Vec<QM31>)
        ensures
            *final(self) == old(self).spec_mix_felts(felts@),
    ;

    fn draw_secure_felt(&mut self) -> (r: QM31)
        ensures
            (*final(self), r) == old(self).spec_draw_secure_felt(),
    ;

    fn draw_secure_felts(&mut self, n_felts: usize) -> (r: Vec<QM31>)
        ensures
            (*final(self), r@) == old(self).spec_draw_secure_felts(n_felts as nat),
            r.len() == n_felts,
    ;

    /// Draws at least four bytes.
    fn draw_random_bytes(&mut self) -> (r: Vec<u8>)
        ensures
            (*final(self), r@) == old(self).spec_draw_random_bytes(),
            r.len() >= 4,
    ;
}

/// Whether `nonce` is a proof of work of `pow_bits` bits for the transcript:
/// after the nonce is absorbed, the state has that many low zero bits.
pub open spec fn spec_pow_holds<C: Channel>(channel: C, nonce: u64, pow_bits: u32) -> bool {
    channel.spec_mix_u64(nonce).spec_trailing_zeros() >= pow_bits
}

/// Whether `nonce` is a proof of work of `pow_bits` bits for the transcript.
pub fn verify_pow_nonce<C: Channel>(channel: &C, nonce: u64, pow_bits: u32) -> (r: bool)
    ensures
        r == spec_pow_holds(*channel, nonce, pow_bits),
{
    let mut mixed = *channel;
    mixed.mix_u64(nonce);
    mixed.trailing_zeros() >= pow_bits
}

/// The least nonce that is a proof of work of `pow_bits` bits for the
/// transcript; none if no 64-bit nonce is one.
pub fn grind<C: Channel>(channel: &C, pow_bits: u32) -> (r: Option<u64>)
    ensures
        match r {
            Some(nonce) => spec_pow_holds(*channel, nonce, pow_bits) && forall|n: u64|
                n < nonce ==> !#[trigger] spec_pow_holds(*channel, n, pow_bits),
            None => forall|n: u64| !#[trigger] spec_pow_holds(*channel, n, pow_bits),
        },
{
    let mut nonce: u64 = 0;
    loop
        invariant
            forall|n: u64| n < nonce ==> !#[trigger] spec_pow_holds(*channel, n, pow_bits),
        decreases u64::MAX - nonce,
    {
        if verify_pow_nonce(channel, nonce, pow_bits) {
            return Some(nonce);
        }
        if nonce == u64::MAX {
            return None;
        }
        nonce = nonce + 1;
    }
}

/// A transcript together with the hash of the Merkle trees whose roots it absorbs.
pub trait MerkleChannel {
    type C: Channel;

    type H: MerkleHasher;

    /// The state after absorbing the root of a tree.
    spec fn spec_mix_root(channel: Self::C, root: <Self::H as MerkleHasher>::Hash) -> Self::C;

    fn mix_root(channel: &mut Self::C, root: <Self::H as MerkleHasher>::Hash)
        ensures
            *final(channel) == Self::spec_mix_root(*old(channel), root),
    ;
}

} // verus!
