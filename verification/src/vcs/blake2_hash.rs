//! The Blake2s hash of a byte string.

use vstd::prelude::*;
use blake2::Digest;

verus! {

/// The 32 bytes that Blake2s-256 computes from the bytes `data`.
pub uninterp spec fn blake2s_digest(data: Seq<u8>) -> Seq<u8>;

/// A Blake2s digest.
#[derive(Copy, Clone, Debug, PartialEq, Eq, Hash)]
pub struct Blake2sHash(pub [u8; 32]);

impl View for Blake2sHash {
    type V = Seq<u8>;

    open spec fn view(&self) -> Seq<u8> {
        self.0@
    }
}

/// `blake2::Blake2s256::digest`: the digest of `data`, which depends on the
/// bytes of `data` alone.
#[verifier::external_body]
fn blake2s_digest_of(data: &Vec<u8>) -> (r: [u8; 32])
    ensures
        r@ == blake2s_digest(data@),
{
    let out = blake2::Blake2s256::digest(data.as_slice());
    let mut r = [0u8; 32];
    r.copy_from_slice(out.as_slice());
    r
}

impl Blake2sHash {
    /// The digest of all zero bytes, the state of a fresh transcript.
    pub fn zero() -> (r: Blake2sHash)
        ensures
            r@ == Seq::new(32, |i: int| 0u8),
    {
        let r = Blake2sHash([0u8; 32]);
        assert(r@ =~= Seq::new(32, |i: int| 0u8));
        r
    }

    /// The Blake2s digest of `data`.
    pub fn hash(data: &Vec<u8>) -> (r: Blake2sHash)
        ensures
            r@ == blake2s_digest(data@),
    {
        Blake2sHash(blake2s_digest_of(data))
    }

    /// The digest of the bytes of `a` followed by those of `b`.
    pub fn concat_and_hash(a: &Blake2sHash, b: &Blake2sHash) -> (r: Blake2sHash)
        ensures
            r@ == blake2s_digest(a@ + b@),
    {
        let mut buf: Vec<u8> = Vec::with_capacity(64);
        crate::bytes::push_bytes(&mut buf, a.0.as_slice());
        crate::bytes::push_bytes(&mut buf, b.0.as_slice());
        assert(buf@ =~= a@ + b@);
        Blake2sHash::hash(&buf)
    }

    /// Whether the two digests hold the same bytes.
    pub fn same(&self, other: &Blake2sHash) -> (r: bool)
        ensures
            r == (self@ == other@),
            r == (*self == *other),
    {
        let mut i: usize = 0;
        while i < 32
            invariant
                i <= 32,
                forall|j: int| 0 <= j < i ==> self.0[j] == other.0[j],
            decreases 32 - i,
        {
            if self.0[i] != other.0[i] {
                return false;
            }
            i = i + 1;
        }
        assert(self.0@ =~= other.0@);
        assert(self.0 == other.0);
        true
    }
}

} // verus!
