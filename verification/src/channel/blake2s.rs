//! The transcript whose state is a Blake2s digest.

use vstd::prelude::*;
use crate::bytes::{
    push_bytes, push_u32_le, push_u64_le, push_zeros, spec_u32_from_le, spec_u32_le, spec_u64_le,
    u32_from_le,
};
use crate::channel::Channel;
use crate::fields::m31::{M31, P};
use crate::fields::qm31::QM31;
use crate::vcs::blake2_hash::{blake2s_digest, Blake2sHash};

verus! {

/// Number of bytes of a digest.
pub const BLAKE_BYTES_PER_HASH: usize = 32;

/// Number of base-field elements that one digest yields.
pub const FELTS_PER_HASH: usize = 8;

/// How often a draw of field elements hashes again before it gives up
/// looking for eight words below `2p` and reduces what it has.
pub const MAX_DRAW_ATTEMPTS: u64 = 0xffff_ffff_ffff_ffff;

/// Counts what went through the transcript.
#[derive(Copy, Clone, Debug, PartialEq, Eq, Structural, Default)]
pub struct ChannelTime {
    pub n_challenges: usize,
    pub n_sent: usize,
}

/// The state of the transcript: a digest and the counter of the draws made
/// since the digest last changed.
#[derive(Copy, Clone, Debug)]
pub struct Blake2sChannel {
    pub digest: Blake2sHash,
    pub channel_time: ChannelTime,
}

/// The bytes from which a draw is hashed: the digest and the counter of
/// draws, padded to 32 bytes.
pub open spec fn spec_draw_input(digest: Seq<u8>, n_sent: usize) -> Seq<u8> {
    digest + spec_u64_le(n_sent as u64) + Seq::new(24, |i: int| 0u8)
}

/// The sixteen bytes of the four coordinates of each element.
pub open spec fn spec_felts_bytes(felts: Seq<QM31>) -> Seq<u8>
    decreases felts.len(),
{
    if felts.len() == 0 {
        Seq::empty()
    } else {
        let f = felts.last();
        spec_felts_bytes(felts.drop_last()) + spec_u32_le(f.0.0@ as u32) + spec_u32_le(
            f.0.1@ as u32,
        ) + spec_u32_le(f.1.0@ as u32) + spec_u32_le(f.1.1@ as u32)
    }
}

/// The eight words of a digest.
pub open spec fn spec_words(bytes: Seq<u8>) -> Seq<u32> {
    Seq::new(8, |i: int| spec_u32_from_le(bytes, 4 * i))
}

/// Whether all eight words are below `2p`, so that reducing them is close to uniform.
pub open spec fn spec_words_in_range(words: Seq<u32>) -> bool {
    forall|i: int| 0 <= i < 8 ==> #[trigger] words[i] < 2 * P
}

/// The classes of the eight words.
pub open spec fn spec_words_reduced(words: Seq<u32>) -> Seq<M31> {
    Seq::new(8, |i: int| M31::from_int(words[i] as int))
}

impl Blake2sChannel {
    /// The state with a new digest: the counter of draws starts again.
    pub open spec fn spec_update_digest(self, new_digest: Blake2sHash) -> Blake2sChannel {
        Blake2sChannel {
            digest: new_digest,
            channel_time: ChannelTime {
                n_challenges: (if self.channel_time.n_challenges == usize::MAX {
                    0
                } else {
                    self.channel_time.n_challenges + 1
                }) as usize,
                n_sent: 0,
            },
        }
    }

    /// The state after absorbing `data`: the digest of the old digest followed by `data`.
    pub open spec fn spec_absorb(self, data: Seq<u8>) -> Blake2sChannel {
        self.spec_update_digest(Blake2sHash(choose_array(blake2s_digest(self.digest@ + data))))
    }

    /// The state after one draw: only the counter moves.
    pub open spec fn spec_after_draw(self) -> Blake2sChannel {
        Blake2sChannel {
            digest: self.digest,
            channel_time: ChannelTime {
                n_challenges: self.channel_time.n_challenges,
                n_sent: (if self.channel_time.n_sent == usize::MAX {
                    0
                } else {
                    self.channel_time.n_sent + 1
                }) as usize,
            },
        }
    }

    /// The bytes of one draw.
    pub open spec fn spec_drawn_bytes(self) -> Seq<u8> {
        blake2s_digest(spec_draw_input(self.digest@, self.channel_time.n_sent))
    }

    /// Eight base-field elements: the first draw whose words are all below
    /// `2p`, reduced; after `fuel` further draws, whatever was drawn.
    pub open spec fn spec_draw_base_felts(self, fuel: nat) -> (Blake2sChannel, Seq<M31>)
        decreases fuel,
    {
        let words = spec_words(self.spec_drawn_bytes());
        if spec_words_in_range(words) || fuel == 0 {
            (self.spec_after_draw(), spec_words_reduced(words))
        } else {
            self.spec_after_draw().spec_draw_base_felts((fuel - 1) as nat)
        }
    }

    /// Secure-field elements, two from each draw of eight base-field elements.
    pub open spec fn spec_draw_felts(self, n: nat) -> (Blake2sChannel, Seq<QM31>)
        decreases n,
    {
        if n == 0 {
            (self, Seq::empty())
        } else {
            let (after, felts) = self.spec_draw_base_felts(MAX_DRAW_ATTEMPTS as nat);
            let first = QM31::spec_from_m31_array(felts.subrange(0, 4));
            if n == 1 {
                (after, seq![first])
            } else {
                let second = QM31::spec_from_m31_array(felts.subrange(4, 8));
                let (last, rest) = after.spec_draw_felts((n - 2) as nat);
                (last, seq![first, second] + rest)
            }
        }
    }

    /// A fresh transcript: the digest is zero and nothing was drawn.
    pub fn default() -> (r: Blake2sChannel)
        ensures
            r.digest@ == Seq::new(32, |i: int| 0u8),
            r.channel_time == (ChannelTime { n_challenges: 0, n_sent: 0 }),
    {
        Blake2sChannel {
            digest: Blake2sHash::zero(),
            channel_time: ChannelTime { n_challenges: 0, n_sent: 0 },
        }
    }

    /// The digest that the transcript holds.
    pub fn digest(&self) -> (r: Blake2sHash)
        ensures
            r == self.digest,
    {
        self.digest
    }

    /// Replaces the digest and starts the counter of draws again.
    pub fn update_digest(&mut self, new_digest: Blake2sHash)
        ensures
            *final(self) == old(self).spec_update_digest(new_digest),
    {
        self.digest = new_digest;
        self.channel_time.n_challenges = self.channel_time.n_challenges.wrapping_add(1);
        self.channel_time.n_sent = 0;
    }

    /// Absorbs bytes.
    fn absorb(&mut self, data: &Vec<u8>)
        ensures
            *final(self) == old(self).spec_absorb(data@),
    {
        let mut buf: Vec<u8> = Vec::new();
        push_bytes(&mut buf, self.digest.0.as_slice());
        push_bytes(&mut buf, data.as_slice());
        let new_digest = Blake2sHash::hash(&buf);
        proof {
            lemma_choose_array(new_digest.0);
        }
        self.update_digest(new_digest);
    }

    /// Absorbs 32-bit words.
    pub fn mix_u32s(&mut self, data: &Vec<u32>)
        ensures
            *final(self) == old(self).spec_absorb(spec_words_bytes(data@)),
    {
        let mut buf: Vec<u8> = Vec::new();
        let mut i: usize = 0;
        while i < data.len()
            invariant
                i <= data.len(),
                buf@ == spec_words_bytes(data@.subrange(0, i as int)),
            decreases data.len() - i,
        {
            proof {
                let s = data@.subrange(0, i + 1);
                assert(s.drop_last() =~= data@.subrange(0, i as int));
                assert(s.last() == data[i as int]);
            }
            push_u32_le(&mut buf, data[i]);
            i = i + 1;
        }
        proof {
            assert(data@.subrange(0, data.len() as int) =~= data@);
        }
        self.absorb(&buf);
    }

    /// Draws eight base-field elements.
    fn draw_base_felts(&mut self) -> (r: Vec<M31>)
        ensures
            (*final(self), r@) == old(self).spec_draw_base_felts(MAX_DRAW_ATTEMPTS as nat),
            r.len() == 8,
    {
        let mut attempts: u64 = 0;
        loop
            invariant
                attempts <= MAX_DRAW_ATTEMPTS,
                self.spec_draw_base_felts((MAX_DRAW_ATTEMPTS - attempts) as nat) == old(
                    self,
                ).spec_draw_base_felts(MAX_DRAW_ATTEMPTS as nat),
            decreases MAX_DRAW_ATTEMPTS - attempts,
        {
            let ghost before = *self;
            let bytes = self.draw_bytes();
            let mut words: Vec<u32> = Vec::with_capacity(8);
            let mut in_range = true;
            let mut i: usize = 0;
            while i < 8
                invariant
                    i <= 8,
                    bytes.len() == 32,
                    words.len() == i,
                    forall|j: int| 0 <= j < i ==> words[j] == spec_u32_from_le(bytes@, 4 * j),
                    in_range == (forall|j: int| 0 <= j < i ==> #[trigger] words[j] < 2 * P),
                decreases 8 - i,
            {
                let w = u32_from_le(&bytes, 4 * i);
                let ghost seen = words@;
                if w >= 2 * P {
                    in_range = false;
                }
                words.push(w);
                proof {
                    assert(forall|j: int| 0 <= j < i ==> words[j] == seen[j]);
                    assert(words[i as int] == w);
                }
                i = i + 1;
            }
            proof {
                assert(words@ =~= spec_words(bytes@));
            }
            if in_range || attempts == MAX_DRAW_ATTEMPTS {
                let mut felts: Vec<M31> = Vec::with_capacity(8);
                let mut k: usize = 0;
                while k < 8
                    invariant
                        k <= 8,
                        words.len() == 8,
                        felts.len() == k,
                        forall|j: int| 0 <= j < k ==> felts[j] == M31::from_int(words[j] as int),
                    decreases 8 - k,
                {
                    felts.push(M31::from_u32(words[k]));
                    k = k + 1;
                }
                proof {
                    assert(felts@ =~= spec_words_reduced(words@));
                }
                return felts;
            }
            attempts = attempts + 1;
        }
    }

    /// Draws the 32 bytes of one digest.
    fn draw_bytes(&mut self) -> (r: Vec<u8>)
        ensures
            *final(self) == old(self).spec_after_draw(),
            r@ == old(self).spec_drawn_bytes(),
            r.len() == 32,
    {
        let mut buf: Vec<u8> = Vec::with_capacity(64);
        push_bytes(&mut buf, self.digest.0.as_slice());
        push_u64_le(&mut buf, self.channel_time.n_sent as u64);
        push_zeros(&mut buf, 24);
        self.channel_time.n_sent = self.channel_time.n_sent.wrapping_add(1);
        let h = Blake2sHash::hash(&buf);
        let mut out: Vec<u8> = Vec::with_capacity(32);
        push_bytes(&mut out, h.0.as_slice());
        out
    }
}

/// The little-endian bytes of the words, one after the other.
pub open spec fn spec_words_bytes(words: Seq<u32>) -> Seq<u8>
    decreases words.len(),
{
    if words.len() == 0 {
        Seq::empty()
    } else {
        spec_words_bytes(words.drop_last()) + spec_u32_le(words.last())
    }
}

/// The array that holds the 32 bytes `s`.
pub open spec fn choose_array(s: Seq<u8>) -> [u8; 32] {
    choose|a: [u8; 32]| a@ == s
}

/// An array is the array of its own bytes.
pub proof fn lemma_choose_array(a: [u8; 32])
    ensures
        choose_array(a@) == a,
{
    let b = choose_array(a@);
    assert(b@ == a@);
    assert(b@ =~= a@);
    assert(b == a);
}

impl Channel for Blake2sChannel {
    open spec fn spec_trailing_zeros(&self) -> u32 {
        spec_trailing_zero_bits(self.digest@, 0)
    }

    open spec fn spec_mix_u64(&self, value: u64) -> Blake2sChannel {
        self.spec_absorb(spec_u64_le(value))
    }

    open spec fn spec_mix_felts(&self, felts: Seq<QM31>) -> Blake2sChannel {
        self.spec_absorb(spec_felts_bytes(felts))
    }

    open spec fn spec_draw_secure_felt(&self) -> (Blake2sChannel, QM31) {
        let (after, felts) = self.spec_draw_base_felts(MAX_DRAW_ATTEMPTS as nat);
        (after, QM31::spec_from_m31_array(felts.subrange(0, 4)))
    }

    open spec fn spec_draw_secure_felts(&self, n: nat) -> (Blake2sChannel, Seq<QM31>) {
        self.spec_draw_felts(n)
    }

    open spec fn spec_draw_random_bytes(&self) -> (Blake2sChannel, Seq<u8>) {
        (self.spec_after_draw(), self.spec_drawn_bytes())
    }

    fn trailing_zeros(&self) -> (r: u32) {
        let mut count: u32 = 0;
        let mut i: usize = 0;
        while i < 16
            invariant
                i <= 16,
                count == 8 * i,
                count + spec_trailing_zero_bits(self.digest@, i as int)
                    == spec_trailing_zero_bits(self.digest@, 0),
            decreases 16 - i,
        {
            let b = self.digest.0[i];
            proof {
                lemma_trailing_zero_bits_bound(self.digest@, i + 1);
            }
            if b != 0 {
                return count + byte_trailing_zeros(b);
            }
            count = count + 8;
            i = i + 1;
        }
        count
    }

    fn mix_u64(&mut self, value: u64) {
        let mut buf: Vec<u8> = Vec::with_capacity(8);
        push_u64_le(&mut buf, value);
        self.absorb(&buf);
    }

    fn mix_felts(&mut self, felts: &Vec<QM31>) {
        let mut buf: Vec<u8> = Vec::new();
        let mut i: usize = 0;
        while i < felts.len()
            invariant
                i <= felts.len(),
                buf@ == spec_felts_bytes(felts@.subrange(0, i as int)),
            decreases felts.len() - i,
        {
            proof {
                let s = felts@.subrange(0, i + 1);
                assert(s.drop_last() =~= felts@.subrange(0, i as int));
                assert(s.last() == felts[i as int]);
            }
            let f = felts[i];
            push_u32_le(&mut buf, f.0.0.value());
            push_u32_le(&mut buf, f.0.1.value());
            push_u32_le(&mut buf, f.1.0.value());
            push_u32_le(&mut buf, f.1.1.value());
            i = i + 1;
        }
        proof {
            assert(felts@.subrange(0, felts.len() as int) =~= felts@);
        }
        self.absorb(&buf);
    }

    fn draw_secure_felt(&mut self) -> (r: QM31) {
        let felts = self.draw_base_felts();
        let r = QM31::from_m31_array([felts[0], felts[1], felts[2], felts[3]]);
        proof {
            assert([felts[0], felts[1], felts[2], felts[3]]@ =~= felts@.subrange(0, 4));
        }
        r
    }

    fn draw_secure_felts(&mut self, n_felts: usize) -> (r: Vec<QM31>) {
        let mut out: Vec<QM31> = Vec::new();
        let ghost start = *self;
        while out.len() < n_felts
            invariant
                out.len() <= n_felts,
                ({
                    let (last, rest) = self.spec_draw_felts((n_felts - out.len()) as nat);
                    (last, out@ + rest) == start.spec_draw_felts(n_felts as nat)
                }),
            decreases n_felts - out.len(),
        {
            let ghost before = *self;
            let ghost done = out@;
            let felts = self.draw_base_felts();
            let first = QM31::from_m31_array([felts[0], felts[1], felts[2], felts[3]]);
            proof {
                assert([felts[0], felts[1], felts[2], felts[3]]@ =~= felts@.subrange(0, 4));
            }
            out.push(first);
            if out.len() < n_felts {
                let second = QM31::from_m31_array([felts[4], felts[5], felts[6], felts[7]]);
                proof {
                    assert([felts[4], felts[5], felts[6], felts[7]]@ =~= felts@.subrange(4, 8));
                }
                out.push(second);
                proof {
                    let (last, rest) = self.spec_draw_felts((n_felts - out.len()) as nat);
                    assert(done + (seq![first, second] + rest) =~= out@ + rest);
                }
            } else {
                proof {
                    assert(done + seq![first] =~= out@ + Seq::<QM31>::empty());
                }
            }
        }
        proof {
            assert(out@ + Seq::<QM31>::empty() =~= out@);
        }
        out
    }

    fn draw_random_bytes(&mut self) -> (r: Vec<u8>) {
        self.draw_bytes()
    }
}

/// The number of low zero bits of a byte, eight for zero.
pub open spec fn spec_byte_trailing_zeros(b: u8) -> u32
    decreases b,
{
    if b == 0 {
        8
    } else if b % 2 == 1 {
        0
    } else {
        (1 + spec_byte_trailing_zeros(b / 2)) as u32
    }
}

/// The number of low zero bits of the 128-bit number whose little-endian
/// bytes are `bytes[from..16]`.
pub open spec fn spec_trailing_zero_bits(bytes: Seq<u8>, from: int) -> u32
    decreases 16 - from,
{
    if from >= 16 {
        0
    } else if bytes[from] != 0 {
        spec_byte_trailing_zeros(bytes[from])
    } else {
        (8 + spec_trailing_zero_bits(bytes, from + 1)) as u32
    }
}

/// A byte has at most eight low zero bits.
pub proof fn lemma_byte_trailing_zeros_bound(b: u8)
    ensures
        spec_byte_trailing_zeros(b) <= 8,
        b != 0 ==> spec_byte_trailing_zeros(b) < 8,
    decreases b,
{
    if b != 0 {
        lemma_low_zero_bits(b);
    }
}

/// A non-zero byte with `t` low zero bits is at least `2^t`.
pub proof fn lemma_low_zero_bits(b: u8)
    requires
        b != 0,
    ensures
        vstd::arithmetic::power2::pow2(spec_byte_trailing_zeros(b) as nat) <= b,
        spec_byte_trailing_zeros(b) < 8,
    decreases b,
{
    vstd::arithmetic::power2::lemma2_to64();
    let t = spec_byte_trailing_zeros(b);
    if b % 2 == 0 {
        let h = (b / 2) as u8;
        lemma_low_zero_bits(h);
        vstd::arithmetic::power2::lemma_pow2_unfold((spec_byte_trailing_zeros(h) + 1) as nat);
    }
    if t >= 8 {
        crate::utils::lemma_pow2_monotone(8, t as nat);
    }
}

/// At most 128 low zero bits are counted.
pub proof fn lemma_trailing_zero_bits_bound(bytes: Seq<u8>, from: int)
    requires
        0 <= from <= 16,
    ensures
        spec_trailing_zero_bits(bytes, from) <= 8 * (16 - from),
    decreases 16 - from,
{
    if from < 16 {
        lemma_trailing_zero_bits_bound(bytes, from + 1);
        lemma_byte_trailing_zeros_bound(bytes[from]);
    }
}

/// The number of low zero bits of a non-zero byte.
fn byte_trailing_zeros(b: u8) -> (r: u32)
    requires
        b != 0,
    ensures
        r == spec_byte_trailing_zeros(b),
        r < 8,
{
    let mut v = b;
    let mut r: u32 = 0;
    proof {
        lemma_byte_trailing_zeros_bound(b);
    }
    while v % 2 == 0
        invariant
            v != 0,
            r + spec_byte_trailing_zeros(v) == spec_byte_trailing_zeros(b),
            spec_byte_trailing_zeros(b) < 8,
        decreases v,
    {
        proof {
            lemma_byte_trailing_zeros_bound(v / 2);
        }
        v = v / 2;
        r = r + 1;
    }
    r
}

} // verus!
