//! Merkle trees hashed with the Poseidon permutation over the prime field of
//! 252 bits. Column values are packed eight to a field element.

use vstd::prelude::*;
use crate::fields::m31::M31;
use crate::vcs::hasher::MerkleHasher;

verus! {

/// The number of column values that are packed into one field element.
pub const ELEMENTS_IN_BLOCK: usize = 8;

/// `2^128`.
pub open spec fn spec_half() -> nat {
    0x1_0000_0000_0000_0000 * 0x1_0000_0000_0000_0000
}

/// `2^128` is the least number beyond the range of a half.
pub proof fn lemma_half()
    ensures
        spec_half() == 0xffff_ffff_ffff_ffff_ffff_ffff_ffff_ffff + 1,
{
    assert(0x1_0000_0000_0000_0000int * 0x1_0000_0000_0000_0000int
        == 0xffff_ffff_ffff_ffff_ffff_ffff_ffff_ffff + 1) by (nonlinear_arith);
}

/// The prime `2^251 + 17 * 2^192 + 1`.
pub open spec fn spec_modulus() -> nat {
    0x800_0000_0000_0011_0000_0000_0000_0000 * spec_half() + 1
}

/// The Poseidon hash of the field elements, in their order.
pub uninterp spec fn poseidon252_hash_many(values: Seq<nat>) -> nat;

/// An element of the prime field of 252 bits, as the two halves of its
/// least residue.
#[derive(Copy, Clone, Debug, PartialEq, Eq, Structural, Hash)]
pub struct Poseidon252Hash {
    hi: u128,
    lo: u128,
}

impl Poseidon252Hash {
    pub closed spec fn spec_hi(self) -> u128 {
        self.hi
    }

    pub closed spec fn spec_lo(self) -> u128 {
        self.lo
    }

    /// The least residue.
    pub open spec fn spec_value(self) -> nat {
        (self.spec_hi() * spec_half() + self.spec_lo()) as nat
    }

    /// The residue is below the prime.
    #[verifier::type_invariant]
    pub open spec fn wf(self) -> bool {
        self.spec_value() < spec_modulus()
    }

    /// The element with the given least residue.
    pub closed spec fn spec_of(value: nat) -> Poseidon252Hash {
        Poseidon252Hash {
            hi: (value / spec_half()) as u128,
            lo: (value % spec_half()) as u128,
        }
    }

    /// An element is determined by its least residue.
    pub proof fn lemma_of_value(self)
        ensures
            Poseidon252Hash::spec_of(self.spec_value()) == self,
    {
        lemma_half();
        let b = spec_half() as int;
        let v = self.hi * b + self.lo;
        assert(v / b == self.hi && v % b == self.lo) by (nonlinear_arith)
            requires
                v == self.hi * b + self.lo,
                0 <= self.lo < b,
                0 <= self.hi,
                b > 0,
        ;
    }

    /// The element whose residue has the given halves, if it is below the
    /// prime.
    pub fn new(hi: u128, lo: u128) -> (r: Option<Poseidon252Hash>)
        ensures
            match r {
                Some(h) => h.spec_hi() == hi && h.spec_lo() == lo && h.wf(),
                None => hi * spec_half() + lo >= spec_modulus(),
            },
    {
        proof {
            lemma_half();
            let b = spec_half() as int;
            if hi < 0x800_0000_0000_0011_0000_0000_0000_0000 {
                assert(hi * b + lo < 0x800_0000_0000_0011_0000_0000_0000_0000 * b + 1)
                    by (nonlinear_arith)
                    requires
                        hi + 1 <= 0x800_0000_0000_0011_0000_0000_0000_0000,
                        0 <= lo < b,
                ;
            } else if hi > 0x800_0000_0000_0011_0000_0000_0000_0000 {
                assert(hi * b + lo >= 0x800_0000_0000_0011_0000_0000_0000_0000 * b + 1)
                    by (nonlinear_arith)
                    requires
                        hi >= 0x800_0000_0000_0011_0000_0000_0000_0000 + 1,
                        b >= 1,
                        0 <= lo,
                ;
            }
        }
        if hi < 0x800_0000_0000_0011_0000_0000_0000_0000 || (hi
            == 0x800_0000_0000_0011_0000_0000_0000_0000 && lo == 0) {
            Some(Poseidon252Hash { hi, lo })
        } else {
            None
        }
    }

    /// Zero.
    pub fn zero() -> (r: Poseidon252Hash)
        ensures
            r.spec_value() == 0,
    {
        proof {
            lemma_half();
        }
        Poseidon252Hash { hi: 0, lo: 0 }
    }

    /// The upper half of the least residue.
    pub fn hi(&self) -> (r: u128)
        ensures
            r == self.spec_hi(),
    {
        self.hi
    }

    /// The lower half of the least residue.
    pub fn lo(&self) -> (r: u128)
        ensures
            r == self.spec_lo(),
    {
        self.lo
    }

    /// Makes the invariant of an executable value known to the caller.
    pub fn valid(&self)
        ensures
            self.wf(),
    {
        proof {
            use_type_invariant(self);
        }
    }
}

/// The residues of the elements.
pub open spec fn spec_values(hashes: Seq<Poseidon252Hash>) -> Seq<nat> {
    Seq::new(hashes.len(), |i: int| hashes[i].spec_value())
}

/// `starknet_crypto::poseidon_hash_many` on the field elements with the
/// given residues: the residue of the hash, which is below the prime and
/// depends on the residues alone. The elements are handed over, and the
/// hash is taken back, as 32 bytes with the most significant first
/// (`FieldElement::from_bytes_be`, `FieldElement::to_bytes_be`).
#[verifier::external_body]
fn poseidon_hash_many_of(values: &Vec<Poseidon252Hash>) -> (r: Poseidon252Hash)
    requires
        forall|i: int| 0 <= i < values.len() ==> (#[trigger] values[i]).wf(),
    ensures
        r.spec_value() == poseidon252_hash_many(spec_values(values@)),
        r.wf(),
{
    let felts: Vec<starknet_ff::FieldElement> = values.iter().map(|v| {
        let mut b = [0u8; 32];
        b[..16].copy_from_slice(&v.hi.to_be_bytes());
        b[16..].copy_from_slice(&v.lo.to_be_bytes());
        starknet_ff::FieldElement::from_bytes_be(&b).unwrap_or_default()
    }).collect();
    let out = starknet_crypto::poseidon_hash_many(&felts).to_bytes_be();
    let (mut hi, mut lo) = ([0u8; 16], [0u8; 16]);
    hi.copy_from_slice(&out[..16]);
    lo.copy_from_slice(&out[16..]);
    Poseidon252Hash { hi: u128::from_be_bytes(hi), lo: u128::from_be_bytes(lo) }
}

/// The number whose digits to the base `2^31` are the values, the first
/// one the most significant.
pub open spec fn spec_word_value(word: Seq<M31>) -> nat
    decreases word.len(),
{
    if word.len() == 0 {
        0
    } else {
        (spec_word_value(word.drop_last()) * 0x8000_0000 + word.last()@) as nat
    }
}

/// The field element of a word of up to eight values: its digits, and for
/// a word of fewer than eight values its length in the bits from the
/// 248th on.
pub open spec fn spec_felt_of_word(word: Seq<M31>) -> nat {
    if word.len() < 8 {
        spec_word_value(word) + word.len() * 0x100_0000_0000_0000_0000_0000_0000_0000 * spec_half()
    } else {
        spec_word_value(word)
    }
}

/// A word of `n` values is below `2^(31 n)`.
pub open spec fn spec_word_bound(n: nat) -> nat
    decreases n,
{
    if n == 0 {
        1
    } else {
        spec_word_bound((n - 1) as nat) * 0x8000_0000
    }
}

pub proof fn lemma_word_bound(word: Seq<M31>)
    requires
        forall|i: int| 0 <= i < word.len() ==> (#[trigger] word[i]).wf(),
    ensures
        spec_word_value(word) < spec_word_bound(word.len()),
    decreases word.len(),
{
    if word.len() > 0 {
        lemma_word_bound(word.drop_last());
        assert(word.last().wf());
        let v = spec_word_value(word.drop_last());
        let b = spec_word_bound((word.len() - 1) as nat);
        assert(v * 0x8000_0000 + word.last()@ < b * 0x8000_0000) by (nonlinear_arith)
            requires
                v < b,
                0 <= word.last()@ < 0x8000_0000,
        ;
    }
}

/// The word with one more digit: `felt * 2^31 + limb`.
fn append_m31(hi: u128, lo: u128, limb: M31) -> (r: (u128, u128))
    requires
        hi < 0x2_0000_0000_0000_0000_0000_0000,
    ensures
        r.0 * spec_half() + r.1 == (hi
            * spec_half() + lo) * 0x8000_0000 + limb@,
{
    limb.reduced();
    let digit: u128 = limb.value() as u128;
    let new_lo: u128 = (lo << 31) | digit;
    let carry: u128 = lo >> 97;
    let new_hi: u128 = (hi << 31) | carry;
    proof {
        lemma_half();
        assert(carry == lo / 0x2_0000_0000_0000_0000_0000_0000 && carry < 0x8000_0000) by (bit_vector)
            requires
                carry == lo >> 97,
        ;
        assert(new_lo == (lo % 0x2_0000_0000_0000_0000_0000_0000) * 0x8000_0000 + digit) by (bit_vector)
            requires
                new_lo == (lo << 31) | digit,
                digit < 0x8000_0000,
        ;
        assert(new_hi == hi * 0x8000_0000 + carry) by (bit_vector)
            requires
                new_hi == (hi << 31) | carry,
                carry < 0x8000_0000,
                hi < 0x2_0000_0000_0000_0000_0000_0000,
        ;
        let b = spec_half() as int;
        let q = (lo / 0x2_0000_0000_0000_0000_0000_0000) as int;
        let r = (lo % 0x2_0000_0000_0000_0000_0000_0000) as int;
        assert(b == 0x2_0000_0000_0000_0000_0000_0000 * 0x8000_0000);
        assert((hi * 0x8000_0000 + q) * b + r * 0x8000_0000 + digit == (hi * b + (q
            * 0x2_0000_0000_0000_0000_0000_0000 + r)) * 0x8000_0000 + digit) by (nonlinear_arith)
            requires
                b == 0x2_0000_0000_0000_0000_0000_0000 * 0x8000_0000,
        ;
    }
    (new_hi, new_lo)
}

/// Packs a word of up to eight values into one field element.
pub fn construct_felt252_from_m31s(word: &Vec<M31>) -> (r: Poseidon252Hash)
    requires
        word.len() <= 8,
    ensures
        r.spec_value() == spec_felt_of_word(word@),
        r.wf(),
{
    let mut hi: u128 = 0;
    let mut lo: u128 = 0;
    let mut i: usize = 0;
    assert(word@.subrange(0, 0).len() == 0);
    while i < word.len()
        invariant
            i <= word.len() <= 8,
            hi * spec_half() + lo == spec_word_value(
                word@.subrange(0, i as int),
            ),
            spec_word_value(word@.subrange(0, i as int)) < spec_word_bound(i as nat),
        decreases word.len() - i,
    {
        proof {
            reveal_with_fuel(spec_word_bound, 9);
            let s = word@.subrange(0, i + 1);
            assert(s.drop_last() =~= word@.subrange(0, i as int));
            assert(s.last() == word[i as int]);
        }
        word[i].reduced();
        proof {
            lemma_half();
            let b = spec_half() as int;
            let k = 0x200_0000_0000_0000_0000_0000int;
            assert(spec_word_bound(7) == k * b);
            assert(spec_word_bound(i as nat) <= spec_word_bound(7));
            assert(hi < k) by (nonlinear_arith)
                requires
                    hi * b + lo < k * b,
                    0 <= lo,
                    b > 0,
            ;
        }
        let (h, l) = append_m31(hi, lo, word[i]);
        proof {
            let v = spec_word_value(word@.subrange(0, i as int));
            let b = spec_word_bound(i as nat);
            assert(v * 0x8000_0000 + word[i as int]@ < b * 0x8000_0000) by (nonlinear_arith)
                requires
                    v < b,
                    0 <= word[i as int]@ < 0x8000_0000,
            ;
        }
        hi = h;
        lo = l;
        i = i + 1;
    }
    proof {
        reveal_with_fuel(spec_word_bound, 9);
        assert(word@.subrange(0, word.len() as int) =~= word@);
    }
    let ghost digits_hi = hi;
    proof {
        lemma_half();
        let b = spec_half() as int;
        let k = 0x200_0000_0000_0000_0000_0000int;
        let m = 0x100_0000_0000_0000_0000_0000_0000_0000int;
        assert(spec_word_bound(7) == k * b);
        assert(spec_word_bound(8) == m * b);
        if word.len() < 8 {
            assert(spec_word_bound(word.len() as nat) <= spec_word_bound(7));
            assert(hi < k) by (nonlinear_arith)
                requires
                    hi * b + lo < k * b,
                    0 <= lo,
                    b > 0,
            ;
        } else {
            assert(hi < m) by (nonlinear_arith)
                requires
                    hi * b + lo < m * b,
                    0 <= lo,
                    b > 0,
            ;
        }
    }
    if word.len() < ELEMENTS_IN_BLOCK {
        hi = hi + (word.len() as u128) * 0x100_0000_0000_0000_0000_0000_0000_0000;
    }
    proof {
        let b = spec_half() as int;
        let m = 0x100_0000_0000_0000_0000_0000_0000_0000int;
        let n = word.len() as int;
        if word.len() < 8 {
            assert((digits_hi + n * m) * b + lo == digits_hi * b + lo + n * m * b)
                by (nonlinear_arith);
        }
        assert(hi * b + lo < 0x800_0000_0000_0011_0000_0000_0000_0000 * b + 1) by (nonlinear_arith)
            requires
                hi + 1 <= 0x800_0000_0000_0011_0000_0000_0000_0000,
                0 <= lo < b,
        ;
    }
    Poseidon252Hash { hi, lo }
}

/// The field elements of the values from the `from`-th on, eight values to
/// an element.
pub open spec fn spec_blocks(values: Seq<M31>, from: nat) -> Seq<nat>
    decreases values.len() - from,
{
    if from >= values.len() {
        Seq::empty()
    } else {
        let to = if from + 8 <= values.len() {
            from + 8
        } else {
            values.len()
        };
        seq![spec_felt_of_word(values.subrange(from as int, to as int))] + spec_blocks(values, to)
    }
}

/// The field elements that are hashed for a node: the two children, if
/// any, and then the column values, eight to an element.
pub open spec fn spec_node_felts(
    children_hashes: Option<(Poseidon252Hash, Poseidon252Hash)>,
    column_values: Seq<M31>,
) -> Seq<nat> {
    (match children_hashes {
        Some((left, right)) => seq![left.spec_value(), right.spec_value()],
        None => Seq::empty(),
    }) + spec_blocks(column_values, 0)
}

/// The Merkle hash by Poseidon.
#[derive(Copy, Clone, Debug, PartialEq, Eq, Default)]
pub struct Poseidon252MerkleHasher;

impl MerkleHasher for Poseidon252MerkleHasher {
    type Hash = Poseidon252Hash;

    open spec fn spec_hash_node(
        children_hashes: Option<(Poseidon252Hash, Poseidon252Hash)>,
        column_values: Seq<M31>,
    ) -> Poseidon252Hash {
        Poseidon252Hash::spec_of(
            poseidon252_hash_many(spec_node_felts(children_hashes, column_values)),
        )
    }

    fn hash_node(
        children_hashes: Option<(Poseidon252Hash, Poseidon252Hash)>,
        column_values: &Vec<M31>,
    ) -> (r: Poseidon252Hash) {
        let mut values: Vec<Poseidon252Hash> = Vec::new();
        match children_hashes {
            Some((left, right)) => {
                left.valid();
                right.valid();
                values.push(left);
                values.push(right);
            },
            None => {},
        }
        let ghost head = spec_values(values@);
        let ghost want = spec_node_felts(children_hashes, column_values@);
        proof {
            assert(head + spec_blocks(column_values@, 0) =~= want);
        }
        let mut from: usize = 0;
        while from < column_values.len()
            invariant
                from <= column_values.len(),
                forall|i: int| 0 <= i < values.len() ==> (#[trigger] values[i]).wf(),
                spec_values(values@) + spec_blocks(column_values@, from as nat) == want,
            decreases column_values.len() - from,
        {
            let to = if column_values.len() - from >= ELEMENTS_IN_BLOCK {
                from + ELEMENTS_IN_BLOCK
            } else {
                column_values.len()
            };
            let mut word: Vec<M31> = Vec::with_capacity(ELEMENTS_IN_BLOCK);
            let mut k: usize = from;
            while k < to
                invariant
                    from <= k <= to <= column_values.len(),
                    to - from <= 8,
                    word@ == column_values@.subrange(from as int, k as int),
                decreases to - k,
            {
                word.push(column_values[k]);
                proof {
                    assert(word@ =~= column_values@.subrange(from as int, k + 1));
                }
                k = k + 1;
            }
            let ghost before = spec_values(values@);
            let felt = construct_felt252_from_m31s(&word);
            values.push(felt);
            proof {
                assert(spec_values(values@) =~= before + seq![felt.spec_value()]);
                assert(before + (seq![felt.spec_value()] + spec_blocks(column_values@, to as nat))
                    =~= (before + seq![felt.spec_value()]) + spec_blocks(column_values@, to as nat));
            }
            from = to;
        }
        proof {
            assert(spec_values(values@) + spec_blocks(column_values@, from as nat) =~= spec_values(
                values@,
            ));
        }
        let r = poseidon_hash_many_of(&values);
        proof {
            r.lemma_of_value();
        }
        r
    }

    fn hash_eq(a: &Poseidon252Hash, b: &Poseidon252Hash) -> (r: bool) {
        a.hi == b.hi && a.lo == b.lo
    }
}

} // verus!
