//! The prime field of order `2^31 - 1`.

use vstd::prelude::*;
use vstd::arithmetic::div_mod::*;

verus! {

/// Number of bits of the modulus.
pub const MODULUS_BITS: u32 = 31;

/// Number of bytes of a serialised field element.
pub const N_BYTES_FELT: usize = 4;

/// The modulus `2^31 - 1`.
pub const P: u32 = 2147483647;

/// The modulus as a mathematical integer.
pub open spec fn modulus() -> int {
    2147483647
}

/// An element of `F_p`, stored as its least non-negative residue.
#[derive(Copy, Clone, Debug, PartialEq, Eq, Structural, Hash)]
pub struct M31 {
    v: u32,
}

pub type BaseField = M31;

impl View for M31 {
    type V = int;

    /// The residue that the element stores.
    closed spec fn view(&self) -> int {
        self.v as int
    }
}

impl M31 {
    /// Every executable value is a least residue.
    #[verifier::type_invariant]
    pub open spec fn wf(self) -> bool {
        0 <= self@ < modulus()
    }

    /// The element that is the class of `i` modulo `p`.
    pub closed spec fn from_int(i: int) -> M31 {
        M31 { v: (i % modulus()) as u32 }
    }

    pub open spec fn spec_zero() -> M31 {
        M31::from_int(0)
    }

    pub open spec fn spec_one() -> M31 {
        M31::from_int(1)
    }

    pub open spec fn spec_add(self, rhs: M31) -> M31 {
        M31::from_int(self@ + rhs@)
    }

    pub open spec fn spec_sub(self, rhs: M31) -> M31 {
        M31::from_int(self@ - rhs@)
    }

    pub open spec fn spec_neg(self) -> M31 {
        M31::from_int(-self@)
    }

    pub open spec fn spec_mul(self, rhs: M31) -> M31 {
        M31::from_int(self@ * rhs@)
    }

    pub open spec fn spec_square(self) -> M31 {
        self.spec_mul(self)
    }

    pub open spec fn spec_double(self) -> M31 {
        self.spec_add(self)
    }

    /// `self` raised to the power `n` by repeated multiplication.
    pub open spec fn spec_pow(self, n: nat) -> M31
        decreases n,
    {
        if n == 0 {
            M31::spec_one()
        } else {
            self.spec_mul(self.spec_pow((n - 1) as nat))
        }
    }

    /// The Fermat inverse `self^(p - 2)`.
    pub open spec fn spec_inverse(self) -> M31 {
        self.spec_pow((modulus() - 2) as nat)
    }

    /// The view of a class is its least residue.
    pub broadcast proof fn lemma_from_int_view(i: int)
        ensures
            #[trigger] M31::from_int(i)@ == i % modulus(),
    {
    }

    /// A least residue is the class of itself.
    pub broadcast proof fn lemma_from_int_of_view(a: M31)
        ensures
            0 <= a@ < modulus() ==> #[trigger] M31::from_int(a@) == a,
    {
        if 0 <= a@ < modulus() {
            lemma_small_mod(a@ as nat, modulus() as nat);
        }
    }

    /// Congruent integers have the same class.
    pub proof fn lemma_from_int_congruent(i: int, j: int)
        requires
            i % modulus() == j % modulus(),
        ensures
            M31::from_int(i) == M31::from_int(j),
    {
    }

    /// Makes the range of an executable value known to the caller.
    pub fn reduced(&self)
        ensures
            self.wf(),
            M31::from_int(self@) == *self,
    {
        proof {
            use_type_invariant(self);
            lemma_small_mod(self@ as nat, modulus() as nat);
        }
    }

    /// The element with residue `arg`.
    pub fn from_u32_unchecked(arg: u32) -> (r: M31)
        requires
            arg < P,
        ensures
            r@ == arg,
            r == M31::from_int(arg as int),
    {
        proof {
            lemma_small_mod(arg as nat, modulus() as nat);
        }
        M31 { v: arg }
    }

    /// Reduces a value below `2p`.
    pub fn partial_reduce(val: u32) -> (r: M31)
        requires
            val < 2 * P,
        ensures
            r == M31::from_int(val as int),
    {
        let v: u32 = if val >= P {
            val - P
        } else {
            val
        };
        assert(v as int == (val as int) % modulus());
        M31 { v }
    }

    /// Reduces a value below `p^2`, using `2^31 = 1 (mod p)`.
    pub fn reduce(val: u64) -> (r: M31)
        requires
            val <= 0x3fff_ffff_0000_0000u64,
        ensures
            r == M31::from_int(val as int),
    {
        let hi: u64 = val >> 31;
        assert(hi == val / 0x8000_0000u64) by (bit_vector)
            requires
                hi == val >> 31,
        ;
        let s: u64 = hi + val + 1;
        let t: u64 = s >> 31;
        assert(t == s / 0x8000_0000u64) by (bit_vector)
            requires
                t == s >> 31,
        ;
        let u: u64 = t + val;
        let w: u64 = u & 0x7fff_ffffu64;
        assert(w == u % 0x8000_0000u64) by (bit_vector)
            requires
                w == u & 0x7fff_ffffu64,
        ;
        assert(w as int == (val as int) % modulus());
        M31 { v: w as u32 }
    }

    /// The class of any 32-bit value.
    pub fn from_u32(val: u32) -> (r: M31)
        ensures
            r == M31::from_int(val as int),
    {
        let v: u32 = val % P;
        M31 { v }
    }

    pub fn zero() -> (r: M31)
        ensures
            r == M31::spec_zero(),
            r@ == 0,
    {
        M31 { v: 0 }
    }

    pub fn one() -> (r: M31)
        ensures
            r == M31::spec_one(),
            r@ == 1,
    {
        M31 { v: 1 }
    }

    /// The number of bytes that an element takes in a proof.
    pub fn size_estimate(&self) -> (r: usize)
        ensures
            r == 4,
    {
        N_BYTES_FELT
    }

    /// The stored residue.
    pub fn value(&self) -> (r: u32)
        ensures
            r == self@,
            r < P,
    {
        proof {
            use_type_invariant(self);
        }
        self.v
    }

    pub fn is_zero(&self) -> (r: bool)
        ensures
            r == (*self == M31::spec_zero()),
            r == (self@ == 0),
    {
        self.v == 0
    }

    pub fn add(self, rhs: M31) -> (r: M31)
        ensures
            r == self.spec_add(rhs),
    {
        proof {
            use_type_invariant(&self);
            use_type_invariant(&rhs);
        }
        let s: u32 = self.v + rhs.v;
        let v: u32 = if s >= P {
            s - P
        } else {
            s
        };
        assert(v as int == (self.v as int + rhs.v as int) % modulus());
        M31 { v }
    }

    pub fn sub(self, rhs: M31) -> (r: M31)
        ensures
            r == self.spec_sub(rhs),
    {
        proof {
            use_type_invariant(&self);
            use_type_invariant(&rhs);
        }
        let v: u32 = if self.v >= rhs.v {
            self.v - rhs.v
        } else {
            self.v + P - rhs.v
        };
        assert(v as int == (self.v as int - rhs.v as int) % modulus());
        M31 { v }
    }

    pub fn neg(self) -> (r: M31)
        ensures
            r == self.spec_neg(),
    {
        proof {
            use_type_invariant(&self);
        }
        let v: u32 = if self.v == 0 {
            0
        } else {
            P - self.v
        };
        assert(v as int == (-(self.v as int)) % modulus());
        M31 { v }
    }

    pub fn mul(self, rhs: M31) -> (r: M31)
        ensures
            r == self.spec_mul(rhs),
    {
        proof {
            use_type_invariant(&self);
            use_type_invariant(&rhs);
            assert((self.v as int) * (rhs.v as int) <= 0x3fff_ffff_0000_0000) by (nonlinear_arith)
                requires
                    0 <= self.v < 2147483647,
                    0 <= rhs.v < 2147483647,
            ;
        }
        M31::reduce((self.v as u64) * (rhs.v as u64))
    }

    pub fn square(self) -> (r: M31)
        ensures
            r == self.spec_square(),
    {
        self.mul(self)
    }

    pub fn double(self) -> (r: M31)
        ensures
            r == self.spec_double(),
    {
        self.add(self)
    }
}


/// The ring laws of `F_p`, over the operations that the contracts above use.
impl M31 {
    /// Addition is commutative.
    pub proof fn lemma_add_commutative(a: M31, b: M31)
        ensures
            a.spec_add(b) == b.spec_add(a),
    {
    }

    /// Addition is associative.
    pub proof fn lemma_add_associative(a: M31, b: M31, c: M31)
        ensures
            a.spec_add(b).spec_add(c) == a.spec_add(b.spec_add(c)),
    {
        assert(((a@ + b@) % modulus() + c@) % modulus() == (a@ + (b@ + c@) % modulus())
            % modulus());
    }

    /// Multiplication is commutative.
    pub proof fn lemma_mul_commutative(a: M31, b: M31)
        ensures
            a.spec_mul(b) == b.spec_mul(a),
    {
        assert(a@ * b@ == b@ * a@) by (nonlinear_arith);
    }

    /// Multiplication is associative.
    pub proof fn lemma_mul_associative(a: M31, b: M31, c: M31)
        ensures
            a.spec_mul(b).spec_mul(c) == a.spec_mul(b.spec_mul(c)),
    {
        lemma_mul_mod_noop_left(a@ * b@, c@, modulus());
        lemma_mul_mod_noop_right(a@, b@ * c@, modulus());
        assert((a@ * b@) * c@ == a@ * (b@ * c@)) by (nonlinear_arith);
    }

    /// Multiplication distributes over addition.
    pub proof fn lemma_distributive(a: M31, b: M31, c: M31)
        ensures
            a.spec_mul(b.spec_add(c)) == a.spec_mul(b).spec_add(a.spec_mul(c)),
    {
        lemma_mul_mod_noop_right(a@, b@ + c@, modulus());
        lemma_add_mod_noop(a@ * b@, a@ * c@, modulus());
        assert(a@ * (b@ + c@) == a@ * b@ + a@ * c@) by (nonlinear_arith);
    }

    /// Multiplication distributes over subtraction.
    pub proof fn lemma_distributive_sub(a: M31, b: M31, c: M31)
        ensures
            a.spec_mul(b.spec_sub(c)) == a.spec_mul(b).spec_sub(a.spec_mul(c)),
    {
        lemma_mul_mod_noop_right(a@, b@ - c@, modulus());
        lemma_sub_mod_noop(a@ * b@, a@ * c@, modulus());
        assert(a@ * (b@ - c@) == a@ * b@ - a@ * c@) by (nonlinear_arith);
    }

    /// Zero is neutral for addition.
    pub proof fn lemma_add_zero(a: M31)
        requires
            0 <= a@ < modulus(),
        ensures
            a.spec_add(M31::spec_zero()) == a,
    {
        lemma_small_mod(a@ as nat, modulus() as nat);
    }

    /// One is neutral for multiplication.
    pub proof fn lemma_mul_one(a: M31)
        requires
            0 <= a@ < modulus(),
        ensures
            a.spec_mul(M31::spec_one()) == a,
    {
        lemma_small_mod(a@ as nat, modulus() as nat);
        assert(a@ * 1 == a@);
    }

    /// Zero absorbs under multiplication.
    pub proof fn lemma_mul_zero(a: M31)
        ensures
            a.spec_mul(M31::spec_zero()) == M31::spec_zero(),
    {
        assert(a@ * 0 == 0);
    }

    /// An element and its negation sum to zero.
    pub proof fn lemma_add_neg(a: M31)
        ensures
            a.spec_add(a.spec_neg()) == M31::spec_zero(),
    {
        lemma_add_mod_noop_right(a@, -a@, modulus());
    }

    /// Adding back what was subtracted gives the element again, and so does
    /// subtracting what was added.
    pub proof fn lemma_sub_add_cancel(a: M31, b: M31)
        requires
            a.wf(),
            b.wf(),
        ensures
            a.spec_sub(b).spec_add(b) == a,
            a.spec_add(b).spec_sub(b) == a,
    {
        Self::lemma_wf_from_int(a);
        Self::lemma_wf_from_int(b);
        Self::lemma_hom_add(a@ - b@, b@);
        Self::lemma_hom_sub(a@ + b@, b@);
    }

    /// Sums and differences of two sums may be taken term by term.
    pub proof fn lemma_rearrange(p: M31, q: M31, r: M31, s: M31)
        requires
            p.wf(),
            q.wf(),
            r.wf(),
            s.wf(),
        ensures
            p.spec_add(q).spec_add(r.spec_add(s)) == p.spec_add(r).spec_add(q.spec_add(s)),
            p.spec_add(q).spec_sub(r.spec_add(s)) == p.spec_sub(r).spec_add(q.spec_sub(s)),
    {
        Self::lemma_wf_from_int(p);
        Self::lemma_wf_from_int(q);
        Self::lemma_wf_from_int(r);
        Self::lemma_wf_from_int(s);
        Self::lemma_hom_add(p@, q@);
        Self::lemma_hom_add(r@, s@);
        Self::lemma_hom_add(p@, r@);
        Self::lemma_hom_add(q@, s@);
        Self::lemma_hom_sub(p@, r@);
        Self::lemma_hom_sub(q@, s@);
        Self::lemma_hom_add(p@ + q@, r@ + s@);
        Self::lemma_hom_add(p@ + r@, q@ + s@);
        Self::lemma_hom_sub(p@ + q@, r@ + s@);
        Self::lemma_hom_add(p@ - r@, q@ - s@);
    }

    /// Subtracting is adding the negation.
    pub proof fn lemma_sub_is_add_neg(a: M31, b: M31)
        ensures
            a.spec_sub(b) == a.spec_add(b.spec_neg()),
    {
        lemma_add_mod_noop_right(a@, -b@, modulus());
    }

    /// The class of a sum is the sum of the classes.
    pub proof fn lemma_hom_add(x: int, y: int)
        ensures
            M31::from_int(x).spec_add(M31::from_int(y)) == M31::from_int(x + y),
    {
        lemma_add_mod_noop(x, y, modulus());
    }

    /// The class of a difference is the difference of the classes.
    pub proof fn lemma_hom_sub(x: int, y: int)
        ensures
            M31::from_int(x).spec_sub(M31::from_int(y)) == M31::from_int(x - y),
    {
        lemma_sub_mod_noop(x, y, modulus());
    }

    /// The class of a product is the product of the classes.
    pub proof fn lemma_hom_mul(x: int, y: int)
        ensures
            M31::from_int(x).spec_mul(M31::from_int(y)) == M31::from_int(x * y),
    {
        lemma_mul_mod_noop(x, y, modulus());
    }

    /// The class of a negation is the negation of the class.
    pub proof fn lemma_hom_neg(x: int)
        ensures
            M31::from_int(x).spec_neg() == M31::from_int(-x),
    {
        lemma_sub_mod_noop(0, x, modulus());
    }

    /// A least residue is the class of its view.
    pub proof fn lemma_wf_from_int(a: M31)
        requires
            a.wf(),
        ensures
            a == M31::from_int(a@),
    {
        lemma_small_mod(a@ as nat, modulus() as nat);
    }

    /// Every result of an operation is a least residue.
    pub proof fn lemma_from_int_range(i: int)
        ensures
            0 <= M31::from_int(i)@ < modulus(),
    {
    }

    /// `a^(m + n) = a^m * a^n`.
    pub proof fn lemma_pow_add(a: M31, m: nat, n: nat)
        ensures
            a.spec_pow(m + n) == a.spec_pow(m).spec_mul(a.spec_pow(n)),
        decreases m,
    {
        if m == 0 {
            Self::lemma_pow_range(a, n);
            Self::lemma_mul_one(a.spec_pow(n));
            Self::lemma_mul_commutative(a.spec_pow(n), M31::spec_one());
        } else {
            Self::lemma_pow_add(a, (m - 1) as nat, n);
            assert(a.spec_pow(m + n) == a.spec_mul(a.spec_pow((m + n - 1) as nat)));
            Self::lemma_mul_associative(a, a.spec_pow((m - 1) as nat), a.spec_pow(n));
        }
    }

    /// A power is a least residue.
    pub proof fn lemma_pow_range(a: M31, n: nat)
        ensures
            0 <= a.spec_pow(n)@ < modulus(),
    {
        if n == 0 {
        } else {
        }
    }

    /// `(a * b)^n = a^n * b^n`.
    pub proof fn lemma_pow_of_product(a: M31, b: M31, n: nat)
        ensures
            a.spec_mul(b).spec_pow(n) == a.spec_pow(n).spec_mul(b.spec_pow(n)),
        decreases n,
    {
        if n == 0 {
            Self::lemma_mul_one(M31::spec_one());
        } else {
            let k = (n - 1) as nat;
            Self::lemma_pow_of_product(a, b, k);
            let ak = a.spec_pow(k);
            let bk = b.spec_pow(k);
            // (a b)(ak bk) = (a ak)(b bk)
            Self::lemma_mul_associative(a, b, ak.spec_mul(bk));
            Self::lemma_mul_associative(b, ak, bk);
            Self::lemma_mul_commutative(b, ak);
            Self::lemma_mul_associative(ak, b, bk);
            Self::lemma_mul_associative(a, ak, b.spec_mul(bk));
        }
    }

    /// `(a^2)^n = a^(2n)`.
    pub proof fn lemma_pow_of_square(a: M31, n: nat)
        ensures
            a.spec_square().spec_pow(n) == a.spec_pow(2 * n),
    {
        Self::lemma_pow_of_product(a, a, n);
        Self::lemma_pow_add(a, n, n);
    }

    /// `a^1 = a`.
    pub proof fn lemma_pow_one(a: M31)
        requires
            0 <= a@ < modulus(),
        ensures
            a.spec_pow(1) == a,
    {
        assert(a.spec_pow(1) == a.spec_mul(a.spec_pow(0)));
        Self::lemma_mul_one(a);
    }
}

impl M31 {
    /// `self^exp` by squaring.
    pub fn pow(self, exp: u128) -> (r: M31)
        ensures
            r == self.spec_pow(exp as nat),
    {
        let mut res: M31 = M31::one();
        let mut base: M31 = self;
        let mut e: u128 = exp;
        self.reduced();
        proof {
            Self::lemma_pow_range(self, exp as nat);
            Self::lemma_mul_one(self.spec_pow(exp as nat));
            Self::lemma_mul_commutative(self.spec_pow(exp as nat), M31::spec_one());
        }
        while e > 0
            invariant
                res.spec_mul(base.spec_pow(e as nat)) == self.spec_pow(exp as nat),
            decreases e,
        {
            let ghost e0 = e;
            let ghost base0 = base;
            let ghost res0 = res;
            if e & 1 == 1 {
                res = res.mul(base);
            }
            base = base.square();
            e = e >> 1;
            proof {
                assert(e == e0 / 2 && (e0 & 1 == 1 <==> e0 % 2 == 1)) by (bit_vector)
                    requires
                        e == e0 >> 1,
                ;
                Self::lemma_pow_of_square(base0, e as nat);
                if e0 % 2 == 1 {
                    assert(e0 as nat == 1 + 2 * (e as nat));
                    // base0^e0 = base0 * base0^(2e)
                    Self::lemma_mul_associative(res0, base0, base0.spec_pow(2 * (e as nat)));
                } else {
                    assert(e0 as nat == 2 * (e as nat));
                }
            }
        }
        res.reduced();
        proof {
            assert(base.spec_pow(0) == M31::spec_one());
            Self::lemma_mul_one(res);
        }
        res
    }

    /// The Fermat power `self^(p - 2)`: the inverse of a non-zero element,
    /// and zero for zero.
    pub fn inverse_or_zero(self) -> (r: M31)
        ensures
            r == self.spec_inverse(),
    {
        self.pow(2147483645)
    }

    /// The inverse of an element other than zero, as the power with the
    /// exponent `p - 2`.
    pub fn inverse(self) -> (r: M31)
        requires
            self@ != 0,
        ensures
            r == self.spec_inverse(),
            self.spec_mul(r) == M31::spec_one(),
    {
        self.reduced();
        proof {
            crate::fields::fermat::lemma_inverse(self);
        }
        self.pow(2147483645)
    }
}

} // verus!
