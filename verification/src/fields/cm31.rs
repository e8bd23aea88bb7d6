//! The quadratic extension `F_p[i] / (i^2 + 1)`.

use vstd::prelude::*;
use crate::fields::gauss::{gi_add, gi_mul, gi_neg, gi_sub, lemma_gi_distributive, lemma_gi_mul_associative, lemma_gi_mul_one};
use crate::fields::m31::M31;

verus! {

/// The element `self.0 + self.1 * i`.
#[derive(Copy, Clone, Debug, PartialEq, Eq, Structural, Hash)]
pub struct CM31(pub M31, pub M31);

impl View for CM31 {
    type V = (int, int);

    /// The pair of residues.
    open spec fn view(&self) -> (int, int) {
        (self.0@, self.1@)
    }
}

impl CM31 {
    /// The element whose coordinates are the classes of the two integers.
    pub open spec fn of(g: (int, int)) -> CM31 {
        CM31(M31::from_int(g.0), M31::from_int(g.1))
    }

    /// Both coordinates are least residues.
    pub open spec fn wf(self) -> bool {
        self.0.wf() && self.1.wf()
    }

    /// The element whose coordinates are the classes of `x` and `y`.
    pub open spec fn of_ints(x: int, y: int) -> CM31 {
        CM31(M31::from_int(x), M31::from_int(y))
    }

    pub open spec fn spec_zero() -> CM31 {
        CM31::of_ints(0, 0)
    }

    pub open spec fn spec_one() -> CM31 {
        CM31::of_ints(1, 0)
    }

    pub open spec fn spec_add(self, rhs: CM31) -> CM31 {
        CM31(self.0.spec_add(rhs.0), self.1.spec_add(rhs.1))
    }

    pub open spec fn spec_sub(self, rhs: CM31) -> CM31 {
        CM31(self.0.spec_sub(rhs.0), self.1.spec_sub(rhs.1))
    }

    pub open spec fn spec_neg(self) -> CM31 {
        CM31(self.0.spec_neg(), self.1.spec_neg())
    }

    /// `(a + bi)(c + di) = (ac - bd) + (ad + bc)i`.
    pub open spec fn spec_mul(self, rhs: CM31) -> CM31 {
        CM31(
            self.0.spec_mul(rhs.0).spec_sub(self.1.spec_mul(rhs.1)),
            self.0.spec_mul(rhs.1).spec_add(self.1.spec_mul(rhs.0)),
        )
    }

    pub open spec fn spec_mul_m31(self, rhs: M31) -> CM31 {
        CM31(self.0.spec_mul(rhs), self.1.spec_mul(rhs))
    }

    pub open spec fn spec_add_m31(self, rhs: M31) -> CM31 {
        CM31(self.0.spec_add(rhs), self.1)
    }

    pub open spec fn spec_sub_m31(self, rhs: M31) -> CM31 {
        CM31(self.0.spec_sub(rhs), self.1)
    }

    pub open spec fn spec_square(self) -> CM31 {
        self.spec_mul(self)
    }

    /// `self` raised to the power `n` by repeated multiplication.
    pub open spec fn spec_pow(self, n: nat) -> CM31
        decreases n,
    {
        if n == 0 {
            CM31::spec_one()
        } else {
            self.spec_mul(self.spec_pow((n - 1) as nat))
        }
    }

    pub open spec fn spec_conjugate(self) -> CM31 {
        CM31(self.0, self.1.spec_neg())
    }

    /// The norm `a^2 + b^2` down to `F_p`.
    pub open spec fn spec_norm(self) -> M31 {
        self.0.spec_square().spec_add(self.1.spec_square())
    }

    /// The conjugate over the norm.
    pub open spec fn spec_inverse(self) -> CM31 {
        self.spec_conjugate().spec_mul_m31(self.spec_norm().spec_inverse())
    }

    pub open spec fn spec_from_m31(x: M31) -> CM31 {
        CM31(x, M31::spec_zero())
    }

    /// Makes the range of an executable value known to the caller.
    pub fn reduced(&self)
        ensures
            self.wf(),
            *self == CM31::of(self@),
    {
        self.0.reduced();
        self.1.reduced();
    }

    pub fn from_u32_unchecked(a: u32, b: u32) -> (r: CM31)
        requires
            a < crate::fields::m31::P,
            b < crate::fields::m31::P,
        ensures
            r == CM31::of_ints(a as int, b as int),
    {
        CM31(M31::from_u32_unchecked(a), M31::from_u32_unchecked(b))
    }

    pub fn from_m31(a: M31, b: M31) -> (r: CM31)
        ensures
            r == CM31(a, b),
    {
        CM31(a, b)
    }

    pub fn zero() -> (r: CM31)
        ensures
            r == CM31::spec_zero(),
    {
        CM31(M31::zero(), M31::zero())
    }

    pub fn one() -> (r: CM31)
        ensures
            r == CM31::spec_one(),
    {
        CM31(M31::one(), M31::zero())
    }

    pub fn is_zero(&self) -> (r: bool)
        ensures
            r == (*self == CM31::spec_zero()),
    {
        self.0.is_zero() && self.1.is_zero()
    }

    pub fn add(self, rhs: CM31) -> (r: CM31)
        ensures
            r == self.spec_add(rhs),
    {
        CM31(self.0.add(rhs.0), self.1.add(rhs.1))
    }

    pub fn sub(self, rhs: CM31) -> (r: CM31)
        ensures
            r == self.spec_sub(rhs),
    {
        CM31(self.0.sub(rhs.0), self.1.sub(rhs.1))
    }

    pub fn neg(self) -> (r: CM31)
        ensures
            r == self.spec_neg(),
    {
        CM31(self.0.neg(), self.1.neg())
    }

    pub fn mul(self, rhs: CM31) -> (r: CM31)
        ensures
            r == self.spec_mul(rhs),
    {
        CM31(
            self.0.mul(rhs.0).sub(self.1.mul(rhs.1)),
            self.0.mul(rhs.1).add(self.1.mul(rhs.0)),
        )
    }

    pub fn mul_m31(self, rhs: M31) -> (r: CM31)
        ensures
            r == self.spec_mul_m31(rhs),
    {
        CM31(self.0.mul(rhs), self.1.mul(rhs))
    }

    pub fn add_m31(self, rhs: M31) -> (r: CM31)
        ensures
            r == self.spec_add_m31(rhs),
    {
        CM31(self.0.add(rhs), self.1)
    }

    pub fn sub_m31(self, rhs: M31) -> (r: CM31)
        ensures
            r == self.spec_sub_m31(rhs),
    {
        CM31(self.0.sub(rhs), self.1)
    }

    pub fn square(self) -> (r: CM31)
        ensures
            r == self.spec_square(),
    {
        self.mul(self)
    }

    pub fn conjugate(self) -> (r: CM31)
        ensures
            r == self.spec_conjugate(),
    {
        CM31(self.0, self.1.neg())
    }

    pub fn norm(self) -> (r: M31)
        ensures
            r == self.spec_norm(),
    {
        self.0.square().add(self.1.square())
    }

    /// The conjugate times the Fermat power of the norm: the inverse where
    /// the norm is not zero, and zero where it is.
    pub fn inverse_or_zero(self) -> (r: CM31)
        ensures
            r == self.spec_inverse(),
    {
        let n = self.norm();
        self.conjugate().mul_m31(n.inverse_or_zero())
    }

    /// The inverse of an element other than zero: the conjugate over the
    /// norm.
    pub fn inverse(self) -> (r: CM31)
        requires
            self != CM31::spec_zero(),
        ensures
            r == self.spec_inverse(),
            self.spec_mul(r) == CM31::spec_one(),
    {
        self.reduced();
        proof {
            crate::fields::fermat::lemma_complex_inverse(self);
        }
        let n = self.norm();
        self.conjugate().mul_m31(n.inverse())
    }
}


/// How the operations act on classes of integers.
impl CM31 {
    pub proof fn lemma_wf_of(a: CM31)
        requires
            a.wf(),
        ensures
            a == CM31::of(a@),
    {
        M31::lemma_wf_from_int(a.0);
        M31::lemma_wf_from_int(a.1);
    }

    pub proof fn lemma_of_wf(g: (int, int))
        ensures
            CM31::of(g).wf(),
    {
        M31::lemma_from_int_range(g.0);
        M31::lemma_from_int_range(g.1);
    }

    pub proof fn lemma_of_add(g: (int, int), h: (int, int))
        ensures
            CM31::of(g).spec_add(CM31::of(h)) == CM31::of(gi_add(g, h)),
    {
        M31::lemma_hom_add(g.0, h.0);
        M31::lemma_hom_add(g.1, h.1);
    }

    pub proof fn lemma_of_sub(g: (int, int), h: (int, int))
        ensures
            CM31::of(g).spec_sub(CM31::of(h)) == CM31::of(gi_sub(g, h)),
    {
        M31::lemma_hom_sub(g.0, h.0);
        M31::lemma_hom_sub(g.1, h.1);
    }

    pub proof fn lemma_of_neg(g: (int, int))
        ensures
            CM31::of(g).spec_neg() == CM31::of(gi_neg(g)),
    {
        M31::lemma_hom_neg(g.0);
        M31::lemma_hom_neg(g.1);
    }

    pub proof fn lemma_of_mul(g: (int, int), h: (int, int))
        ensures
            CM31::of(g).spec_mul(CM31::of(h)) == CM31::of(gi_mul(g, h)),
    {
        reveal(gi_mul);
        M31::lemma_hom_mul(g.0, h.0);
        M31::lemma_hom_mul(g.1, h.1);
        M31::lemma_hom_mul(g.0, h.1);
        M31::lemma_hom_mul(g.1, h.0);
        M31::lemma_hom_sub(g.0 * h.0, g.1 * h.1);
        M31::lemma_hom_add(g.0 * h.1, g.1 * h.0);
    }

    /// Every result of an operation has reduced coordinates.
    pub proof fn lemma_results_wf(a: CM31, b: CM31)
        ensures
            a.spec_add(b).wf(),
            a.spec_sub(b).wf(),
            a.spec_mul(b).wf(),
            a.spec_neg().wf(),
    {
        M31::lemma_from_int_range(a.0@ + b.0@);
        M31::lemma_from_int_range(a.1@ + b.1@);
        M31::lemma_from_int_range(a.0@ - b.0@);
        M31::lemma_from_int_range(a.1@ - b.1@);
        M31::lemma_from_int_range(-a.0@);
        M31::lemma_from_int_range(-a.1@);
        M31::lemma_from_int_range(a.0.spec_mul(b.0)@ - a.1.spec_mul(b.1)@);
        M31::lemma_from_int_range(a.0.spec_mul(b.1)@ + a.1.spec_mul(b.0)@);
    }
}

/// The ring laws of `F_p[i]`.
impl CM31 {
    /// Addition is commutative.
    pub proof fn lemma_add_commutative(a: CM31, b: CM31)
        ensures
            a.spec_add(b) == b.spec_add(a),
    {
        M31::lemma_add_commutative(a.0, b.0);
        M31::lemma_add_commutative(a.1, b.1);
    }

    /// Addition is associative.
    pub proof fn lemma_add_associative(a: CM31, b: CM31, c: CM31)
        ensures
            a.spec_add(b).spec_add(c) == a.spec_add(b.spec_add(c)),
    {
        M31::lemma_add_associative(a.0, b.0, c.0);
        M31::lemma_add_associative(a.1, b.1, c.1);
    }

    /// Multiplication is commutative.
    pub proof fn lemma_mul_commutative(a: CM31, b: CM31)
        ensures
            a.spec_mul(b) == b.spec_mul(a),
    {
        M31::lemma_mul_commutative(a.0, b.0);
        M31::lemma_mul_commutative(a.1, b.1);
        M31::lemma_mul_commutative(a.0, b.1);
        M31::lemma_mul_commutative(a.1, b.0);
        M31::lemma_add_commutative(a.0.spec_mul(b.1), a.1.spec_mul(b.0));
    }

    /// Multiplication is associative.
    pub proof fn lemma_mul_associative(a: CM31, b: CM31, c: CM31)
        requires
            a.wf(),
            b.wf(),
            c.wf(),
        ensures
            a.spec_mul(b).spec_mul(c) == a.spec_mul(b.spec_mul(c)),
    {
        Self::lemma_wf_of(a);
        Self::lemma_wf_of(b);
        Self::lemma_wf_of(c);
        Self::lemma_of_mul(a@, b@);
        Self::lemma_of_mul(gi_mul(a@, b@), c@);
        Self::lemma_of_mul(b@, c@);
        Self::lemma_of_mul(a@, gi_mul(b@, c@));
        lemma_gi_mul_associative(a@, b@, c@);
    }

    /// Multiplication distributes over addition.
    pub proof fn lemma_distributive(a: CM31, b: CM31, c: CM31)
        requires
            a.wf(),
            b.wf(),
            c.wf(),
        ensures
            a.spec_mul(b.spec_add(c)) == a.spec_mul(b).spec_add(a.spec_mul(c)),
    {
        Self::lemma_wf_of(a);
        Self::lemma_wf_of(b);
        Self::lemma_wf_of(c);
        Self::lemma_of_add(b@, c@);
        Self::lemma_of_mul(a@, gi_add(b@, c@));
        Self::lemma_of_mul(a@, b@);
        Self::lemma_of_mul(a@, c@);
        Self::lemma_of_add(gi_mul(a@, b@), gi_mul(a@, c@));
        lemma_gi_distributive(a@, b@, c@);
    }

    /// One is neutral for multiplication.
    pub proof fn lemma_mul_one(a: CM31)
        requires
            a.wf(),
        ensures
            a.spec_mul(CM31::spec_one()) == a,
            CM31::spec_one().spec_mul(a) == a,
    {
        Self::lemma_mul_commutative(a, CM31::spec_one());
        Self::lemma_wf_of(a);
        Self::lemma_of_mul(a@, (1, 0));
        lemma_gi_mul_one(a@);
    }

    /// Adding back what was subtracted gives the element again, and so does
    /// subtracting what was added.
    pub proof fn lemma_sub_add_cancel(a: CM31, b: CM31)
        requires
            a.wf(),
            b.wf(),
        ensures
            a.spec_sub(b).spec_add(b) == a,
            a.spec_add(b).spec_sub(b) == a,
    {
        M31::lemma_sub_add_cancel(a.0, b.0);
        M31::lemma_sub_add_cancel(a.1, b.1);
    }

    /// Zero is neutral for addition.
    pub proof fn lemma_add_zero(a: CM31)
        requires
            a.wf(),
        ensures
            a.spec_add(CM31::spec_zero()) == a,
    {
        M31::lemma_add_zero(a.0);
        M31::lemma_add_zero(a.1);
    }
}


/// Powers.
impl CM31 {
    /// A power has reduced coordinates.
    pub proof fn lemma_pow_wf(a: CM31, n: nat)
        ensures
            a.spec_pow(n).wf(),
    {
        if n == 0 {
            Self::lemma_of_wf((1, 0));
        } else {
            Self::lemma_results_wf(a, a.spec_pow((n - 1) as nat));
        }
    }

    /// `a^(m + n) = a^m * a^n`.
    pub proof fn lemma_pow_add(a: CM31, m: nat, n: nat)
        requires
            a.wf(),
        ensures
            a.spec_pow(m + n) == a.spec_pow(m).spec_mul(a.spec_pow(n)),
        decreases m,
    {
        Self::lemma_pow_wf(a, n);
        if m == 0 {
            Self::lemma_mul_one(a.spec_pow(n));
            Self::lemma_of_wf((1, 0));
            Self::lemma_mul_commutative(a.spec_pow(n), CM31::spec_one());
        } else {
            Self::lemma_pow_add(a, (m - 1) as nat, n);
            Self::lemma_pow_wf(a, (m - 1) as nat);
            assert(a.spec_pow(m + n) == a.spec_mul(a.spec_pow((m + n - 1) as nat)));
            Self::lemma_mul_associative(a, a.spec_pow((m - 1) as nat), a.spec_pow(n));
        }
    }

    /// `(a * b)^n = a^n * b^n`.
    pub proof fn lemma_pow_of_product(a: CM31, b: CM31, n: nat)
        requires
            a.wf(),
            b.wf(),
        ensures
            a.spec_mul(b).spec_pow(n) == a.spec_pow(n).spec_mul(b.spec_pow(n)),
        decreases n,
    {
        if n == 0 {
            Self::lemma_of_wf((1, 0));
            Self::lemma_mul_one(CM31::spec_one());
        } else {
            let k = (n - 1) as nat;
            Self::lemma_pow_of_product(a, b, k);
            let ak = a.spec_pow(k);
            let bk = b.spec_pow(k);
            Self::lemma_pow_wf(a, k);
            Self::lemma_pow_wf(b, k);
            Self::lemma_results_wf(ak, bk);
            Self::lemma_results_wf(b, bk);
            Self::lemma_mul_associative(a, b, ak.spec_mul(bk));
            Self::lemma_mul_associative(b, ak, bk);
            Self::lemma_mul_commutative(b, ak);
            Self::lemma_mul_associative(ak, b, bk);
            Self::lemma_mul_associative(a, ak, b.spec_mul(bk));
        }
    }

    /// `(a^2)^n = a^(2n)`.
    pub proof fn lemma_pow_of_square(a: CM31, n: nat)
        requires
            a.wf(),
        ensures
            a.spec_square().spec_pow(n) == a.spec_pow(2 * n),
    {
        Self::lemma_pow_of_product(a, a, n);
        Self::lemma_pow_add(a, n, n);
    }

    /// `a^1 = a`.
    pub proof fn lemma_pow_one(a: CM31)
        requires
            a.wf(),
        ensures
            a.spec_pow(1) == a,
    {
        assert(a.spec_pow(1) == a.spec_mul(a.spec_pow(0)));
        Self::lemma_mul_one(a);
    }

    /// `self^exp` by squaring.
    pub fn pow(self, exp: u128) -> (r: CM31)
        ensures
            r == self.spec_pow(exp as nat),
    {
        let mut res: CM31 = CM31::one();
        let mut base: CM31 = self;
        let mut e: u128 = exp;
        self.reduced();
        proof {
            Self::lemma_pow_wf(self, exp as nat);
            Self::lemma_mul_one(self.spec_pow(exp as nat));
            Self::lemma_of_wf((1, 0));
            Self::lemma_mul_commutative(self.spec_pow(exp as nat), CM31::spec_one());
        }
        while e > 0
            invariant
                res.spec_mul(base.spec_pow(e as nat)) == self.spec_pow(exp as nat),
            decreases e,
        {
            let ghost e0 = e;
            let ghost base0 = base;
            let ghost res0 = res;
            base.reduced();
            res.reduced();
            if e & 1 == 1 {
                res = res.mul(base);
            }
            base = base.square();
            e = e >> 1;
            proof {
                assert(e == e0 / 2 && (e0 & 1 == 1 <==> e0 % 2 == 1)) by (bit_vector)
                    requires
                        e == e0 >> 1,
                ;
                Self::lemma_pow_of_square(base0, e as nat);
                if e0 % 2 == 1 {
                    assert(e0 as nat == 1 + 2 * (e as nat));
                    Self::lemma_pow_wf(base0, 2 * (e as nat));
                    Self::lemma_mul_associative(res0, base0, base0.spec_pow(2 * (e as nat)));
                } else {
                    assert(e0 as nat == 2 * (e as nat));
                }
            }
        }
        res.reduced();
        proof {
            assert(base.spec_pow(0) == CM31::spec_one());
            Self::lemma_mul_one(res);
        }
        res
    }
}

} // verus!
