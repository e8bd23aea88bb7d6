//! The quartic extension `F_p[i][u] / (u^2 - 2 - i)`, the field in which the
//! verifier draws its randomness.

use vstd::prelude::*;
use crate::fields::cm31::CM31;
use crate::fields::gauss::{
    gi_add, gi_mul, gi_r, lemma_gi_mul_zero, lemma_qi_distributive, lemma_qi_mul_associative,
    lemma_qi_mul_commutative, lemma_qi_mul_one, qi_add, qi_mul, qi_neg, qi_one, qi_sub,
};
use crate::fields::m31::{M31, P};

verus! {

/// Degree of the extension over the base field.
pub const SECURE_EXTENSION_DEGREE: usize = 4;

/// The element `self.0 + self.1 * u`.
#[derive(Copy, Clone, Debug, PartialEq, Eq, Structural, Hash)]
pub struct QM31(pub CM31, pub CM31);

pub type SecureField = QM31;

impl View for QM31 {
    type V = ((int, int), (int, int));

    /// The four residues.
    open spec fn view(&self) -> ((int, int), (int, int)) {
        (self.0@, self.1@)
    }
}

impl QM31 {
    /// The element whose coordinates are the classes of the four integers.
    pub open spec fn of(q: ((int, int), (int, int))) -> QM31 {
        QM31(CM31::of(q.0), CM31::of(q.1))
    }

    /// All four coordinates are least residues.
    pub open spec fn wf(self) -> bool {
        self.0.wf() && self.1.wf()
    }

    /// The constant `2 + i`, whose square root is `u`.
    pub open spec fn spec_r() -> CM31 {
        CM31::of(gi_r())
    }

    pub open spec fn spec_zero() -> QM31 {
        QM31(CM31::spec_zero(), CM31::spec_zero())
    }

    pub open spec fn spec_one() -> QM31 {
        QM31(CM31::spec_one(), CM31::spec_zero())
    }

    /// The base-field element `x` as an element of the extension.
    pub open spec fn spec_from_m31(x: M31) -> QM31 {
        QM31(CM31(x, M31::spec_zero()), CM31::spec_zero())
    }

    pub open spec fn spec_from_m31_array(a: Seq<M31>) -> QM31 {
        QM31(CM31(a[0], a[1]), CM31(a[2], a[3]))
    }

    pub open spec fn spec_to_m31_array(self) -> Seq<M31> {
        seq![self.0.0, self.0.1, self.1.0, self.1.1]
    }

    pub open spec fn spec_add(self, rhs: QM31) -> QM31 {
        QM31(self.0.spec_add(rhs.0), self.1.spec_add(rhs.1))
    }

    pub open spec fn spec_sub(self, rhs: QM31) -> QM31 {
        QM31(self.0.spec_sub(rhs.0), self.1.spec_sub(rhs.1))
    }

    pub open spec fn spec_neg(self) -> QM31 {
        QM31(self.0.spec_neg(), self.1.spec_neg())
    }

    /// `(a + bu)(c + du) = (ac + (2 + i)bd) + (ad + bc)u`.
    pub open spec fn spec_mul(self, rhs: QM31) -> QM31 {
        QM31(
            self.0.spec_mul(rhs.0).spec_add(QM31::spec_r().spec_mul(self.1).spec_mul(rhs.1)),
            self.0.spec_mul(rhs.1).spec_add(self.1.spec_mul(rhs.0)),
        )
    }

    pub open spec fn spec_square(self) -> QM31 {
        self.spec_mul(self)
    }

    pub open spec fn spec_double(self) -> QM31 {
        self.spec_add(self)
    }

    pub open spec fn spec_mul_cm31(self, rhs: CM31) -> QM31 {
        QM31(self.0.spec_mul(rhs), self.1.spec_mul(rhs))
    }

    pub open spec fn spec_mul_m31(self, rhs: M31) -> QM31 {
        QM31(self.0.spec_mul_m31(rhs), self.1.spec_mul_m31(rhs))
    }

    pub open spec fn spec_add_m31(self, rhs: M31) -> QM31 {
        QM31(self.0.spec_add_m31(rhs), self.1)
    }

    pub open spec fn spec_sub_m31(self, rhs: M31) -> QM31 {
        QM31(self.0.spec_sub_m31(rhs), self.1)
    }

    /// `self` raised to the power `n` by repeated multiplication.
    pub open spec fn spec_pow(self, n: nat) -> QM31
        decreases n,
    {
        if n == 0 {
            QM31::spec_one()
        } else {
            self.spec_mul(self.spec_pow((n - 1) as nat))
        }
    }

    /// The relative norm `a^2 - (2 + i) b^2` down to `F_p[i]`.
    pub open spec fn spec_denominator(self) -> CM31 {
        let b2 = self.1.spec_square();
        let ib2 = CM31(b2.1.spec_neg(), b2.0);
        self.0.spec_square().spec_sub(b2.spec_add(b2).spec_add(ib2))
    }

    /// The conjugate `a - bu` over the relative norm.
    pub open spec fn spec_inverse(self) -> QM31 {
        let denom_inverse = self.spec_denominator().spec_inverse();
        QM31(self.0.spec_mul(denom_inverse), self.1.spec_neg().spec_mul(denom_inverse))
    }

    /// `e0 + e1 * i + e2 * u + e3 * iu`, for four elements of the extension.
    pub open spec fn spec_from_partial_evals(evals: Seq<QM31>) -> QM31 {
        evals[0].spec_add(evals[1].spec_mul(QM31::of(((0, 1), (0, 0))))).spec_add(
            evals[2].spec_mul(QM31::of(((0, 0), (1, 0)))),
        ).spec_add(evals[3].spec_mul(QM31::of(((0, 0), (0, 1)))))
    }

    /// The four coordinates, each as an element of the extension.
    pub open spec fn spec_to_partial_evals(self) -> Seq<QM31> {
        seq![
            QM31::spec_from_m31(self.0.0),
            QM31::spec_from_m31(self.0.1),
            QM31::spec_from_m31(self.1.0),
            QM31::spec_from_m31(self.1.1),
        ]
    }

    /// The number of bytes that an element takes in a proof.
    pub fn size_estimate(&self) -> (r: usize)
        ensures
            r == 16,
    {
        4 * SECURE_EXTENSION_DEGREE
    }

    /// Makes the range of an executable value known to the caller.
    pub fn reduced(&self)
        ensures
            self.wf(),
            *self == QM31::of(self@),
    {
        self.0.reduced();
        self.1.reduced();
    }

    pub fn from_u32_unchecked(a: u32, b: u32, c: u32, d: u32) -> (r: QM31)
        requires
            a < P,
            b < P,
            c < P,
            d < P,
        ensures
            r == QM31::of(((a as int, b as int), (c as int, d as int))),
    {
        QM31(CM31::from_u32_unchecked(a, b), CM31::from_u32_unchecked(c, d))
    }

    pub fn from_m31(a: M31, b: M31, c: M31, d: M31) -> (r: QM31)
        ensures
            r == QM31(CM31(a, b), CM31(c, d)),
    {
        QM31(CM31(a, b), CM31(c, d))
    }

    pub fn from_m31_array(array: [M31; 4]) -> (r: QM31)
        ensures
            r == QM31::spec_from_m31_array(array@),
    {
        QM31(CM31(array[0], array[1]), CM31(array[2], array[3]))
    }

    pub fn to_m31_array(self) -> (r: [M31; 4])
        ensures
            r@ == self.spec_to_m31_array(),
    {
        let r = [self.0.0, self.0.1, self.1.0, self.1.1];
        assert(r@ =~= self.spec_to_m31_array());
        r
    }

    /// The embedding of the base field.
    pub fn from_base(x: M31) -> (r: QM31)
        ensures
            r == QM31::spec_from_m31(x),
    {
        QM31(CM31(x, M31::zero()), CM31::zero())
    }

    pub fn zero() -> (r: QM31)
        ensures
            r == QM31::spec_zero(),
    {
        QM31(CM31::zero(), CM31::zero())
    }

    pub fn one() -> (r: QM31)
        ensures
            r == QM31::spec_one(),
    {
        QM31(CM31::one(), CM31::zero())
    }

    pub fn is_zero(&self) -> (r: bool)
        ensures
            r == (*self == QM31::spec_zero()),
    {
        self.0.is_zero() && self.1.is_zero()
    }

    pub fn add(self, rhs: QM31) -> (r: QM31)
        ensures
            r == self.spec_add(rhs),
    {
        QM31(self.0.add(rhs.0), self.1.add(rhs.1))
    }

    pub fn sub(self, rhs: QM31) -> (r: QM31)
        ensures
            r == self.spec_sub(rhs),
    {
        QM31(self.0.sub(rhs.0), self.1.sub(rhs.1))
    }

    pub fn neg(self) -> (r: QM31)
        ensures
            r == self.spec_neg(),
    {
        QM31(self.0.neg(), self.1.neg())
    }

    pub fn mul(self, rhs: QM31) -> (r: QM31)
        ensures
            r == self.spec_mul(rhs),
    {
        let r = CM31::from_u32_unchecked(2, 1);
        QM31(
            self.0.mul(rhs.0).add(r.mul(self.1).mul(rhs.1)),
            self.0.mul(rhs.1).add(self.1.mul(rhs.0)),
        )
    }

    pub fn square(self) -> (r: QM31)
        ensures
            r == self.spec_square(),
    {
        self.mul(self)
    }

    pub fn double(self) -> (r: QM31)
        ensures
            r == self.spec_double(),
    {
        self.add(self)
    }

    pub fn mul_cm31(self, rhs: CM31) -> (r: QM31)
        ensures
            r == self.spec_mul_cm31(rhs),
    {
        QM31(self.0.mul(rhs), self.1.mul(rhs))
    }

    pub fn mul_m31(self, rhs: M31) -> (r: QM31)
        ensures
            r == self.spec_mul_m31(rhs),
    {
        QM31(self.0.mul_m31(rhs), self.1.mul_m31(rhs))
    }

    pub fn add_m31(self, rhs: M31) -> (r: QM31)
        ensures
            r == self.spec_add_m31(rhs),
    {
        QM31(self.0.add_m31(rhs), self.1)
    }

    pub fn sub_m31(self, rhs: M31) -> (r: QM31)
        ensures
            r == self.spec_sub_m31(rhs),
    {
        QM31(self.0.sub_m31(rhs), self.1)
    }

    /// The relative norm, whose inverse the inversion needs.
    pub fn denominator(self) -> (r: CM31)
        ensures
            r == self.spec_denominator(),
    {
        let b2 = self.1.square();
        let ib2 = CM31(b2.1.neg(), b2.0);
        self.0.square().sub(b2.add(b2).add(ib2))
    }

    /// The conjugate times the inverse of the relative norm, which is taken
    /// as zero where the norm down to `F_p` is zero.
    pub fn inverse_or_zero(self) -> (r: QM31)
        ensures
            r == self.spec_inverse(),
    {
        let denom_inverse = self.denominator().inverse_or_zero();
        QM31(self.0.mul(denom_inverse), self.1.neg().mul(denom_inverse))
    }

    /// The inverse of an element other than zero: the conjugate over the
    /// relative norm.
    pub fn inverse(self) -> (r: QM31)
        requires
            self != QM31::spec_zero(),
        ensures
            r == self.spec_inverse(),
            self.spec_mul(r) == QM31::spec_one(),
    {
        self.reduced();
        proof {
            crate::fields::fermat::lemma_quartic_inverse(self);
        }
        let denom_inverse = self.denominator().inverse();
        QM31(self.0.mul(denom_inverse), self.1.neg().mul(denom_inverse))
    }

    /// Combines four partial evaluations, one per coordinate polynomial.
    pub fn from_partial_evals(evals: [QM31; 4]) -> (r: QM31)
        ensures
            r == QM31::spec_from_partial_evals(evals@),
    {
        let mut res = evals[0];
        res = res.add(evals[1].mul(QM31::from_u32_unchecked(0, 1, 0, 0)));
        res = res.add(evals[2].mul(QM31::from_u32_unchecked(0, 0, 1, 0)));
        res = res.add(evals[3].mul(QM31::from_u32_unchecked(0, 0, 0, 1)));
        res
    }
}

/// How the operations act on classes of integers.
impl QM31 {
    pub proof fn lemma_wf_of(a: QM31)
        requires
            a.wf(),
        ensures
            a == QM31::of(a@),
    {
        CM31::lemma_wf_of(a.0);
        CM31::lemma_wf_of(a.1);
    }

    pub proof fn lemma_of_wf(q: ((int, int), (int, int)))
        ensures
            QM31::of(q).wf(),
    {
        CM31::lemma_of_wf(q.0);
        CM31::lemma_of_wf(q.1);
    }

    pub proof fn lemma_of_add(x: ((int, int), (int, int)), y: ((int, int), (int, int)))
        ensures
            QM31::of(x).spec_add(QM31::of(y)) == QM31::of(qi_add(x, y)),
    {
        CM31::lemma_of_add(x.0, y.0);
        CM31::lemma_of_add(x.1, y.1);
    }

    pub proof fn lemma_of_sub(x: ((int, int), (int, int)), y: ((int, int), (int, int)))
        ensures
            QM31::of(x).spec_sub(QM31::of(y)) == QM31::of(qi_sub(x, y)),
    {
        CM31::lemma_of_sub(x.0, y.0);
        CM31::lemma_of_sub(x.1, y.1);
    }

    pub proof fn lemma_of_neg(x: ((int, int), (int, int)))
        ensures
            QM31::of(x).spec_neg() == QM31::of(qi_neg(x)),
    {
        CM31::lemma_of_neg(x.0);
        CM31::lemma_of_neg(x.1);
    }

    pub proof fn lemma_of_mul(x: ((int, int), (int, int)), y: ((int, int), (int, int)))
        ensures
            QM31::of(x).spec_mul(QM31::of(y)) == QM31::of(qi_mul(x, y)),
    {
        let r = gi_r();
        CM31::lemma_of_mul(x.0, y.0);
        CM31::lemma_of_mul(r, x.1);
        CM31::lemma_of_mul(gi_mul(r, x.1), y.1);
        CM31::lemma_of_add(gi_mul(x.0, y.0), gi_mul(gi_mul(r, x.1), y.1));
        CM31::lemma_of_mul(x.0, y.1);
        CM31::lemma_of_mul(x.1, y.0);
        CM31::lemma_of_add(gi_mul(x.0, y.1), gi_mul(x.1, y.0));
    }

    /// Every result of an operation has reduced coordinates.
    pub proof fn lemma_results_wf(a: QM31, b: QM31)
        ensures
            a.spec_add(b).wf(),
            a.spec_sub(b).wf(),
            a.spec_mul(b).wf(),
            a.spec_neg().wf(),
    {
        CM31::lemma_results_wf(a.0, b.0);
        CM31::lemma_results_wf(a.1, b.1);
        CM31::lemma_results_wf(a.0.spec_mul(b.0), QM31::spec_r().spec_mul(a.1).spec_mul(b.1));
        CM31::lemma_results_wf(a.0.spec_mul(b.1), a.1.spec_mul(b.0));
    }
}

/// The ring laws of the quartic extension.
impl QM31 {
    /// Addition is commutative.
    pub proof fn lemma_add_commutative(a: QM31, b: QM31)
        ensures
            a.spec_add(b) == b.spec_add(a),
    {
        CM31::lemma_add_commutative(a.0, b.0);
        CM31::lemma_add_commutative(a.1, b.1);
    }

    /// Addition is associative.
    pub proof fn lemma_add_associative(a: QM31, b: QM31, c: QM31)
        ensures
            a.spec_add(b).spec_add(c) == a.spec_add(b.spec_add(c)),
    {
        CM31::lemma_add_associative(a.0, b.0, c.0);
        CM31::lemma_add_associative(a.1, b.1, c.1);
    }

    /// Multiplication is commutative.
    pub proof fn lemma_mul_commutative(a: QM31, b: QM31)
        requires
            a.wf(),
            b.wf(),
        ensures
            a.spec_mul(b) == b.spec_mul(a),
    {
        Self::lemma_wf_of(a);
        Self::lemma_wf_of(b);
        Self::lemma_of_mul(a@, b@);
        Self::lemma_of_mul(b@, a@);
        lemma_qi_mul_commutative(a@, b@);
    }

    /// Multiplication is associative.
    pub proof fn lemma_mul_associative(a: QM31, b: QM31, c: QM31)
        requires
            a.wf(),
            b.wf(),
            c.wf(),
        ensures
            a.spec_mul(b).spec_mul(c) == a.spec_mul(b.spec_mul(c)),
    {
        Self::lemma_wf_of(a);
        Self::lemma_wf_of(b);
        Self::lemma_wf_of(c);
        Self::lemma_of_mul(a@, b@);
        Self::lemma_of_mul(qi_mul(a@, b@), c@);
        Self::lemma_of_mul(b@, c@);
        Self::lemma_of_mul(a@, qi_mul(b@, c@));
        lemma_qi_mul_associative(a@, b@, c@);
    }

    /// Multiplication distributes over addition.
    pub proof fn lemma_distributive(a: QM31, b: QM31, c: QM31)
        requires
            a.wf(),
            b.wf(),
            c.wf(),
        ensures
            a.spec_mul(b.spec_add(c)) == a.spec_mul(b).spec_add(a.spec_mul(c)),
    {
        Self::lemma_wf_of(a);
        Self::lemma_wf_of(b);
        Self::lemma_wf_of(c);
        Self::lemma_of_add(b@, c@);
        Self::lemma_of_mul(a@, qi_add(b@, c@));
        Self::lemma_of_mul(a@, b@);
        Self::lemma_of_mul(a@, c@);
        Self::lemma_of_add(qi_mul(a@, b@), qi_mul(a@, c@));
        lemma_qi_distributive(a@, b@, c@);
    }

    /// Multiplication distributes over subtraction.
    pub proof fn lemma_distributive_sub(a: QM31, b: QM31, c: QM31)
        requires
            a.wf(),
            b.wf(),
            c.wf(),
        ensures
            a.spec_mul(b.spec_sub(c)) == a.spec_mul(b).spec_sub(a.spec_mul(c)),
    {
        Self::lemma_wf_of(a);
        Self::lemma_wf_of(b);
        Self::lemma_wf_of(c);
        Self::lemma_of_sub(b@, c@);
        Self::lemma_of_mul(a@, qi_sub(b@, c@));
        Self::lemma_of_mul(a@, b@);
        Self::lemma_of_mul(a@, c@);
        Self::lemma_of_sub(qi_mul(a@, b@), qi_mul(a@, c@));
        lemma_qi_distributive(a@, b@, c@);
    }

    /// One is neutral for multiplication.
    pub proof fn lemma_mul_one(a: QM31)
        requires
            a.wf(),
        ensures
            a.spec_mul(QM31::spec_one()) == a,
            QM31::spec_one().spec_mul(a) == a,
    {
        Self::lemma_wf_of(a);
        Self::lemma_of_mul(a@, qi_one());
        lemma_qi_mul_one(a@);
        Self::lemma_of_wf(qi_one());
        Self::lemma_mul_commutative(a, QM31::spec_one());
    }

    /// Sums and differences of two sums may be taken term by term.
    pub proof fn lemma_rearrange(p: QM31, q: QM31, r: QM31, s: QM31)
        requires
            p.wf(),
            q.wf(),
            r.wf(),
            s.wf(),
        ensures
            p.spec_add(q).spec_add(r.spec_add(s)) == p.spec_add(r).spec_add(q.spec_add(s)),
            p.spec_add(q).spec_sub(r.spec_add(s)) == p.spec_sub(r).spec_add(q.spec_sub(s)),
    {
        M31::lemma_rearrange(p.0.0, q.0.0, r.0.0, s.0.0);
        M31::lemma_rearrange(p.0.1, q.0.1, r.0.1, s.0.1);
        M31::lemma_rearrange(p.1.0, q.1.0, r.1.0, s.1.0);
        M31::lemma_rearrange(p.1.1, q.1.1, r.1.1, s.1.1);
    }

    /// To multiply by an element of the base field is to multiply by that
    /// element as an element of the extension.
    pub proof fn lemma_mul_m31_is_mul(x: QM31, t: M31)
        requires
            x.wf(),
            t.wf(),
        ensures
            x.spec_mul_m31(t) == x.spec_mul(QM31::spec_from_m31(t)),
            x.spec_mul_m31(t).wf(),
            QM31::spec_from_m31(t).wf(),
    {
        let e = ((t@, 0int), (0int, 0int));
        let q = x@;
        Self::lemma_wf_of(x);
        M31::lemma_wf_from_int(t);
        M31::lemma_from_int_range(0);
        assert(QM31::spec_from_m31(t) == QM31::of(e));
        Self::lemma_of_mul(q, e);
        assert(qi_mul(q, e) == ((q.0.0 * t@, q.0.1 * t@), (q.1.0 * t@, q.1.1 * t@))) by {
            reveal(gi_mul);
            lemma_gi_mul_zero(q.0);
            lemma_gi_mul_zero(gi_mul(gi_r(), q.1));
            assert(q.0.1 * 0 == 0);
            assert(q.0.0 * 0 == 0);
            assert(q.1.1 * 0 == 0);
            assert(q.1.0 * 0 == 0);
        }
        M31::lemma_hom_mul(q.0.0, t@);
        M31::lemma_hom_mul(q.0.1, t@);
        M31::lemma_hom_mul(q.1.0, t@);
        M31::lemma_hom_mul(q.1.1, t@);
        Self::lemma_of_wf(qi_mul(q, e));
        Self::lemma_of_wf(e);
    }

    /// Adding back what was subtracted gives the element again, and so does
    /// subtracting what was added.
    pub proof fn lemma_sub_add_cancel(a: QM31, b: QM31)
        requires
            a.wf(),
            b.wf(),
        ensures
            a.spec_sub(b).spec_add(b) == a,
            a.spec_add(b).spec_sub(b) == a,
    {
        CM31::lemma_sub_add_cancel(a.0, b.0);
        CM31::lemma_sub_add_cancel(a.1, b.1);
    }

    /// Zero is neutral for addition.
    pub proof fn lemma_add_zero(a: QM31)
        requires
            a.wf(),
        ensures
            a.spec_add(QM31::spec_zero()) == a,
    {
        CM31::lemma_add_zero(a.0);
        CM31::lemma_add_zero(a.1);
    }
}


/// Powers.
impl QM31 {
    /// A power has reduced coordinates.
    pub proof fn lemma_pow_wf(a: QM31, n: nat)
        ensures
            a.spec_pow(n).wf(),
    {
        if n == 0 {
            Self::lemma_of_wf(qi_one());
        } else {
            Self::lemma_results_wf(a, a.spec_pow((n - 1) as nat));
        }
    }

    /// `a^(m + n) = a^m * a^n`.
    pub proof fn lemma_pow_add(a: QM31, m: nat, n: nat)
        requires
            a.wf(),
        ensures
            a.spec_pow(m + n) == a.spec_pow(m).spec_mul(a.spec_pow(n)),
        decreases m,
    {
        Self::lemma_pow_wf(a, n);
        if m == 0 {
            Self::lemma_mul_one(a.spec_pow(n));
            Self::lemma_of_wf(qi_one());
            Self::lemma_mul_commutative(a.spec_pow(n), QM31::spec_one());
        } else {
            Self::lemma_pow_add(a, (m - 1) as nat, n);
            Self::lemma_pow_wf(a, (m - 1) as nat);
            assert(a.spec_pow(m + n) == a.spec_mul(a.spec_pow((m + n - 1) as nat)));
            Self::lemma_mul_associative(a, a.spec_pow((m - 1) as nat), a.spec_pow(n));
        }
    }

    /// `(a * b)^n = a^n * b^n`.
    pub proof fn lemma_pow_of_product(a: QM31, b: QM31, n: nat)
        requires
            a.wf(),
            b.wf(),
        ensures
            a.spec_mul(b).spec_pow(n) == a.spec_pow(n).spec_mul(b.spec_pow(n)),
        decreases n,
    {
        if n == 0 {
            Self::lemma_of_wf(qi_one());
            Self::lemma_mul_one(QM31::spec_one());
        } else {
            let k = (n - 1) as nat;
            Self::lemma_pow_of_product(a, b, k);
            let ak = a.spec_pow(k);
            let bk = b.spec_pow(k);
            Self::lemma_pow_wf(a, k);
            Self::lemma_pow_wf(b, k);
            Self::lemma_results_wf(ak, bk);
            Self::lemma_results_wf(b, bk);
            Self::lemma_mul_associative(a, b, ak.spec_mul(bk));
            Self::lemma_mul_associative(b, ak, bk);
            Self::lemma_mul_commutative(b, ak);
            Self::lemma_mul_associative(ak, b, bk);
            Self::lemma_mul_associative(a, ak, b.spec_mul(bk));
        }
    }

    /// `(a^2)^n = a^(2n)`.
    pub proof fn lemma_pow_of_square(a: QM31, n: nat)
        requires
            a.wf(),
        ensures
            a.spec_square().spec_pow(n) == a.spec_pow(2 * n),
    {
        Self::lemma_pow_of_product(a, a, n);
        Self::lemma_pow_add(a, n, n);
    }

    /// `a^1 = a`.
    pub proof fn lemma_pow_one(a: QM31)
        requires
            a.wf(),
        ensures
            a.spec_pow(1) == a,
    {
        assert(a.spec_pow(1) == a.spec_mul(a.spec_pow(0)));
        Self::lemma_mul_one(a);
    }

    /// `self^exp` by squaring.
    pub fn pow(self, exp: u128) -> (r: QM31)
        ensures
            r == self.spec_pow(exp as nat),
    {
        let mut res: QM31 = QM31::one();
        let mut base: QM31 = self;
        let mut e: u128 = exp;
        self.reduced();
        proof {
            Self::lemma_pow_wf(self, exp as nat);
            Self::lemma_mul_one(self.spec_pow(exp as nat));
            Self::lemma_of_wf(qi_one());
            Self::lemma_mul_commutative(self.spec_pow(exp as nat), QM31::spec_one());
        }
        while e > 0
            invariant
                res.spec_mul(base.spec_pow(e as nat)) == self.spec_pow(exp as nat),
            decreases e,
        {
            let ghost e0 = e;
            let ghost base0 = base;
            let ghost res0 = res;
            base.reduced();
            res.reduced();
            if e & 1 == 1 {
                res = res.mul(base);
            }
            base = base.square();
            e = e >> 1;
            proof {
                assert(e == e0 / 2 && (e0 & 1 == 1 <==> e0 % 2 == 1)) by (bit_vector)
                    requires
                        e == e0 >> 1,
                ;
                Self::lemma_pow_of_square(base0, e as nat);
                if e0 % 2 == 1 {
                    assert(e0 as nat == 1 + 2 * (e as nat));
                    Self::lemma_pow_wf(base0, 2 * (e as nat));
                    Self::lemma_mul_associative(res0, base0, base0.spec_pow(2 * (e as nat)));
                } else {
                    assert(e0 as nat == 2 * (e as nat));
                }
            }
        }
        res.reduced();
        proof {
            assert(base.spec_pow(0) == QM31::spec_one());
            Self::lemma_mul_one(res);
        }
        res
    }
}

} // verus!
