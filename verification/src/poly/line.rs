//! Line domains, the first coordinates of the points of a coset, and the
//! polynomials in one variable over them.

use vstd::prelude::*;
use vstd::arithmetic::power2::{lemma2_to64, lemma_pow2_unfold, pow2};
use crate::circle::coset::Coset;
use crate::circle::point::CirclePoint;
use crate::fields::m31::M31;
use crate::fields::qm31::QM31;
use crate::poly::domain::CircleDomain;
use crate::poly::utils::{fold, spec_fold};
use crate::utils::{bit_reverse, copy_vec, exact_log2, spec_bit_reversed};

verus! {

/// The first coordinates of the points of a coset.
#[derive(Copy, Clone, Debug)]
pub struct LineDomain {
    coset: Coset,
}

impl LineDomain {
    pub closed spec fn spec_coset(self) -> Coset {
        self.coset
    }

    /// The coset is valid.
    #[verifier::type_invariant]
    pub open spec fn wf(self) -> bool {
        self.spec_coset().wf()
    }

    /// What makes the first coordinates of a coset pairwise different: two
    /// points do not share the axis `x = 0`, and with more points the first
    /// has an order at least four times that of the step.
    pub open spec fn spec_unique_x(coset: Coset) -> bool {
        if coset.spec_size() < 2 {
            true
        } else if coset.spec_size() == 2 {
            coset.spec_initial().x != M31::spec_zero()
        } else {
            coset.spec_initial().spec_log_order() >= coset.spec_step().spec_log_order() + 2
        }
    }

    pub open spec fn spec_log_size(self) -> nat {
        self.spec_coset().spec_log_size()
    }

    pub open spec fn spec_size(self) -> nat {
        pow2(self.spec_log_size())
    }

    /// The domain of the first coordinates of the half coset of a circle domain.
    pub closed spec fn spec_from_circle_domain(domain: CircleDomain) -> LineDomain {
        LineDomain { coset: domain.spec_half_coset() }
    }

    /// The domain of the doubles of the points.
    pub closed spec fn spec_double(self) -> LineDomain {
        LineDomain { coset: self.coset.spec_double() }
    }

    /// The `i`-th element.
    pub open spec fn spec_at(self, i: nat) -> M31 {
        self.spec_coset().spec_at(i).x
    }

    /// Doubling halves the number of elements: the coset is doubled.
    pub proof fn lemma_double_log_size(self)
        requires
            1 <= self.spec_log_size() <= 31,
        ensures
            self.spec_double().spec_log_size() == self.spec_log_size() - 1,
            self.spec_double().spec_coset() == self.spec_coset().spec_double(),
    {
        self.coset.lemma_double_log_size();
    }

    /// The coset of the domain of a circle domain is its half coset.
    pub proof fn lemma_from_circle_domain(domain: CircleDomain)
        ensures
            LineDomain::spec_from_circle_domain(domain).spec_coset() == domain.spec_half_coset(),
    {
    }

    /// Makes the invariant of an executable value known to the caller.
    pub fn valid(&self)
        ensures
            self.wf(),
    {
        proof {
            use_type_invariant(self);
        }
    }

    /// The domain of the first coordinates of `coset`.
    pub fn new(coset: Coset) -> (r: LineDomain)
        requires
            LineDomain::spec_unique_x(coset),
        ensures
            r.wf(),
            r.spec_coset() == coset,
    {
        coset.valid();
        LineDomain { coset }
    }

    /// The domain of `coset`, if its first coordinates are pairwise different.
    pub fn try_new(coset: Coset) -> (r: Option<LineDomain>)
        ensures
            r.is_some() == LineDomain::spec_unique_x(coset),
            r.is_some() ==> r.unwrap().spec_coset() == coset && r.unwrap().wf(),
    {
        coset.valid();
        let size = coset.size();
        proof {
            lemma2_to64();
        }
        let ok = if size < 2 {
            true
        } else if size == 2 {
            !coset.initial().x.is_zero()
        } else {
            coset.initial().log_order() >= coset.step().log_order() + 2
        };
        if ok {
            Some(LineDomain { coset })
        } else {
            None
        }
    }

    /// The domain of the first coordinates of the half coset of a circle domain.
    pub fn from_circle_domain(domain: CircleDomain) -> (r: LineDomain)
        ensures
            r == LineDomain::spec_from_circle_domain(domain),
            r.wf(),
            r.spec_coset() == domain.spec_half_coset(),
    {
        domain.valid();
        LineDomain { coset: domain.half_coset() }
    }

    /// The `i`-th element.
    pub fn at(&self, i: usize) -> (r: M31)
        ensures
            r == self.spec_at(i as nat),
    {
        self.coset.at(i).x
    }

    pub fn size(&self) -> (r: usize)
        ensures
            r == self.spec_size(),
    {
        self.coset.size()
    }

    pub fn log_size(&self) -> (r: u32)
        ensures
            r == self.spec_log_size(),
            r <= 31,
    {
        self.coset.log_size()
    }

    /// The elements in their order.
    pub fn iter(&self) -> (r: Vec<M31>)
        ensures
            r.len() == self.spec_size(),
            forall|i: int| 0 <= i < r.len() ==> r[i] == self.spec_at(i as nat),
    {
        let n = self.size();
        let mut out: Vec<M31> = Vec::with_capacity(n);
        let mut i: usize = 0;
        while i < n
            invariant
                i <= n,
                n == self.spec_size(),
                out.len() == i,
                forall|j: int| 0 <= j < i ==> out[j] == self.spec_at(j as nat),
            decreases n - i,
        {
            out.push(self.at(i));
            i = i + 1;
        }
        out
    }

    /// The domain of the doubles of the points: half as many elements.
    pub fn double(&self) -> (r: LineDomain)
        requires
            self.spec_log_size() > 0,
        ensures
            r == self.spec_double(),
            r.wf(),
            r.spec_coset().spec_initial_index() == self.spec_coset().spec_initial_index().spec_mul(
                2,
            ),
            r.spec_log_size() == self.spec_log_size() - 1,
    {
        LineDomain { coset: self.coset.double() }
    }

    pub fn coset(&self) -> (r: Coset)
        ensures
            r == self.spec_coset(),
            r.wf(),
    {
        proof {
            use_type_invariant(self);
        }
        self.coset
    }
}

/// The first coordinate after `k` doublings: `x, pi(x), pi(pi(x)), ...` with
/// `pi(x) = 2x^2 - 1`.
pub open spec fn spec_secure_double_x(x: QM31) -> QM31 {
    x.spec_square().spec_add(x.spec_square()).spec_sub(QM31::spec_one())
}

/// The first `n` iterates of the doubling map from `x` on.
pub open spec fn spec_doublings(x: QM31, n: nat) -> Seq<QM31>
    decreases n,
{
    if n == 0 {
        Seq::empty()
    } else {
        seq![x] + spec_doublings(spec_secure_double_x(x), (n - 1) as nat)
    }
}

/// The doubling map of the circle on a first coordinate in the extension field.
pub fn secure_double_x(x: QM31) -> (r: QM31)
    ensures
        r == spec_secure_double_x(x),
{
    let sx = x.square();
    sx.add(sx).sub(QM31::one())
}

/// A polynomial in one variable, by its coefficients in the basis
/// `1, x, pi(x), pi(x) x, pi(pi(x)), ...`, stored in bit-reversed order.
#[derive(Debug)]
pub struct LinePoly {
    coeffs: Vec<QM31>,
    log_size: u32,
}

impl Clone for LinePoly {
    fn clone(&self) -> (r: LinePoly)
        ensures
            r@ == self@,
            r.spec_log_size() == self.spec_log_size(),
    {
        proof {
            use_type_invariant(self);
        }
        LinePoly { coeffs: copy_vec(&self.coeffs), log_size: self.log_size }
    }
}

impl View for LinePoly {
    type V = Seq<QM31>;

    /// The coefficients as they are stored.
    closed spec fn view(&self) -> Seq<QM31> {
        self.coeffs@
    }
}

impl LinePoly {
    pub closed spec fn spec_log_size(self) -> nat {
        self.log_size as nat
    }

    /// There are `2^log_size` coefficients.
    #[verifier::type_invariant]
    pub open spec fn wf(self) -> bool {
        self@.len() == pow2(self.spec_log_size()) && self.spec_log_size() < usize::BITS
    }

    /// The value of the polynomial with stored coefficients `coeffs` at `x`.
    pub open spec fn spec_eval(coeffs: Seq<QM31>, log_size: nat, x: QM31) -> QM31 {
        spec_fold(coeffs, spec_doublings(x, log_size))
    }

    /// The value of the polynomial at `x`.
    pub open spec fn spec_eval_at_point(self, x: QM31) -> QM31 {
        LinePoly::spec_eval(self@, self.spec_log_size(), x)
    }

    /// Makes the invariant of an executable value known to the caller.
    pub fn valid(&self)
        ensures
            self.wf(),
    {
        proof {
            use_type_invariant(self);
        }
    }

    /// The polynomial with the given bit-reversed coefficients, whose number
    /// is a power of two.
    pub fn new(coeffs: Vec<QM31>) -> (r: LinePoly)
        requires
            exists|e: nat| coeffs.len() == pow2(e),
        ensures
            r@ == coeffs@,
            r.wf(),
    {
        let log = exact_log2(coeffs.len());
        match log {
            Some(log_size) => LinePoly { coeffs, log_size },
            None => {
                proof {
                    assert(false);
                }
                LinePoly { coeffs: vec![QM31::zero()], log_size: 0 }
            },
        }
    }

    /// The polynomial with the given bit-reversed coefficients, if their
    /// number is a power of two.
    pub fn try_new(coeffs: Vec<QM31>) -> (r: Option<LinePoly>)
        ensures
            r.is_some() == (exists|e: nat| coeffs.len() == pow2(e)),
            r.is_some() ==> r.unwrap()@ == coeffs@ && r.unwrap().wf(),
    {
        let log = exact_log2(coeffs.len());
        match log {
            Some(log_size) => Some(LinePoly { coeffs, log_size }),
            None => None,
        }
    }

    /// The value of the polynomial at `x`.
    pub fn eval_at_point(&self, x: QM31) -> (r: QM31)
        ensures
            r == self.spec_eval_at_point(x),
    {
        proof {
            use_type_invariant(self);
        }
        let mut doublings: Vec<QM31> = Vec::new();
        let mut cur = x;
        let mut k: u32 = 0;
        while k < self.log_size
            invariant
                k <= self.log_size,
                doublings.len() == k,
                doublings@ + spec_doublings(cur, (self.log_size - k) as nat) == spec_doublings(
                    x,
                    self.log_size as nat,
                ),
            decreases self.log_size - k,
        {
            proof {
                assert(doublings@.push(cur) + spec_doublings(
                    spec_secure_double_x(cur),
                    (self.log_size - k - 1) as nat,
                ) =~= doublings@ + spec_doublings(cur, (self.log_size - k) as nat));
            }
            doublings.push(cur);
            cur = secure_double_x(cur);
            k = k + 1;
        }
        proof {
            assert(doublings@ + spec_doublings(cur, 0) =~= doublings@);
        }
        fold(&self.coeffs, &doublings)
    }

    /// The number of coefficients.
    pub fn len(&self) -> (r: usize)
        ensures
            r == self@.len(),
            r == pow2(self.spec_log_size()),
    {
        proof {
            use_type_invariant(self);
        }
        self.coeffs.len()
    }

    /// The logarithm of the number of coefficients.
    pub fn log_size(&self) -> (r: u32)
        ensures
            r == self.spec_log_size(),
    {
        self.log_size
    }

    /// The coefficients as they are stored.
    pub fn coeffs(&self) -> (r: &Vec<QM31>)
        ensures
            r@ == self@,
    {
        &self.coeffs
    }

    /// The coefficients in their natural order.
    pub fn into_ordered_coefficients(self) -> (r: Vec<QM31>)
        ensures
            r@ == spec_bit_reversed(self@, self.spec_log_size()),
            r.len() == pow2(self.spec_log_size()),
    {
        proof {
            use_type_invariant(&self);
        }
        let mut coeffs = self.coeffs;
        bit_reverse(&mut coeffs, self.log_size);
        coeffs
    }

    /// The polynomial with the given coefficients in their natural order,
    /// whose number is a power of two.
    pub fn from_ordered_coefficients(coeffs: Vec<QM31>) -> (r: LinePoly)
        requires
            exists|e: nat| coeffs.len() == pow2(e),
        ensures
            r.wf(),
            r@ == spec_bit_reversed(coeffs@, r.spec_log_size()),
            coeffs.len() == pow2(r.spec_log_size()),
    {
        let log = exact_log2(coeffs.len());
        match log {
            Some(log_size) => {
                let mut coeffs = coeffs;
                bit_reverse(&mut coeffs, log_size);
                LinePoly { coeffs, log_size }
            },
            None => {
                proof {
                    assert(false);
                }
                LinePoly { coeffs: vec![QM31::zero()], log_size: 0 }
            },
        }
    }
}

/// The number of coefficients determines its logarithm.
pub proof fn lemma_log_size_of_len(poly: LinePoly, log_size: nat)
    requires
        poly.wf(),
        poly@.len() == pow2(log_size),
    ensures
        poly.spec_log_size() == log_size,
{
    let l = poly.spec_log_size();
    if l < log_size {
        vstd::arithmetic::power2::lemma_pow2_strictly_increases(l, log_size);
    } else if l > log_size {
        vstd::arithmetic::power2::lemma_pow2_strictly_increases(log_size, l);
    }
}

} // verus!
