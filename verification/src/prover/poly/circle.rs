//! Circle polynomials by their coefficients, and evaluations on circle domains.

use vstd::prelude::*;
use vstd::arithmetic::power2::{lemma2_to64, lemma_pow2_pos, pow2};
use crate::circle::secure_point::SecureCirclePoint;
use crate::fields::m31::M31;
use crate::fields::qm31::QM31;
use crate::poly::domain::CircleDomain;
use crate::poly::line::{secure_double_x, spec_secure_double_x};
use crate::poly::utils::{fold, spec_fold};
use crate::prover::poly::fft::{circle_fft, circle_ifft, spec_fft, spec_ifft};
use crate::prover::secure_column::SecureColumnByCoords;
use crate::utils::{copy_vec, exact_log2, lemma_pow2_monotone, pow2_usize};

verus! {

/// The coefficients as elements of the extension field.
pub open spec fn spec_embed(coeffs: Seq<M31>) -> Seq<QM31> {
    Seq::new(coeffs.len(), |i: int| QM31::spec_from_m31(coeffs[i]))
}

/// The factors by which the coefficients of a circle polynomial fold at a
/// point: the doublings of its first coordinate, from the last one down to
/// the coordinate itself, and then its second coordinate.
pub open spec fn spec_mappings(point: SecureCirclePoint, log_size: nat) -> Seq<QM31>
    decreases log_size,
{
    if log_size == 0 {
        Seq::empty()
    } else if log_size == 1 {
        seq![point.y]
    } else {
        spec_mappings(
            SecureCirclePoint { x: spec_secure_double_x(point.x), y: point.y },
            (log_size - 1) as nat,
        ).insert(log_size - 2, point.x)
    }
}

/// The coefficients followed by zeros up to the length `n`.
pub open spec fn spec_extend(coeffs: Seq<M31>, n: nat) -> Seq<M31> {
    Seq::new(
        n,
        |i: int|
            if i < coeffs.len() {
                coeffs[i]
            } else {
                M31::spec_zero()
            },
    )
}

/// Each value times `c`.
pub open spec fn spec_scale_base(values: Seq<M31>, c: M31) -> Seq<M31> {
    Seq::new(values.len(), |i: int| values[i].spec_mul(c))
}

/// A polynomial in two variables on the circle, by its `2^log_size`
/// coefficients in the basis of the circle transform, in bit-reversed order.
#[derive(Debug)]
pub struct CirclePoly {
    pub coeffs: Vec<M31>,
    pub log_size: u32,
}

impl Clone for CirclePoly {
    fn clone(&self) -> (r: CirclePoly)
        ensures
            r.coeffs@ == self.coeffs@,
            r.log_size == self.log_size,
    {
        CirclePoly { coeffs: copy_vec(&self.coeffs), log_size: self.log_size }
    }
}

impl CirclePoly {
    /// There are `2^log_size` coefficients.
    pub open spec fn wf(self) -> bool {
        self.coeffs@.len() == pow2(self.log_size as nat) && self.log_size < usize::BITS
    }

    /// The value of the polynomial at `point`.
    pub open spec fn spec_eval_at_point(self, point: SecureCirclePoint) -> QM31 {
        spec_fold(spec_embed(self.coeffs@), spec_mappings(point, self.log_size as nat))
    }

    /// Whether the coefficients from the index `n` on are zero.
    pub open spec fn spec_zero_from(self, n: nat) -> bool {
        forall|i: int| n <= i < self.coeffs@.len() ==> self.coeffs@[i] == M31::spec_zero()
    }

    /// The polynomial with the given coefficients, whose number is a power of two.
    pub fn new(coeffs: Vec<M31>) -> (r: CirclePoly)
        requires
            exists|e: nat| coeffs.len() == pow2(e),
        ensures
            r.coeffs == coeffs,
            r.wf(),
    {
        match exact_log2(coeffs.len()) {
            Some(log_size) => CirclePoly { coeffs, log_size },
            None => CirclePoly { coeffs, log_size: 0 },
        }
    }

    pub fn log_size(&self) -> (r: u32)
        ensures
            r == self.log_size,
    {
        self.log_size
    }

    /// The value of the polynomial at a point of the circle over the extension field.
    pub fn eval_at_point(&self, point: SecureCirclePoint) -> (r: QM31)
        requires
            self.wf(),
        ensures
            r == self.spec_eval_at_point(point),
    {
        let n = self.coeffs.len();
        let mut values: Vec<QM31> = Vec::with_capacity(n);
        let mut i: usize = 0;
        while i < n
            invariant
                i <= n,
                n == self.coeffs.len(),
                values.len() == i,
                forall|k: int| 0 <= k < i ==> values[k] == QM31::spec_from_m31(self.coeffs[k]),
            decreases n - i,
        {
            values.push(QM31::from_base(self.coeffs[i]));
            i = i + 1;
        }
        assert(values@ =~= spec_embed(self.coeffs@));
        let mappings = mappings_at(point, self.log_size);
        fold(&values, &mappings)
    }

    /// The same polynomial with `2^log_size` coefficients.
    pub fn extend(&self, log_size: u32) -> (r: CirclePoly)
        requires
            self.wf(),
            self.log_size <= log_size < usize::BITS,
        ensures
            r.coeffs@ == spec_extend(self.coeffs@, pow2(log_size as nat)),
            r.log_size == log_size,
            r.wf(),
    {
        let n = pow2_usize(log_size);
        proof {
            lemma_pow2_monotone(self.log_size as nat, log_size as nat);
        }
        let mut coeffs: Vec<M31> = Vec::with_capacity(n);
        let mut i: usize = 0;
        while i < n
            invariant
                i <= n,
                coeffs.len() == i,
                forall|k: int|
                    0 <= k < i ==> coeffs[k] == spec_extend(self.coeffs@, n as nat)[k],
            decreases n - i,
        {
            if i < self.coeffs.len() {
                coeffs.push(self.coeffs[i]);
            } else {
                coeffs.push(M31::zero());
            }
            i = i + 1;
        }
        assert(coeffs@ =~= spec_extend(self.coeffs@, n as nat));
        CirclePoly { coeffs, log_size }
    }

    /// The evaluations of the polynomial on `domain`, in bit-reversed order.
    pub fn evaluate(&self, domain: CircleDomain) -> (r: CircleEvaluation)
        requires
            self.wf(),
            self.log_size <= domain.spec_log_size(),
        ensures
            r.domain == domain,
            r.values@ == spec_fft(
                spec_extend(self.coeffs@, domain.spec_size()),
                domain,
                domain.spec_log_size(),
            ),
            r.wf(),
    {
        let extended = self.extend(domain.log_size());
        domain.valid();
        CircleEvaluation { domain, values: circle_fft(extended.coeffs, domain) }
    }

    /// Whether the polynomial lies in the space of the transform of size
    /// `2^log_fft_size`: its coefficients from that index on are zero.
    pub fn is_in_fft_space(&self, log_fft_size: u32) -> (r: bool)
        requires
            log_fft_size < usize::BITS,
        ensures
            r == self.spec_zero_from(pow2(log_fft_size as nat)),
    {
        self.zero_from(pow2_usize(log_fft_size))
    }

    /// Whether the polynomial lies in the space that FRI tests at the size
    /// `2^log_fft_size`: one more coefficient than in the space of the
    /// transform may differ from zero.
    pub fn is_in_fri_space(&self, log_fft_size: u32) -> (r: bool)
        requires
            log_fft_size + 1 < usize::BITS,
        ensures
            r == self.spec_zero_from(pow2(log_fft_size as nat) + 1),
    {
        proof {
            lemma2_to64();
            lemma_pow2_monotone(log_fft_size as nat, (usize::BITS - 2) as nat);
            vstd::arithmetic::power2::lemma_pow2_strictly_increases(
                (usize::BITS - 2) as nat,
                (usize::BITS - 1) as nat,
            );
            vstd::layout::unsigned_int_max_values();
            vstd::arithmetic::power2::lemma_pow2_unfold(usize::BITS as nat);
        }
        self.zero_from(pow2_usize(log_fft_size) + 1)
    }

    /// Whether the coefficients from the index `n` on are zero.
    fn zero_from(&self, n: usize) -> (r: bool)
        ensures
            r == self.spec_zero_from(n as nat),
    {
        let mut i: usize = n;
        while i < self.coeffs.len()
            invariant
                n <= i,
                forall|k: int|
                    n <= k < i && k < self.coeffs.len() ==> self.coeffs[k] == M31::spec_zero(),
            decreases self.coeffs.len() - i,
        {
            if !self.coeffs[i].is_zero() {
                return false;
            }
            i = i + 1;
        }
        true
    }
}

/// The factors by which the coefficients fold at `point`.
fn mappings_at(point: SecureCirclePoint, log_size: u32) -> (r: Vec<QM31>)
    ensures
        r@ == spec_mappings(point, log_size as nat),
        r.len() == log_size,
    decreases log_size,
{
    if log_size == 0 {
        Vec::new()
    } else if log_size == 1 {
        let mut out: Vec<QM31> = Vec::new();
        out.push(point.y);
        assert(out@ =~= seq![point.y]);
        out
    } else {
        let mut out = mappings_at(
            SecureCirclePoint { x: secure_double_x(point.x), y: point.y },
            log_size - 1,
        );
        out.insert((log_size - 2) as usize, point.x);
        out
    }
}

/// The evaluations of a polynomial on a circle domain, in bit-reversed order.
#[derive(Debug)]
pub struct CircleEvaluation {
    pub domain: CircleDomain,
    pub values: Vec<M31>,
}

impl Clone for CircleEvaluation {
    fn clone(&self) -> (r: CircleEvaluation)
        ensures
            r.values@ == self.values@,
            r.domain == self.domain,
    {
        CircleEvaluation { domain: self.domain, values: copy_vec(&self.values) }
    }
}

impl CircleEvaluation {
    /// There is one value for each point of the domain.
    pub open spec fn wf(self) -> bool {
        self.domain.wf() && self.values@.len() == self.domain.spec_size()
    }

    pub fn new(domain: CircleDomain, values: Vec<M31>) -> (r: CircleEvaluation)
        requires
            values.len() == domain.spec_size(),
        ensures
            r.domain == domain,
            r.values == values,
            r.wf(),
    {
        domain.valid();
        CircleEvaluation { domain, values }
    }

    /// The polynomial that takes the evaluations on the domain: the inverse
    /// transform, divided by the number of values.
    pub fn interpolate(self) -> (r: CirclePoly)
        requires
            self.wf(),
        ensures
            r.coeffs@ == spec_scale_base(
                spec_ifft(self.values@, self.domain, 0),
                M31::from_int(self.values@.len() as int).spec_inverse(),
            ),
            r.log_size == self.domain.spec_log_size(),
            r.wf(),
    {
        let n = self.values.len();
        let log_size = self.domain.log_size();
        proof {
            lemma_pow2_monotone(log_size as nat, 31);
            lemma2_to64();
        }
        let mut values = circle_ifft(self.values, self.domain);
        let inv = M31::from_u32(n as u32).inverse_or_zero();
        let ghost transformed = values@;
        let mut i: usize = 0;
        while i < n
            invariant
                i <= n,
                n == values.len(),
                n == transformed.len(),
                forall|k: int| 0 <= k < i ==> values[k] == transformed[k].spec_mul(inv),
                forall|k: int| i <= k < n ==> values[k] == transformed[k],
            decreases n - i,
        {
            let v = values[i].mul(inv);
            values.set(i, v);
            i = i + 1;
        }
        assert(values@ =~= spec_scale_base(transformed, inv));
        CirclePoly { coeffs: values, log_size }
    }
}

/// The evaluations of a polynomial with values in the extension field on a
/// circle domain, in bit-reversed order.
#[derive(Debug)]
pub struct SecureEvaluation {
    pub domain: CircleDomain,
    pub values: SecureColumnByCoords,
}

impl Clone for SecureEvaluation {
    fn clone(&self) -> (r: SecureEvaluation)
        ensures
            r.values@ == self.values@,
            r.domain == self.domain,
            self.wf() ==> r.wf(),
    {
        SecureEvaluation { domain: self.domain, values: self.values.clone() }
    }
}

impl SecureEvaluation {
    /// There is one value for each point of the domain.
    pub open spec fn wf(self) -> bool {
        &&& self.domain.wf()
        &&& self.values.wf()
        &&& self.values@.len() == self.domain.spec_size()
    }

    pub fn new(domain: CircleDomain, values: SecureColumnByCoords) -> (r: SecureEvaluation)
        requires
            values.wf(),
            values@.len() == domain.spec_size(),
        ensures
            r.domain == domain,
            r.values == values,
            r.wf(),
    {
        domain.valid();
        SecureEvaluation { domain, values }
    }

    pub fn len(&self) -> (r: usize)
        ensures
            r == self.values@.len(),
    {
        self.values.len()
    }

    /// The value at `index`.
    pub fn at(&self, index: usize) -> (r: QM31)
        requires
            self.wf(),
            index < self.values@.len(),
        ensures
            r == self.values@[index as int],
    {
        self.values.at(index)
    }
}

} // verus!
