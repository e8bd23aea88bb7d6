//! Evaluations of a line polynomial on its domain, and their interpolation.

use vstd::prelude::*;
use vstd::arithmetic::power2::{lemma2_to64, lemma_pow2_pos, lemma_pow2_unfold, pow2};
use crate::fields::m31::M31;
use crate::fields::qm31::QM31;
use crate::poly::line::{LineDomain, LinePoly};
use crate::prover::secure_column::SecureColumnByCoords;
use crate::utils::{bit_reverse, lemma_pow2_monotone, spec_bit_reversed};

verus! {

/// One layer of the inverse transform on chunks of `2^log_size` values: the
/// first half of each chunk takes `a + b`, the second `(a - b) / x`, where
/// `a` and `b` stand half a chunk apart and `x` runs over the first half of
/// the domain.
pub open spec fn spec_ifft_layer(values: Seq<QM31>, domain: LineDomain) -> Seq<QM31> {
    let size = domain.spec_size() as int;
    let half = size / 2;
    Seq::new(
        values.len(),
        |j: int|
            if j % size < half {
                values[j].spec_add(values[j + half])
            } else {
                values[j - half].spec_sub(values[j]).spec_mul_m31(
                    domain.spec_at((j % size - half) as nat).spec_inverse(),
                )
            },
    )
}

/// The inverse transform by `layers` layers, each on the doubled domain of
/// the layer before: from the values of a polynomial on `domain`, in their
/// natural order, to its coefficients in bit-reversed order, times the
/// number of values.
pub open spec fn spec_line_ifft(values: Seq<QM31>, domain: LineDomain, layers: nat) -> Seq<QM31>
    decreases layers,
{
    if layers == 0 {
        values
    } else {
        spec_line_ifft(spec_ifft_layer(values, domain), domain.spec_double(), (layers - 1) as nat)
    }
}

/// Each value times `c`.
pub open spec fn spec_scale(values: Seq<QM31>, c: M31) -> Seq<QM31> {
    Seq::new(values.len(), |i: int| values[i].spec_mul_m31(c))
}

/// The stored coefficients of the polynomial with the given values, in
/// bit-reversed order, on `domain`.
pub open spec fn spec_interpolate(values: Seq<QM31>, domain: LineDomain) -> Seq<QM31> {
    spec_scale(
        spec_line_ifft(
            spec_bit_reversed(values, domain.spec_log_size()),
            domain,
            domain.spec_log_size(),
        ),
        M31::from_int(values.len() as int).spec_inverse(),
    )
}

/// The inverse transform of the values of a polynomial on `domain`, in
/// place and without the division by the number of values.
pub fn line_ifft(values: &mut Vec<QM31>, domain: LineDomain)
    requires
        old(values).len() == domain.spec_size(),
    ensures
        final(values)@ == spec_line_ifft(old(values)@, domain, domain.spec_log_size()),
        final(values).len() == old(values).len(),
{
    let n = values.len();
    let mut domain = domain;
    let ghost first = domain;
    domain.valid();
    while domain.log_size() > 0
        invariant
            domain.wf(),
            values.len() == n,
            domain.spec_log_size() <= first.spec_log_size(),
            n == first.spec_size(),
            spec_line_ifft(values@, domain, domain.spec_log_size()) == spec_line_ifft(
                old(values)@,
                first,
                first.spec_log_size(),
            ),
        decreases domain.spec_log_size(),
    {
        let size = domain.size();
        let half = size / 2;
        proof {
            lemma_pow2_unfold(domain.spec_log_size());
            lemma_pow2_pos((domain.spec_log_size() - 1) as nat);
            lemma_pow2_monotone(domain.spec_log_size(), first.spec_log_size());
            let l = domain.spec_log_size();
            let d = (first.spec_log_size() - l) as nat;
            vstd::arithmetic::power2::lemma_pow2_adds(d, l);
            vstd::arithmetic::div_mod::lemma_mod_multiples_basic(pow2(d) as int, pow2(l) as int);
        }
        let mut itwiddles: Vec<M31> = Vec::with_capacity(half);
        let mut t: usize = 0;
        while t < half
            invariant
                t <= half,
                itwiddles.len() == t,
                forall|k: int|
                    0 <= k < t ==> itwiddles[k] == domain.spec_at(k as nat).spec_inverse(),
            decreases half - t,
        {
            itwiddles.push(domain.at(t).inverse_or_zero());
            t = t + 1;
        }
        let mut next: Vec<QM31> = Vec::with_capacity(n);
        let mut j: usize = 0;
        while j < n
            invariant
                j <= n,
                n == values.len(),
                size == domain.spec_size(),
                half == size / 2,
                half > 0,
                size == 2 * half,
                size <= n,
                n % size == 0,
                itwiddles.len() == half,
                forall|k: int|
                    0 <= k < half ==> itwiddles[k] == domain.spec_at(k as nat).spec_inverse(),
                next.len() == j,
                forall|k: int| 0 <= k < j ==> next[k] == spec_ifft_layer(values@, domain)[k],
            decreases n - j,
        {
            let o = j % size;
            proof {
                // the partner of a position lies in the same chunk
                vstd::arithmetic::div_mod::lemma_fundamental_div_mod(j as int, size as int);
                vstd::arithmetic::div_mod::lemma_fundamental_div_mod(n as int, size as int);
                let c = j as int / size as int;
                let m = n as int / size as int;
                assert(c < m) by (nonlinear_arith)
                    requires
                        j == size * c + o,
                        n == size * m,
                        j < n,
                        0 <= o < size,
                        size > 0,
                ;
                assert(size * c + size <= n) by (nonlinear_arith)
                    requires
                        c < m,
                        n == size * m,
                        size > 0,
                ;
            }
            let v = if o < half {
                values[j].add(values[j + half])
            } else {
                values[j - half].sub(values[j]).mul_m31(itwiddles[o - half])
            };
            next.push(v);
            j = j + 1;
        }
        proof {
            assert(next@ =~= spec_ifft_layer(values@, domain));
        }
        *values = next;
        domain = domain.double();
    }
}

/// The evaluations of a polynomial in one variable on a line domain, in
/// bit-reversed order.
#[derive(Debug)]
pub struct LineEvaluation {
    /// The values on the domain.
    pub values: SecureColumnByCoords,
    /// The domain of the evaluations.
    pub domain: LineDomain,
}

impl Clone for LineEvaluation {
    fn clone(&self) -> (r: LineEvaluation)
        ensures
            r.values@ == self.values@,
            r.spec_domain() == self.spec_domain(),
            self.wf() ==> r.wf(),
    {
        LineEvaluation { values: self.values.clone(), domain: self.domain }
    }
}

impl LineEvaluation {
    pub open spec fn spec_domain(self) -> LineDomain {
        self.domain
    }

    /// There is one value for each element of the domain.
    pub open spec fn wf(self) -> bool {
        &&& self.values.wf()
        &&& self.spec_domain().wf()
        &&& self.values@.len() == self.spec_domain().spec_size()
    }

    /// The evaluations `values` on `domain`, one for each element.
    pub fn new(domain: LineDomain, values: SecureColumnByCoords) -> (r: LineEvaluation)
        requires
            values.wf(),
            values@.len() == domain.spec_size(),
        ensures
            r.values == values,
            r.spec_domain() == domain,
            r.wf(),
    {
        domain.valid();
        LineEvaluation { values, domain }
    }

    /// The zero polynomial on `domain`.
    pub fn new_zero(domain: LineDomain) -> (r: LineEvaluation)
        ensures
            r.values@ == Seq::new(domain.spec_size(), |i: int| QM31::spec_zero()),
            r.spec_domain() == domain,
            r.wf(),
    {
        domain.valid();
        LineEvaluation { values: SecureColumnByCoords::zeros(domain.size()), domain }
    }

    /// The number of evaluations.
    pub fn len(&self) -> (r: usize)
        requires
            self.wf(),
        ensures
            r == self.values@.len(),
            r == pow2(self.spec_domain().spec_log_size()),
    {
        self.domain.size()
    }

    pub fn domain(&self) -> (r: LineDomain)
        ensures
            r == self.spec_domain(),
    {
        self.domain
    }

    /// A copy of the evaluations.
    pub fn to_cpu(&self) -> (r: LineEvaluation)
        ensures
            r.values@ == self.values@,
            r.spec_domain() == self.spec_domain(),
            self.wf() ==> r.wf(),
    {
        self.clone()
    }

    /// The polynomial that takes the evaluations on the domain.
    pub fn interpolate(self) -> (r: LinePoly)
        requires
            self.wf(),
        ensures
            r@ == spec_interpolate(self.values@, self.spec_domain()),
            r.spec_log_size() == self.spec_domain().spec_log_size(),
    {
        let mut values = self.values.to_vec();
        let log_size = self.domain.log_size();
        let n = values.len();
        proof {
            lemma_pow2_monotone(log_size as nat, 31);
            lemma2_to64();
        }
        bit_reverse(&mut values, log_size);
        line_ifft(&mut values, self.domain);
        let len_inv = M31::from_u32(n as u32).inverse_or_zero();
        let mut i: usize = 0;
        let ghost transformed = values@;
        while i < n
            invariant
                i <= n,
                n == values.len(),
                n == transformed.len(),
                forall|k: int| 0 <= k < i ==> values[k] == transformed[k].spec_mul_m31(len_inv),
                forall|k: int| i <= k < n ==> values[k] == transformed[k],
            decreases n - i,
        {
            let v = values[i].mul_m31(len_inv);
            values.set(i, v);
            i = i + 1;
        }
        proof {
            assert(values@ =~= spec_scale(transformed, len_inv));
        }
        let r = LinePoly::new(values);
        proof {
            crate::poly::line::lemma_log_size_of_len(r, log_size as nat);
        }
        r
    }
}

/// The combination `a * f + b * g`, value by value.
pub open spec fn spec_combination(a: QM31, f: Seq<QM31>, b: QM31, g: Seq<QM31>) -> Seq<QM31> {
    Seq::new(f.len(), |i: int| a.spec_mul(f[i]).spec_add(b.spec_mul(g[i])))
}

/// Whether every value has reduced coordinates.
pub open spec fn spec_all_reduced(values: Seq<QM31>) -> bool {
    forall|i: int| 0 <= i < values.len() ==> (#[trigger] values[i]).wf()
}

/// The sum of two combinations is the combination of the sums.
proof fn lemma_combination_sum(a: QM31, b: QM31, f0: QM31, g0: QM31, f1: QM31, g1: QM31)
    requires
        a.wf(),
        b.wf(),
        f0.wf(),
        g0.wf(),
        f1.wf(),
        g1.wf(),
    ensures
        a.spec_mul(f0).spec_add(b.spec_mul(g0)).spec_add(a.spec_mul(f1).spec_add(b.spec_mul(g1)))
            == a.spec_mul(f0.spec_add(f1)).spec_add(b.spec_mul(g0.spec_add(g1))),
{
    QM31::lemma_results_wf(a, f0);
    QM31::lemma_results_wf(b, g0);
    QM31::lemma_results_wf(a, f1);
    QM31::lemma_results_wf(b, g1);
    QM31::lemma_rearrange(a.spec_mul(f0), b.spec_mul(g0), a.spec_mul(f1), b.spec_mul(g1));
    QM31::lemma_distributive(a, f0, f1);
    QM31::lemma_distributive(b, g0, g1);
}

/// A factor of the base field may be moved into a product.
proof fn lemma_scaled_product(a: QM31, f: QM31, t: M31)
    requires
        a.wf(),
        f.wf(),
        t.wf(),
    ensures
        a.spec_mul(f).spec_mul_m31(t) == a.spec_mul(f.spec_mul_m31(t)),
{
    let e = QM31::spec_from_m31(t);
    QM31::lemma_results_wf(a, f);
    QM31::lemma_mul_m31_is_mul(a.spec_mul(f), t);
    QM31::lemma_mul_m31_is_mul(f, t);
    QM31::lemma_mul_associative(a, f, e);
}

/// The difference of two combinations, times a factor of the base field,
/// is the combination of the differences times the factor.
proof fn lemma_combination_difference(
    a: QM31,
    b: QM31,
    f0: QM31,
    g0: QM31,
    f1: QM31,
    g1: QM31,
    t: M31,
)
    requires
        a.wf(),
        b.wf(),
        f0.wf(),
        g0.wf(),
        f1.wf(),
        g1.wf(),
        t.wf(),
    ensures
        a.spec_mul(f0).spec_add(b.spec_mul(g0)).spec_sub(
            a.spec_mul(f1).spec_add(b.spec_mul(g1)),
        ).spec_mul_m31(t) == a.spec_mul(f0.spec_sub(f1).spec_mul_m31(t)).spec_add(
            b.spec_mul(g0.spec_sub(g1).spec_mul_m31(t)),
        ),
{
    QM31::lemma_results_wf(a, f0);
    QM31::lemma_results_wf(b, g0);
    QM31::lemma_results_wf(a, f1);
    QM31::lemma_results_wf(b, g1);
    QM31::lemma_results_wf(f0, f1);
    QM31::lemma_results_wf(g0, g1);
    // The difference of the combinations is the combination of the differences.
    QM31::lemma_rearrange(a.spec_mul(f0), b.spec_mul(g0), a.spec_mul(f1), b.spec_mul(g1));
    QM31::lemma_distributive_sub(a, f0, f1);
    QM31::lemma_distributive_sub(b, g0, g1);
    let df = f0.spec_sub(f1);
    let dg = g0.spec_sub(g1);
    QM31::lemma_results_wf(a, df);
    QM31::lemma_results_wf(b, dg);
    // The factor goes into each product.
    let e = QM31::spec_from_m31(t);
    let sum = a.spec_mul(df).spec_add(b.spec_mul(dg));
    QM31::lemma_results_wf(a.spec_mul(df), b.spec_mul(dg));
    QM31::lemma_mul_m31_is_mul(sum, t);
    QM31::lemma_mul_commutative(sum, e);
    QM31::lemma_distributive(e, a.spec_mul(df), b.spec_mul(dg));
    QM31::lemma_mul_commutative(e, a.spec_mul(df));
    QM31::lemma_mul_commutative(e, b.spec_mul(dg));
    QM31::lemma_mul_m31_is_mul(a.spec_mul(df), t);
    QM31::lemma_mul_m31_is_mul(b.spec_mul(dg), t);
    lemma_scaled_product(a, df, t);
    lemma_scaled_product(b, dg, t);
}

/// A layer of the inverse transform keeps the coordinates reduced.
proof fn lemma_ifft_layer_reduced(values: Seq<QM31>, domain: LineDomain)
    ensures
        spec_all_reduced(spec_ifft_layer(values, domain)),
{
    let out = spec_ifft_layer(values, domain);
    let size = domain.spec_size() as int;
    let half = size / 2;
    assert forall|j: int| 0 <= j < out.len() implies (#[trigger] out[j]).wf() by {
        if j % size < half {
            QM31::lemma_results_wf(values[j], values[j + half]);
        } else {
            let d = values[j - half].spec_sub(values[j]);
            let t = domain.spec_at((j % size - half) as nat).spec_inverse();
            M31::lemma_from_int_range(d.0.0@ * t@);
            M31::lemma_from_int_range(d.0.1@ * t@);
            M31::lemma_from_int_range(d.1.0@ * t@);
            M31::lemma_from_int_range(d.1.1@ * t@);
        }
    }
}

/// One layer of the inverse transform is linear.
proof fn lemma_ifft_layer_linear(a: QM31, f: Seq<QM31>, b: QM31, g: Seq<QM31>, domain: LineDomain)
    requires
        a.wf(),
        b.wf(),
        f.len() == g.len(),
        spec_all_reduced(f),
        spec_all_reduced(g),
        (f.len() as int) % (domain.spec_size() as int) == 0,
    ensures
        spec_ifft_layer(spec_combination(a, f, b, g), domain) == spec_combination(
            a,
            spec_ifft_layer(f, domain),
            b,
            spec_ifft_layer(g, domain),
        ),
{
    let size = domain.spec_size() as int;
    let half = size / 2;
    let n = f.len() as int;
    lemma_pow2_pos(domain.spec_log_size());
    let c = spec_combination(a, f, b, g);
    let left = spec_ifft_layer(c, domain);
    let right = spec_combination(a, spec_ifft_layer(f, domain), b, spec_ifft_layer(g, domain));
    assert forall|j: int| 0 <= j < n implies left[j] == right[j] by {
        if j % size < half {
            vstd::arithmetic::div_mod::lemma_fundamental_div_mod(j, size);
            vstd::arithmetic::div_mod::lemma_fundamental_div_mod(n, size);
            let q = j / size;
            let m = n / size;
            vstd::arithmetic::div_mod::lemma_mod_bound(j, size);
            assert(q < m) by (nonlinear_arith)
                requires
                    j == size * q + j % size,
                    n == size * m,
                    j < n,
                    0 <= j % size,
                    size > 0,
            ;
            assert(size * (q + 1) <= size * m) by (nonlinear_arith)
                requires
                    q + 1 <= m,
                    size > 0,
            ;
            assert(size * (q + 1) == size * q + size) by (nonlinear_arith);
            assert(j + half < n);
            assert(f[j].wf() && f[j + half].wf() && g[j].wf() && g[j + half].wf());
            lemma_combination_sum(a, b, f[j], g[j], f[j + half], g[j + half]);
        } else {
            vstd::arithmetic::div_mod::lemma_mod_bound(j, size);
            vstd::arithmetic::div_mod::lemma_fundamental_div_mod(j, size);
            assert(j - half >= 0) by (nonlinear_arith)
                requires
                    j == size * (j / size) + j % size,
                    j % size >= half,
                    j >= 0,
                    size > 0,
                    half >= 0,
            ;
            let t = domain.spec_at((j % size - half) as nat).spec_inverse();
            M31::lemma_pow_range(
                domain.spec_at((j % size - half) as nat),
                (crate::fields::m31::modulus() - 2) as nat,
            );
            assert(f[j].wf() && f[j - half].wf() && g[j].wf() && g[j - half].wf());
            lemma_combination_difference(a, b, f[j - half], g[j - half], f[j], g[j], t);
        }
    }
    assert(left =~= right);
}

/// The inverse transform, before the division by the number of values, is
/// linear: the transform of `a * f + b * g` is `a` times the transform of
/// `f` plus `b` times the transform of `g`.
pub proof fn lemma_line_ifft_linear(
    a: QM31,
    f: Seq<QM31>,
    b: QM31,
    g: Seq<QM31>,
    domain: LineDomain,
    layers: nat,
)
    requires
        a.wf(),
        b.wf(),
        f.len() == g.len(),
        spec_all_reduced(f),
        spec_all_reduced(g),
        layers <= domain.spec_log_size() <= 31,
        (f.len() as int) % (domain.spec_size() as int) == 0,
    ensures
        spec_line_ifft(spec_combination(a, f, b, g), domain, layers) == spec_combination(
            a,
            spec_line_ifft(f, domain, layers),
            b,
            spec_line_ifft(g, domain, layers),
        ),
    decreases layers,
{
    if layers > 0 {
        lemma_ifft_layer_linear(a, f, b, g, domain);
        lemma_ifft_layer_reduced(f, domain);
        lemma_ifft_layer_reduced(g, domain);
        domain.lemma_double_log_size();
        let size = domain.spec_size() as int;
        let half = domain.spec_double().spec_size() as int;
        lemma_pow2_unfold(domain.spec_log_size());
        lemma_pow2_pos((domain.spec_log_size() - 1) as nat);
        vstd::arithmetic::div_mod::lemma_fundamental_div_mod(f.len() as int, size);
        let m = f.len() as int / size;
        assert(f.len() as int == half * (2 * m)) by (nonlinear_arith)
            requires
                f.len() as int == size * m,
                size == 2 * half,
        ;
        vstd::arithmetic::div_mod::lemma_mod_multiples_basic(2 * m, half);
        vstd::arithmetic::mul::lemma_mul_is_commutative(half, 2 * m);
        lemma_line_ifft_linear(
            a,
            spec_ifft_layer(f, domain),
            b,
            spec_ifft_layer(g, domain),
            domain.spec_double(),
            (layers - 1) as nat,
        );
    }
}

} // verus!
