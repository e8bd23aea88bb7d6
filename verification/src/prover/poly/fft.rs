//! The circle transform and its inverse, layer by layer, on values in
//! bit-reversed order.

use vstd::prelude::*;
use vstd::arithmetic::power2::{lemma2_to64, lemma_pow2_adds, lemma_pow2_pos, lemma_pow2_unfold, pow2};
use crate::fields::m31::M31;
use crate::poly::domain::CircleDomain;
use crate::poly::line::LineDomain;
use crate::utils::{bit_reverse_index, lemma_pow2_monotone, pow2_usize, spec_bit_reverse_index};

verus! {

/// The line domain of the `layer`-th layer, `layer >= 1`, of the transform
/// on `domain`: the half coset doubled `layer - 1` times.
pub open spec fn spec_layer_domain(domain: CircleDomain, layer: nat) -> LineDomain
    decreases layer,
{
    if layer <= 1 {
        LineDomain::spec_from_circle_domain(domain)
    } else {
        spec_layer_domain(domain, (layer - 1) as nat).spec_double()
    }
}

/// The twiddle of the `h`-th block of a layer: on the layer zero the second
/// coordinate of the point of the block, on the others the first coordinate
/// of the point of the block in the domain of the layer.
pub open spec fn spec_twiddle(domain: CircleDomain, layer: nat, h: nat) -> M31 {
    if layer == 0 {
        domain.spec_at(spec_bit_reverse_index(2 * h, domain.spec_log_size())).y
    } else {
        spec_layer_domain(domain, layer).spec_at(
            spec_bit_reverse_index(2 * h, (domain.spec_log_size() - layer) as nat),
        )
    }
}

/// One layer of butterflies on blocks of `2^(layer + 1)` values, each with
/// the twiddle of its block: forward `(a + b t, a - b t)`, inverse
/// `(a + b, (a - b) / t)`, on values that stand `2^layer` apart.
pub open spec fn spec_fft_layer(
    values: Seq<M31>,
    domain: CircleDomain,
    layer: nat,
    inverse: bool,
) -> Seq<M31> {
    let stride = pow2(layer) as int;
    Seq::new(
        values.len(),
        |j: int|
            {
                let t = spec_twiddle(domain, layer, (j / (2 * stride)) as nat);
                if j % (2 * stride) < stride {
                    if inverse {
                        values[j].spec_add(values[j + stride])
                    } else {
                        values[j].spec_add(values[j + stride].spec_mul(t))
                    }
                } else {
                    if inverse {
                        values[j - stride].spec_sub(values[j]).spec_mul(t.spec_inverse())
                    } else {
                        values[j - stride].spec_sub(values[j].spec_mul(t))
                    }
                }
            },
    )
}

/// The forward transform: the layers from `layers - 1` down to zero.
pub open spec fn spec_fft(values: Seq<M31>, domain: CircleDomain, layers: nat) -> Seq<M31>
    decreases layers,
{
    if layers == 0 {
        values
    } else {
        spec_fft(
            spec_fft_layer(values, domain, (layers - 1) as nat, false),
            domain,
            (layers - 1) as nat,
        )
    }
}

/// The inverse transform without the division by the number of values: the
/// layers from `from` up to the last one.
pub open spec fn spec_ifft(values: Seq<M31>, domain: CircleDomain, from: nat) -> Seq<M31>
    decreases domain.spec_log_size() - from,
{
    if from >= domain.spec_log_size() {
        values
    } else {
        spec_ifft(spec_fft_layer(values, domain, from, true), domain, from + 1)
    }
}

/// The twiddles of the blocks of a layer.
fn layer_twiddles(domain: CircleDomain, line_domain: LineDomain, layer: u32) -> (r: Vec<M31>)
    requires
        layer < domain.spec_log_size(),
        layer >= 1 ==> line_domain == spec_layer_domain(domain, layer as nat),
        layer >= 1 ==> line_domain.spec_log_size() == domain.spec_log_size() - layer,
    ensures
        r.len() == pow2((domain.spec_log_size() - layer - 1) as nat),
        forall|h: int| 0 <= h < r.len() ==> r[h] == spec_twiddle(domain, layer as nat, h as nat),
{
    let log_size = domain.log_size();
    let n_blocks = pow2_usize(log_size - layer - 1);
    proof {
        lemma2_to64();
        lemma_pow2_monotone((log_size - layer - 1) as nat, 30);
    }
    let mut out: Vec<M31> = Vec::with_capacity(n_blocks);
    let mut h: usize = 0;
    while h < n_blocks
        invariant
            h <= n_blocks,
            n_blocks <= 0x4000_0000,
            log_size == domain.spec_log_size(),
            log_size <= 31,
            layer < log_size,
            layer >= 1 ==> line_domain == spec_layer_domain(domain, layer as nat),
            layer >= 1 ==> line_domain.spec_log_size() == domain.spec_log_size() - layer,
            out.len() == h,
            forall|k: int| 0 <= k < h ==> out[k] == spec_twiddle(domain, layer as nat, k as nat),
        decreases n_blocks - h,
    {
        let t = if layer == 0 {
            domain.at(bit_reverse_index(2 * h, log_size)).y
        } else {
            line_domain.at(bit_reverse_index(2 * h, log_size - layer))
        };
        out.push(t);
        h = h + 1;
    }
    out
}

/// Applies one layer of butterflies.
fn apply_layer(
    values: &Vec<M31>,
    domain: CircleDomain,
    line_domain: LineDomain,
    layer: u32,
    inverse: bool,
) -> (r: Vec<M31>)
    requires
        values.len() == domain.spec_size(),
        layer < domain.spec_log_size(),
        layer >= 1 ==> line_domain == spec_layer_domain(domain, layer as nat),
        layer >= 1 ==> line_domain.spec_log_size() == domain.spec_log_size() - layer,
    ensures
        r@ == spec_fft_layer(values@, domain, layer as nat, inverse),
        r.len() == values.len(),
{
    let n = values.len();
    let log_size = domain.log_size();
    let stride = pow2_usize(layer);
    let twiddles = layer_twiddles(domain, line_domain, layer);
    proof {
        let rest = (log_size - layer - 1) as nat;
        lemma_pow2_adds(layer as nat, 1);
        lemma_pow2_adds((layer + 1) as nat, rest);
        lemma2_to64();
        lemma_pow2_pos(layer as nat);
        lemma_pow2_pos(rest);
        lemma_pow2_monotone(log_size as nat, 31);
        lemma_pow2_monotone(layer as nat, 30);
        assert(n == (2 * stride) * twiddles.len()) by (nonlinear_arith)
            requires
                n == pow2((layer + 1) as nat) * pow2(rest),
                pow2((layer + 1) as nat) == pow2(layer as nat) * 2,
                stride == pow2(layer as nat),
                twiddles.len() == pow2(rest),
        ;
    }
    let mut out: Vec<M31> = Vec::with_capacity(n);
    let mut j: usize = 0;
    while j < n
        invariant
            j <= n,
            n == values.len(),
            stride == pow2(layer as nat),
            0 < stride <= 0x4000_0000,
            n == (2 * stride) * twiddles.len(),
            n <= 0x8000_0000,
            forall|h: int|
                0 <= h < twiddles.len() ==> twiddles[h] == spec_twiddle(
                    domain,
                    layer as nat,
                    h as nat,
                ),
            out.len() == j,
            forall|k: int|
                0 <= k < j ==> out[k] == spec_fft_layer(values@, domain, layer as nat, inverse)[k],
        decreases n - j,
    {
        let block = j / (2 * stride);
        let offset = j % (2 * stride);
        proof {
            vstd::arithmetic::div_mod::lemma_fundamental_div_mod(j as int, 2 * stride as int);
            let m = twiddles.len() as int;
            let w = 2 * stride as int;
            assert(block < m) by (nonlinear_arith)
                requires
                    j == w * block + offset,
                    n == w * m,
                    j < n,
                    0 <= offset < w,
                    w > 0,
            ;
            assert(w * block + w <= n) by (nonlinear_arith)
                requires
                    block < m,
                    n == w * m,
                    w > 0,
            ;
        }
        let t = twiddles[block];
        let v = if offset < stride {
            if inverse {
                values[j].add(values[j + stride])
            } else {
                values[j].add(values[j + stride].mul(t))
            }
        } else {
            if inverse {
                values[j - stride].sub(values[j]).mul(t.inverse_or_zero())
            } else {
                values[j - stride].sub(values[j].mul(t))
            }
        };
        out.push(v);
        j = j + 1;
    }
    proof {
        assert(out@ =~= spec_fft_layer(values@, domain, layer as nat, inverse));
    }
    out
}

/// The line domains of the layers one to `log_size - 1`.
fn layer_domains(domain: CircleDomain) -> (r: Vec<LineDomain>)
    ensures
        r.len() == domain.spec_log_size(),
        forall|k: int|
            1 <= k < r.len() ==> r[k] == spec_layer_domain(domain, k as nat) && (
            #[trigger] r[k]).spec_log_size() == domain.spec_log_size() - k,
{
    let log_size = domain.log_size();
    let mut out: Vec<LineDomain> = Vec::with_capacity(log_size as usize);
    let first = LineDomain::from_circle_domain(domain);
    out.push(first);
    if log_size >= 2 {
        out.push(first);
        let mut k: u32 = 2;
        let mut cur = first;
        while k < log_size
            invariant
                2 <= k <= log_size,
                log_size == domain.spec_log_size(),
                out.len() == k,
                cur == out[k - 1],
                cur.wf(),
                forall|i: int|
                    1 <= i < k ==> out[i] == spec_layer_domain(domain, i as nat) && (
                    #[trigger] out[i]).spec_log_size() == domain.spec_log_size() - i,
            decreases log_size - k,
        {
            cur = cur.double();
            out.push(cur);
            k = k + 1;
        }
    }
    out
}

/// The forward transform of coefficients in bit-reversed order into
/// evaluations in bit-reversed order on `domain`.
pub fn circle_fft(values: Vec<M31>, domain: CircleDomain) -> (r: Vec<M31>)
    requires
        values.len() == domain.spec_size(),
    ensures
        r@ == spec_fft(values@, domain, domain.spec_log_size()),
        r.len() == values.len(),
{
    let log_size = domain.log_size();
    let domains = layer_domains(domain);
    let mut cur = values;
    let mut layers: u32 = log_size;
    while layers > 0
        invariant
            layers <= log_size,
            log_size == domain.spec_log_size(),
            cur.len() == domain.spec_size(),
            domains.len() == log_size,
            forall|k: int|
                1 <= k < domains.len() ==> domains[k] == spec_layer_domain(domain, k as nat) && (
                #[trigger] domains[k]).spec_log_size() == domain.spec_log_size() - k,
            spec_fft(cur@, domain, layers as nat) == spec_fft(
                values@,
                domain,
                domain.spec_log_size(),
            ),
        decreases layers,
    {
        let layer = layers - 1;
        cur = apply_layer(&cur, domain, domains[layer as usize], layer, false);
        layers = layer;
    }
    cur
}

/// The inverse transform of evaluations in bit-reversed order on `domain`
/// into coefficients in bit-reversed order, without the division by the
/// number of values.
pub fn circle_ifft(values: Vec<M31>, domain: CircleDomain) -> (r: Vec<M31>)
    requires
        values.len() == domain.spec_size(),
    ensures
        r@ == spec_ifft(values@, domain, 0),
        r.len() == values.len(),
{
    let log_size = domain.log_size();
    let domains = layer_domains(domain);
    let mut cur = values;
    let mut layer: u32 = 0;
    while layer < log_size
        invariant
            layer <= log_size,
            log_size == domain.spec_log_size(),
            cur.len() == domain.spec_size(),
            domains.len() == log_size,
            forall|k: int|
                1 <= k < domains.len() ==> domains[k] == spec_layer_domain(domain, k as nat) && (
                #[trigger] domains[k]).spec_log_size() == domain.spec_log_size() - k,
            spec_ifft(cur@, domain, layer as nat) == spec_ifft(values@, domain, 0),
        decreases log_size - layer,
    {
        cur = apply_layer(&cur, domain, domains[layer as usize], layer, true);
        layer = layer + 1;
    }
    cur
}

} // verus!
