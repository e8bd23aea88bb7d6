//! The circle transform and its inverse undo each other, up to the number
//! of values as a factor: interpolation and evaluation on a canonic domain
//! are inverse to each other.

use vstd::prelude::*;
use vstd::arithmetic::div_mod::{
    lemma_add_mod_noop, lemma_fundamental_div_mod, lemma_fundamental_div_mod_converse,
    lemma_mod_bound, lemma_mod_mod, lemma_mod_multiples_basic, lemma_mul_mod_noop_left,
    lemma_small_mod, lemma_sub_mod_noop, lemma_truncate_middle,
};
use vstd::arithmetic::power2::{
    lemma2_to64, lemma_pow2_adds, lemma_pow2_pos, lemma_pow2_strictly_increases,
    lemma_pow2_unfold, pow2,
};
use crate::circle::coset::Coset;
use crate::circle::index::{circle_order, CirclePointIndex};
use crate::circle::order::lemma_off_the_axes;
use crate::fields::fermat::{lemma_inverse, lemma_small_classes};
use crate::poly::domain::CanonicCoset;
use crate::poly::line::LineDomain;
use crate::prover::poly::fft::spec_layer_domain;
use crate::fields::m31::{modulus, M31};
use crate::poly::domain::CircleDomain;
use crate::prover::poly::circle::spec_scale_base;
use crate::prover::poly::fft::{spec_fft, spec_fft_layer, spec_ifft, spec_twiddle};
use crate::utils::lemma_pow2_monotone;

verus! {

/// Whether every value is a least residue.
pub open spec fn spec_all_reduced(values: Seq<M31>) -> bool {
    forall|i: int| 0 <= i < values.len() ==> (#[trigger] values[i]).wf()
}

/// Whether no twiddle of the layer is zero.
pub open spec fn spec_layer_invertible(domain: CircleDomain, layer: nat) -> bool {
    forall|h: nat|
        h < pow2((domain.spec_log_size() - layer - 1) as nat) ==> {
            &&& (#[trigger] spec_twiddle(domain, layer, h))@ != 0
            &&& spec_twiddle(domain, layer, h).wf()
        }
}

/// Whether no twiddle of the transform on the domain is zero.
pub open spec fn spec_twiddles_invertible(domain: CircleDomain) -> bool {
    forall|layer: nat| layer < domain.spec_log_size() ==> #[trigger] spec_layer_invertible(domain, layer)
}

/// A butterfly followed by the inverse butterfly doubles both values, and
/// so does the inverse butterfly followed by the butterfly.
proof fn lemma_butterflies(a: M31, b: M31, t: M31)
    requires
        a.wf(),
        b.wf(),
        t.wf(),
        t@ != 0,
    ensures
        ({
            let p = a.spec_add(b.spec_mul(t));
            let q = a.spec_sub(b.spec_mul(t));
            &&& p.spec_add(q) == a.spec_mul(M31::from_int(2))
            &&& p.spec_sub(q).spec_mul(t.spec_inverse()) == b.spec_mul(M31::from_int(2))
        }),
        ({
            let p = a.spec_add(b);
            let q = a.spec_sub(b).spec_mul(t.spec_inverse());
            &&& p.spec_add(q.spec_mul(t)) == a.spec_mul(M31::from_int(2))
            &&& p.spec_sub(q.spec_mul(t)) == b.spec_mul(M31::from_int(2))
        }),
{
    let w = t.spec_inverse();
    lemma_inverse(t);
    let x = a@;
    let y = b@;
    let u = t@;
    let v = w@;
    M31::lemma_wf_from_int(a);
    M31::lemma_wf_from_int(b);
    M31::lemma_wf_from_int(t);
    M31::lemma_wf_from_int(w);
    // The class of u v - 1 is zero.
    M31::lemma_hom_mul(u, v);
    M31::lemma_hom_sub(u * v, 1);
    M31::lemma_hom_sub(1, 1);
    M31::lemma_hom_mul(x, 2);
    M31::lemma_hom_mul(y, 2);
    // Forward, then inverse.
    M31::lemma_hom_mul(y, u);
    M31::lemma_hom_add(x, y * u);
    M31::lemma_hom_sub(x, y * u);
    M31::lemma_hom_add(x + y * u, x - y * u);
    M31::lemma_hom_sub(x + y * u, x - y * u);
    assert((x + y * u) + (x - y * u) == x * 2);
    M31::lemma_hom_mul((x + y * u) - (x - y * u), v);
    assert(((x + y * u) - (x - y * u)) * v == y * 2 + (2 * y) * (u * v - 1)) by (nonlinear_arith);
    M31::lemma_hom_mul(2 * y, u * v - 1);
    M31::lemma_mul_zero(M31::from_int(2 * y));
    M31::lemma_hom_add(y * 2, (2 * y) * (u * v - 1));
    M31::lemma_hom_add(y * 2, 0);
    // Inverse, then forward.
    M31::lemma_hom_add(x, y);
    M31::lemma_hom_sub(x, y);
    M31::lemma_hom_mul(x - y, v);
    M31::lemma_hom_mul((x - y) * v, u);
    assert(((x - y) * v) * u == (x - y) + (x - y) * (u * v - 1)) by (nonlinear_arith);
    M31::lemma_hom_mul(x - y, u * v - 1);
    M31::lemma_mul_zero(M31::from_int(x - y));
    M31::lemma_hom_add(x - y, (x - y) * (u * v - 1));
    M31::lemma_hom_add(x - y, 0);
    M31::lemma_hom_add(x + y, x - y);
    M31::lemma_hom_sub(x + y, x - y);
    assert((x + y) + (x - y) == x * 2);
    assert((x + y) - (x - y) == y * 2);
}

/// A factor goes through a butterfly and through an inverse butterfly.
proof fn lemma_butterflies_scale(a: M31, b: M31, t: M31, c: M31)
    requires
        a.wf(),
        b.wf(),
        t.wf(),
        c.wf(),
    ensures
        a.spec_mul(c).spec_add(b.spec_mul(c).spec_mul(t)) == a.spec_add(b.spec_mul(t)).spec_mul(c),
        a.spec_mul(c).spec_sub(b.spec_mul(c).spec_mul(t)) == a.spec_sub(b.spec_mul(t)).spec_mul(c),
        a.spec_mul(c).spec_add(b.spec_mul(c)) == a.spec_add(b).spec_mul(c),
        a.spec_mul(c).spec_sub(b.spec_mul(c)).spec_mul(t) == a.spec_sub(b).spec_mul(t).spec_mul(c),
{
    let x = a@;
    let y = b@;
    let u = t@;
    let z = c@;
    M31::lemma_wf_from_int(a);
    M31::lemma_wf_from_int(b);
    M31::lemma_wf_from_int(t);
    M31::lemma_wf_from_int(c);
    M31::lemma_hom_mul(x, z);
    M31::lemma_hom_mul(y, z);
    M31::lemma_hom_mul(y * z, u);
    M31::lemma_hom_mul(y, u);
    M31::lemma_hom_add(x * z, (y * z) * u);
    M31::lemma_hom_sub(x * z, (y * z) * u);
    M31::lemma_hom_add(x, y * u);
    M31::lemma_hom_sub(x, y * u);
    M31::lemma_hom_mul(x + y * u, z);
    M31::lemma_hom_mul(x - y * u, z);
    assert(x * z + (y * z) * u == (x + y * u) * z) by (nonlinear_arith);
    assert(x * z - (y * z) * u == (x - y * u) * z) by (nonlinear_arith);
    M31::lemma_hom_add(x * z, y * z);
    M31::lemma_hom_sub(x * z, y * z);
    M31::lemma_hom_add(x, y);
    M31::lemma_hom_sub(x, y);
    M31::lemma_hom_mul(x + y, z);
    M31::lemma_hom_mul(x * z - y * z, u);
    M31::lemma_hom_mul(x - y, u);
    M31::lemma_hom_mul((x - y) * u, z);
    assert(x * z + y * z == (x + y) * z) by (nonlinear_arith);
    assert((x * z - y * z) * u == ((x - y) * u) * z) by (nonlinear_arith);
}

/// The partner of a position in its block of `2 * stride` values lies in
/// the same block.
proof fn lemma_partner(j: int, stride: int, n: int)
    requires
        0 <= j < n,
        stride > 0,
        n % (2 * stride) == 0,
    ensures
        j % (2 * stride) < stride ==> {
            &&& j + stride < n
            &&& (j + stride) / (2 * stride) == j / (2 * stride)
            &&& (j + stride) % (2 * stride) == j % (2 * stride) + stride
        },
        j % (2 * stride) >= stride ==> {
            &&& j - stride >= 0
            &&& (j - stride) / (2 * stride) == j / (2 * stride)
            &&& (j - stride) % (2 * stride) == j % (2 * stride) - stride
        },
        0 <= j / (2 * stride) < n / (2 * stride),
{
    let block = 2 * stride;
    let q = j / block;
    let r = j % block;
    let m = n / block;
    lemma_fundamental_div_mod(j, block);
    lemma_fundamental_div_mod(n, block);
    lemma_mod_bound(j, block);
    assert(0 <= q) by (nonlinear_arith)
        requires
            j == block * q + r,
            0 <= j,
            r < block,
            block > 0,
    ;
    assert(q < m) by (nonlinear_arith)
        requires
            j == block * q + r,
            n == block * m,
            j < n,
            0 <= r,
            block > 0,
    ;
    assert(block * (q + 1) <= block * m) by (nonlinear_arith)
        requires
            q + 1 <= m,
            block > 0,
    ;
    assert(block * (q + 1) == block * q + block) by (nonlinear_arith);
    if r < stride {
        assert(j + stride == q * block + (r + stride)) by (nonlinear_arith)
            requires
                j == block * q + r,
        ;
        lemma_fundamental_div_mod_converse(j + stride, block, q, r + stride);
    } else {
        assert(j - stride == q * block + (r - stride)) by (nonlinear_arith)
            requires
                j == block * q + r,
        ;
        lemma_fundamental_div_mod_converse(j - stride, block, q, r - stride);
    }
}

/// A layer keeps the values reduced and their number.
proof fn lemma_layer_reduced(values: Seq<M31>, domain: CircleDomain, layer: nat, inverse: bool)
    ensures
        spec_all_reduced(spec_fft_layer(values, domain, layer, inverse)),
        spec_fft_layer(values, domain, layer, inverse).len() == values.len(),
{
    let out = spec_fft_layer(values, domain, layer, inverse);
    assert forall|j: int| 0 <= j < out.len() implies (#[trigger] out[j]).wf() by {
        M31::lemma_from_int_range(0);
        let stride = pow2(layer) as int;
        let t = spec_twiddle(domain, layer, (j / (2 * stride)) as nat);
        if j % (2 * stride) < stride {
            M31::lemma_from_int_range(values[j]@ + values[j + stride]@);
            M31::lemma_from_int_range(values[j]@ + values[j + stride].spec_mul(t)@);
        } else {
            M31::lemma_from_int_range(
                values[j - stride].spec_sub(values[j])@ * t.spec_inverse()@,
            );
            M31::lemma_from_int_range(values[j - stride]@ - values[j].spec_mul(t)@);
        }
    }
}

/// A layer and its inverse, in either order, double every value.
pub proof fn lemma_layer_round_trip(values: Seq<M31>, domain: CircleDomain, layer: nat, first: bool)
    requires
        spec_all_reduced(values),
        layer < domain.spec_log_size(),
        values.len() == pow2(domain.spec_log_size()),
        spec_layer_invertible(domain, layer),
    ensures
        spec_fft_layer(spec_fft_layer(values, domain, layer, first), domain, layer, !first)
            == spec_scale_base(values, M31::from_int(2)),
{
    let n = values.len() as int;
    let log = domain.spec_log_size();
    let stride = pow2(layer) as int;
    lemma_pow2_pos(layer);
    lemma_blocks(log, layer);
    let mid = spec_fft_layer(values, domain, layer, first);
    let out = spec_fft_layer(mid, domain, layer, !first);
    let want = spec_scale_base(values, M31::from_int(2));
    assert forall|j: int| 0 <= j < n implies out[j] == want[j] by {
        lemma_partner(j, stride, n);
        let h = (j / (2 * stride)) as nat;
        let t = spec_twiddle(domain, layer, h);
        assert(t@ != 0 && t.wf());
        if j % (2 * stride) < stride {
            lemma_partner(j + stride, stride, n);
            assert(values[j].wf() && values[j + stride].wf());
            lemma_butterflies(values[j], values[j + stride], t);
        } else {
            lemma_partner(j - stride, stride, n);
            assert(values[j].wf() && values[j - stride].wf());
            lemma_butterflies(values[j - stride], values[j], t);
        }
    }
    assert(out =~= want);
}

/// The values split into whole blocks, as many as the layer has twiddles.
proof fn lemma_blocks(log: nat, layer: nat)
    requires
        layer < log,
    ensures
        (pow2(log) as int) % (2 * (pow2(layer) as int)) == 0,
        (pow2(log) as int) / (2 * (pow2(layer) as int)) == pow2((log - layer - 1) as nat),
        pow2(layer) > 0,
{
    lemma_pow2_pos(layer);
    lemma_pow2_pos((log - layer - 1) as nat);
    lemma_pow2_unfold(layer + 1);
    vstd::arithmetic::power2::lemma_pow2_adds((log - layer - 1) as nat, layer + 1);
    let blocks = pow2((log - layer - 1) as nat) as int;
    let block = 2 * (pow2(layer) as int);
    lemma_fundamental_div_mod_converse(pow2(log) as int, block, blocks, 0);
}

/// A factor goes through a layer.
pub proof fn lemma_layer_scale(values: Seq<M31>, domain: CircleDomain, layer: nat, inverse: bool, c: M31)
    requires
        spec_all_reduced(values),
        c.wf(),
        layer < domain.spec_log_size(),
        values.len() == pow2(domain.spec_log_size()),
    ensures
        spec_fft_layer(spec_scale_base(values, c), domain, layer, inverse) == spec_scale_base(
            spec_fft_layer(values, domain, layer, inverse),
            c,
        ),
{
    let n = values.len() as int;
    let stride = pow2(layer) as int;
    lemma_pow2_pos(layer);
    lemma_blocks(domain.spec_log_size(), layer);
    let left = spec_fft_layer(spec_scale_base(values, c), domain, layer, inverse);
    let right = spec_scale_base(spec_fft_layer(values, domain, layer, inverse), c);
    assert forall|j: int| 0 <= j < n implies left[j] == right[j] by {
        lemma_partner(j, stride, n);
        let t = spec_twiddle(domain, layer, (j / (2 * stride)) as nat);
        let s = if inverse {
            t.spec_inverse()
        } else {
            t
        };
        M31::lemma_from_int_range(0);
        M31::lemma_pow_range(t, (modulus() - 2) as nat);
        let u = M31::from_int(s@);
        M31::lemma_from_int_range(s@);
        if j % (2 * stride) < stride {
            assert(values[j].wf() && values[j + stride].wf());
            lemma_butterflies_scale(values[j], values[j + stride], u, c);
        } else {
            assert(values[j].wf() && values[j - stride].wf());
            lemma_butterflies_scale(values[j - stride], values[j], u, c);
        }
        lemma_same_product(s);
    }
    assert(left =~= right);
}

/// A product depends on the residue of a factor alone.
proof fn lemma_same_product(s: M31)
    ensures
        forall|x: M31| #[trigger] x.spec_mul(s) == x.spec_mul(M31::from_int(s@)),
{
    assert forall|x: M31| #[trigger] x.spec_mul(s) == x.spec_mul(M31::from_int(s@)) by {
        M31::lemma_from_int_view(s@);
        vstd::arithmetic::div_mod::lemma_mul_mod_noop_right(x@, s@, modulus());
        M31::lemma_from_int_congruent(x@ * s@, x@ * (s@ % modulus()));
    }
}

/// The class of `2^m`.
pub open spec fn spec_two_to(m: nat) -> M31 {
    M31::from_int(pow2(m) as int)
}

/// Scaling twice is scaling by the product.
proof fn lemma_scale_twice(values: Seq<M31>, a: M31, b: M31)
    ensures
        spec_scale_base(spec_scale_base(values, a), b) == spec_scale_base(values, a.spec_mul(b)),
{
    assert forall|i: int| 0 <= i < values.len() implies values[i].spec_mul(a).spec_mul(b)
        == values[i].spec_mul(a.spec_mul(b)) by {
        M31::lemma_mul_associative(values[i], a, b);
    }
    assert(spec_scale_base(spec_scale_base(values, a), b) =~= spec_scale_base(
        values,
        a.spec_mul(b),
    ));
}

/// Scaling by one changes nothing.
proof fn lemma_scale_by_one(values: Seq<M31>)
    requires
        spec_all_reduced(values),
    ensures
        spec_scale_base(values, M31::spec_one()) == values,
{
    assert forall|i: int| 0 <= i < values.len() implies values[i].spec_mul(M31::spec_one())
        == values[i] by {
        assert(values[i].wf());
        M31::lemma_mul_one(values[i]);
    }
    assert(spec_scale_base(values, M31::spec_one()) =~= values);
}

/// Scaled values are reduced.
proof fn lemma_scale_reduced(values: Seq<M31>, c: M31)
    ensures
        spec_all_reduced(spec_scale_base(values, c)),
{
    assert forall|i: int| 0 <= i < values.len() implies (#[trigger] spec_scale_base(
        values,
        c,
    )[i]).wf() by {
        M31::lemma_from_int_range(values[i]@ * c@);
    }
}

/// Twice `2^m` is `2^(m + 1)`.
proof fn lemma_two_to_next(m: nat)
    ensures
        M31::from_int(2).spec_mul(spec_two_to(m)) == spec_two_to(m + 1),
        spec_two_to(m).spec_mul(M31::from_int(2)) == spec_two_to(m + 1),
        spec_two_to(0) == M31::spec_one(),
        spec_two_to(m).wf(),
{
    lemma_pow2_unfold(m + 1);
    lemma2_to64();
    M31::lemma_hom_mul(2, pow2(m) as int);
    M31::lemma_hom_mul(pow2(m) as int, 2);
    M31::lemma_from_int_range(pow2(m) as int);
}

/// A factor goes through the forward transform.
proof fn lemma_fft_scale(values: Seq<M31>, domain: CircleDomain, layers: nat, c: M31)
    requires
        spec_all_reduced(values),
        c.wf(),
        layers <= domain.spec_log_size(),
        values.len() == pow2(domain.spec_log_size()),
    ensures
        spec_fft(spec_scale_base(values, c), domain, layers) == spec_scale_base(
            spec_fft(values, domain, layers),
            c,
        ),
    decreases layers,
{
    if layers > 0 {
        let layer = (layers - 1) as nat;
        lemma_layer_scale(values, domain, layer, false, c);
        lemma_layer_reduced(values, domain, layer, false);
        lemma_fft_scale(spec_fft_layer(values, domain, layer, false), domain, layer, c);
    }
}

/// The forward transform keeps the values reduced and their number.
proof fn lemma_fft_reduced(values: Seq<M31>, domain: CircleDomain, layers: nat)
    requires
        spec_all_reduced(values),
    ensures
        spec_all_reduced(spec_fft(values, domain, layers)),
        spec_fft(values, domain, layers).len() == values.len(),
    decreases layers,
{
    if layers > 0 {
        let layer = (layers - 1) as nat;
        lemma_layer_reduced(values, domain, layer, false);
        lemma_fft_reduced(spec_fft_layer(values, domain, layer, false), domain, layer);
    }
}

/// The inverse layers up to the `m`-th undo the forward layers below the
/// `m`-th, up to the factor `2^m`.
proof fn lemma_inverse_of_forward(values: Seq<M31>, domain: CircleDomain, m: nat)
    requires
        spec_all_reduced(values),
        m <= domain.spec_log_size(),
        values.len() == pow2(domain.spec_log_size()),
        spec_twiddles_invertible(domain),
    ensures
        spec_ifft(spec_fft(values, domain, m), domain, 0) == spec_ifft(
            spec_scale_base(values, spec_two_to(m)),
            domain,
            m,
        ),
    decreases m,
{
    lemma_two_to_next(m);
    if m == 0 {
        lemma_scale_by_one(values);
    } else {
        let layer = (m - 1) as nat;
        let forward = spec_fft_layer(values, domain, layer, false);
        lemma_layer_reduced(values, domain, layer, false);
        lemma_inverse_of_forward(forward, domain, layer);
        // The inverse layer undoes the forward layer.
        lemma_two_to_next(layer);
        lemma_layer_scale(forward, domain, layer, true, spec_two_to(layer));
        assert(spec_layer_invertible(domain, layer));
        lemma_layer_round_trip(values, domain, layer, false);
        lemma_scale_twice(values, M31::from_int(2), spec_two_to(layer));
    }
}

/// The forward transform undoes the inverse layers from the `from`-th on,
/// up to the factor `2^(n - from)`.
proof fn lemma_forward_of_inverse(values: Seq<M31>, domain: CircleDomain, from: nat)
    requires
        spec_all_reduced(values),
        from <= domain.spec_log_size(),
        values.len() == pow2(domain.spec_log_size()),
        spec_twiddles_invertible(domain),
    ensures
        spec_fft(spec_ifft(values, domain, from), domain, domain.spec_log_size())
            == spec_scale_base(
            spec_fft(values, domain, from),
            spec_two_to((domain.spec_log_size() - from) as nat),
        ),
    decreases domain.spec_log_size() - from,
{
    let n = domain.spec_log_size();
    lemma_two_to_next((n - from) as nat);
    if from >= n {
        lemma_fft_reduced(values, domain, from);
        lemma_scale_by_one(spec_fft(values, domain, from));
    } else {
        let inverse = spec_fft_layer(values, domain, from, true);
        lemma_layer_reduced(values, domain, from, true);
        lemma_forward_of_inverse(inverse, domain, from + 1);
        // The forward layer undoes the inverse layer.
        assert(spec_layer_invertible(domain, from));
        lemma_layer_round_trip(values, domain, from, true);
        M31::lemma_from_int_range(2);
        lemma_fft_scale(values, domain, from, M31::from_int(2));
        lemma_two_to_next((n - from - 1) as nat);
        lemma_scale_twice(
            spec_fft(values, domain, from),
            M31::from_int(2),
            spec_two_to((n - from - 1) as nat),
        );
    }
}

/// The transform and its inverse undo each other, up to the number of
/// values as a factor.
pub proof fn lemma_transform_round_trip(values: Seq<M31>, domain: CircleDomain)
    requires
        spec_all_reduced(values),
        values.len() == pow2(domain.spec_log_size()),
        spec_twiddles_invertible(domain),
    ensures
        spec_ifft(spec_fft(values, domain, domain.spec_log_size()), domain, 0) == spec_scale_base(
            values,
            spec_two_to(domain.spec_log_size()),
        ),
        spec_fft(spec_ifft(values, domain, 0), domain, domain.spec_log_size()) == spec_scale_base(
            values,
            spec_two_to(domain.spec_log_size()),
        ),
{
    lemma_inverse_of_forward(values, domain, domain.spec_log_size());
    lemma_forward_of_inverse(values, domain, 0);
}

/// Interpolation undoes evaluation, and evaluation undoes interpolation:
/// the inverse transform divided by the number of values is the inverse of
/// the transform.
pub proof fn lemma_interpolation_round_trip(values: Seq<M31>, domain: CircleDomain)
    requires
        spec_all_reduced(values),
        values.len() == pow2(domain.spec_log_size()),
        domain.spec_log_size() <= 30,
        spec_twiddles_invertible(domain),
    ensures
        ({
            let n = domain.spec_log_size();
            let share = M31::from_int(values.len() as int).spec_inverse();
            &&& spec_scale_base(spec_ifft(spec_fft(values, domain, n), domain, 0), share) == values
            &&& spec_fft(spec_scale_base(spec_ifft(values, domain, 0), share), domain, n) == values
        }),
{
    let n = domain.spec_log_size();
    let size = M31::from_int(values.len() as int);
    let share = size.spec_inverse();
    lemma_transform_round_trip(values, domain);
    lemma2_to64();
    lemma_pow2_monotone(n, 30);
    lemma_pow2_pos(n);
    lemma_small_classes(values.len(), values.len());
    lemma_inverse(size);
    lemma_scale_twice(values, size, share);
    lemma_scale_by_one(values);
    lemma_ifft_reduced(values, domain, 0);
    lemma_fft_scale(spec_ifft(values, domain, 0), domain, n, share);
}

/// The inverse transform keeps the values reduced and their number.
proof fn lemma_ifft_reduced(values: Seq<M31>, domain: CircleDomain, from: nat)
    requires
        spec_all_reduced(values),
    ensures
        spec_all_reduced(spec_ifft(values, domain, from)),
        spec_ifft(values, domain, from).len() == values.len(),
    decreases domain.spec_log_size() - from,
{
    if from < domain.spec_log_size() {
        lemma_layer_reduced(values, domain, from, true);
        lemma_ifft_reduced(spec_fft_layer(values, domain, from, true), domain, from + 1);
    }
}

/// Whether `x` is an odd multiple of `2^e`.
pub open spec fn spec_odd_multiple(x: nat, e: nat) -> bool {
    x % pow2(e + 1) == pow2(e)
}

/// Whether every index of the coset is an odd multiple of `2^e`: the first
/// one is, and the step is a multiple of `2^(e + 1)`.
pub open spec fn spec_coset_odd(coset: Coset, e: nat) -> bool {
    &&& spec_odd_multiple(coset.spec_initial_index()@, e)
    &&& coset.spec_step_size()@ % pow2(e + 1) == 0
}

/// The residue modulo `2^(e + 1)` survives the reduction modulo the order
/// of the group.
proof fn lemma_reduce(x: int, e: nat)
    requires
        e <= 30,
    ensures
        (x % (circle_order() as int)) % (pow2(e + 1) as int) == x % (pow2(e + 1) as int),
        pow2(e + 1) == 2 * pow2(e),
        0 < pow2(e) < pow2(e + 1),
{
    lemma_pow2_adds(e + 1, (30 - e) as nat);
    lemma2_to64();
    lemma_pow2_pos(e + 1);
    lemma_pow2_pos(e);
    lemma_pow2_pos((30 - e) as nat);
    lemma_pow2_unfold(e + 1);
    lemma_mod_mod(x, pow2(e + 1) as int, pow2((30 - e) as nat) as int);
}

/// Every index of such a coset is an odd multiple of `2^e`.
proof fn lemma_index_odd(coset: Coset, e: nat, i: nat)
    requires
        e <= 30,
        spec_coset_odd(coset, e),
    ensures
        spec_odd_multiple(coset.spec_index_at(i)@, e),
{
    let m = pow2(e + 1) as int;
    let first = coset.spec_initial_index()@ as int;
    let step = coset.spec_step_size()@ as int;
    let moved = coset.spec_step_size().spec_mul(i);
    CirclePointIndex::lemma_of_nat_view((step * i) as nat);
    CirclePointIndex::lemma_of_nat_view((first + moved@) as nat);
    assert(step * i >= 0) by (nonlinear_arith)
        requires
            step >= 0,
            i >= 0,
    ;
    lemma_reduce(step * i, e);
    lemma_reduce(first + moved@, e);
    lemma_mul_mod_noop_left(step, i as int, m);
    assert(0 * (i as int) == 0);
    lemma_small_mod(0, m as nat);
    lemma_add_mod_noop(first, moved@ as int, m);
    lemma_small_mod(pow2(e), m as nat);
}

/// The negation of an odd multiple of `2^e` is one.
proof fn lemma_negation_odd(index: CirclePointIndex, e: nat)
    requires
        e <= 30,
        spec_odd_multiple(index@, e),
    ensures
        spec_odd_multiple(index.spec_neg()@, e),
{
    let m = pow2(e + 1) as int;
    let order = circle_order() as int;
    let x = (index@ % circle_order()) as int;
    CirclePointIndex::lemma_of_nat_view((order - x) as nat);
    lemma_reduce(order - x, e);
    lemma_reduce(index@ as int, e);
    lemma_reduce(order, e);
    lemma_small_mod(0, circle_order());
    assert(order % order == 0) by {
        lemma_mod_multiples_basic(1, order);
    }
    lemma_sub_mod_noop(order, x, m);
    lemma_fundamental_div_mod_converse(0 - pow2(e) as int, m, -1, pow2(e) as int);
}

/// The half coset of the canonic domain of `2^n` points consists of odd
/// multiples of `2^(30 - n)`.
proof fn lemma_half_coset_odd(n: nat)
    requires
        1 <= n <= 30,
    ensures
        spec_coset_odd(Coset::spec_half_odds((n - 1) as nat), (30 - n) as nat),
{
    let e = (30 - n) as nat;
    let m = pow2(e + 1) as int;
    Coset::lemma_half_odds((n - 1) as nat);
    CirclePointIndex::lemma_of_nat_view(pow2(e));
    CirclePointIndex::lemma_of_nat_view(pow2((32 - n) as nat));
    lemma_reduce(pow2(e) as int, e);
    lemma_reduce(pow2((32 - n) as nat) as int, e);
    lemma_small_mod(pow2(e), m as nat);
    lemma_pow2_unfold((32 - n) as nat);
    lemma_mod_multiples_basic(2, m);
}

/// Doubling a coset of odd multiples of `2^e` gives one of odd multiples
/// of `2^(e + 1)`.
proof fn lemma_double_odd(coset: Coset, e: nat)
    requires
        e <= 29,
        1 <= coset.spec_log_size() <= 31,
        spec_coset_odd(coset, e),
    ensures
        spec_coset_odd(coset.spec_double(), e + 1),
{
    let first = coset.spec_initial_index()@;
    let step = coset.spec_step_size()@;
    coset.lemma_double_log_size();
    CirclePointIndex::lemma_of_nat_view(first * 2);
    CirclePointIndex::lemma_of_nat_view(step * 2);
    lemma_reduce((first * 2) as int, e + 1);
    lemma_reduce((step * 2) as int, e + 1);
    lemma_reduce(0, e);
    lemma_truncate_middle(first as int, 2, pow2(e + 1) as int);
    lemma_truncate_middle(step as int, 2, pow2(e + 1) as int);
}

/// The coset of the `layer`-th line domain of the canonic domain of `2^n`
/// points consists of odd multiples of `2^(29 - n + layer)`.
proof fn lemma_layer_coset(n: nat, layer: nat)
    requires
        1 <= layer < n <= 30,
    ensures
        spec_coset_odd(
            spec_layer_domain(CanonicCoset::spec_circle_domain_of(n), layer).spec_coset(),
            (29 - n + layer) as nat,
        ),
        spec_layer_domain(CanonicCoset::spec_circle_domain_of(n), layer).spec_log_size() == n
            - layer,
    decreases layer,
{
    let domain = CanonicCoset::spec_circle_domain_of(n);
    CanonicCoset::lemma_circle_domain_of(n);
    LineDomain::lemma_from_circle_domain(domain);
    Coset::lemma_half_odds((n - 1) as nat);
    if layer == 1 {
        lemma_half_coset_odd(n);
    } else {
        lemma_layer_coset(n, (layer - 1) as nat);
        let before = spec_layer_domain(domain, (layer - 1) as nat);
        before.lemma_double_log_size();
        lemma_double_odd(before.spec_coset(), (29 - n + layer - 1) as nat);
    }
}

/// No twiddle of the transform on a canonic domain is zero.
pub proof fn lemma_canonic_twiddles(n: nat)
    requires
        1 <= n <= 30,
    ensures
        spec_twiddles_invertible(CanonicCoset::spec_circle_domain_of(n)),
        CanonicCoset::spec_circle_domain_of(n).spec_log_size() == n,
{
    let domain = CanonicCoset::spec_circle_domain_of(n);
    CanonicCoset::lemma_circle_domain_of(n);
    Coset::lemma_half_odds((n - 1) as nat);
    let half = domain.spec_half_coset();
    lemma_half_coset_odd(n);
    assert forall|layer: nat| layer < domain.spec_log_size() implies #[trigger] spec_layer_invertible(
        domain,
        layer,
    ) by {
        assert forall|h: nat| h < pow2((domain.spec_log_size() - layer - 1) as nat) implies {
            &&& (#[trigger] spec_twiddle(domain, layer, h))@ != 0
            &&& spec_twiddle(domain, layer, h).wf()
        } by {
            if layer == 0 {
                let i = crate::utils::spec_bit_reverse_index(2 * h, n);
                let index = domain.spec_index_at(i);
                if i < half.spec_size() {
                    lemma_index_odd(half, (30 - n) as nat, i);
                } else {
                    let j = (i - half.spec_size()) as nat;
                    lemma_index_odd(half, (30 - n) as nat, j);
                    lemma_negation_odd(half.spec_index_at(j), (30 - n) as nat);
                }
                lemma_off_the_axes(index@, (30 - n) as nat);
            } else {
                let line = spec_layer_domain(domain, layer);
                let i = crate::utils::spec_bit_reverse_index(2 * h, (n - layer) as nat);
                lemma_layer_coset(n, layer);
                lemma_index_odd(line.spec_coset(), (29 - n + layer) as nat, i);
                lemma_off_the_axes(line.spec_coset().spec_index_at(i)@, (29 - n + layer) as nat);
            }
        }
    }
}

/// On a canonic domain interpolation undoes evaluation, and evaluation
/// undoes interpolation.
pub proof fn lemma_canonic_round_trip(values: Seq<M31>, n: nat)
    requires
        1 <= n <= 30,
        spec_all_reduced(values),
        values.len() == pow2(n),
    ensures
        ({
            let domain = CanonicCoset::spec_circle_domain_of(n);
            let share = M31::from_int(values.len() as int).spec_inverse();
            &&& spec_scale_base(spec_ifft(spec_fft(values, domain, n), domain, 0), share) == values
            &&& spec_fft(spec_scale_base(spec_ifft(values, domain, 0), share), domain, n) == values
        }),
{
    lemma_canonic_twiddles(n);
    lemma_interpolation_round_trip(values, CanonicCoset::spec_circle_domain_of(n));
}

} // verus!
