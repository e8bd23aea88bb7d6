//! Which multiples of the generator lie on an axis: a multiple by an odd
//! multiple of `2^e` has the order `2^(31 - e)`, so it is neither of the two
//! points with the second coordinate zero while `e <= 29`, nor of the two
//! with the first coordinate zero while `e <= 28`.

use vstd::prelude::*;
use vstd::arithmetic::div_mod::lemma_fundamental_div_mod;
use vstd::arithmetic::power2::{lemma2_to64, lemma_pow2_adds, lemma_pow2_pos, lemma_pow2_unfold, pow2};
use crate::circle::index::{circle_order, CirclePointIndex};
use crate::circle::point::{generator_doubling, CirclePoint};
use crate::fields::cm31::CM31;
use crate::fields::fermat::{lemma_norm_model, lemma_norm_of_product};
use crate::fields::m31::M31;

verus! {

/// The generator as a complex number.
pub open spec fn spec_g() -> CM31 {
    CirclePoint::spec_generator().complex()
}

/// Every power of the generator has the norm one: it lies on the circle.
pub proof fn lemma_power_on_circle(k: nat)
    ensures
        spec_g().spec_pow(k).spec_norm() == M31::spec_one(),
        spec_g().spec_pow(k).wf(),
    decreases k,
{
    let g = spec_g();
    CM31::lemma_of_wf(generator_doubling(0));
    CM31::lemma_pow_wf(g, k);
    if k == 0 {
        lemma_norm_model((1, 0));
        assert(1int * 1int + 0int * 0int == 1);
    } else {
        lemma_power_on_circle((k - 1) as nat);
        lemma_norm_of_product(g, g.spec_pow((k - 1) as nat));
        lemma_norm_model(generator_doubling(0));
        M31::lemma_from_int_congruent(2int * 2int + 1268011823int * 1268011823int, 1);
        M31::lemma_from_int_range(1);
        M31::lemma_mul_one(M31::spec_one());
    }
}

/// A power of the generator with the second coordinate zero squares to
/// one, and one with the first coordinate zero squares to minus one.
pub proof fn lemma_square_on_axis(k: nat)
    ensures
        spec_g().spec_pow(k).1@ == 0 ==> spec_g().spec_pow(2 * k) == CM31::spec_one(),
        spec_g().spec_pow(k).0@ == 0 ==> spec_g().spec_pow(2 * k) == CM31::of((-1, 0)),
{
    let g = spec_g();
    let z = g.spec_pow(k);
    CM31::lemma_of_wf(generator_doubling(0));
    lemma_power_on_circle(k);
    CM31::lemma_pow_add(g, k, k);
    let x = z.0@;
    let y = z.1@;
    M31::lemma_wf_from_int(z.0);
    M31::lemma_wf_from_int(z.1);
    // The norm, x^2 + y^2, is one.
    M31::lemma_hom_mul(x, x);
    M31::lemma_hom_mul(y, y);
    M31::lemma_hom_mul(x, y);
    M31::lemma_hom_mul(y, x);
    M31::lemma_hom_add(x * x, y * y);
    M31::lemma_hom_sub(x * x, y * y);
    M31::lemma_hom_add(x * y, y * x);
    if y == 0 {
        assert(x * x + y * y == x * x - y * y) by (nonlinear_arith)
            requires
                y == 0,
        ;
        assert(x * y + y * x == 0) by (nonlinear_arith)
            requires
                y == 0,
        ;
    }
    if x == 0 {
        assert(x * x - y * y == -1 - (x * x + y * y) + 1 + 2 * (x * x)) by (nonlinear_arith);
        assert(x * x == 0 && x * y + y * x == 0) by (nonlinear_arith)
            requires
                x == 0,
        ;
        M31::lemma_hom_sub(0, x * x + y * y);
        M31::lemma_hom_sub(0, 1);
        assert(x * x - y * y == 0 - (x * x + y * y));
    }
}

/// A multiple of an exponent that gives one gives one.
pub proof fn lemma_one_to_multiples(a: nat, m: nat)
    requires
        spec_g().spec_pow(a) == CM31::spec_one(),
    ensures
        spec_g().spec_pow(a * m) == CM31::spec_one(),
    decreases m,
{
    let g = spec_g();
    CM31::lemma_of_wf(generator_doubling(0));
    if m == 0 {
        assert(a * m == 0) by (nonlinear_arith)
            requires
                m == 0,
        ;
    } else {
        lemma_one_to_multiples(a, (m - 1) as nat);
        assert(a * m == a * (m - 1) + a) by (nonlinear_arith);
        CM31::lemma_pow_add(g, (a * (m - 1)) as nat, a);
        CM31::lemma_of_wf((1, 0));
        CM31::lemma_mul_one(CM31::spec_one());
    }
}

/// An odd multiple of `2^e`, times `2^(30 - e)`, gives the point `(-1, 0)`.
pub proof fn lemma_odd_multiple(k: nat, e: nat)
    requires
        e <= 30,
        k % pow2(e + 1) == pow2(e),
    ensures
        spec_g().spec_pow(k * pow2((30 - e) as nat)) == CM31::of((-1, 0)),
{
    let q = k / pow2(e + 1);
    lemma_pow2_pos(e + 1);
    lemma_fundamental_div_mod(k as int, pow2(e + 1) as int);
    lemma_pow2_adds(e + 1, (30 - e) as nat);
    lemma_pow2_adds(e, (30 - e) as nat);
    lemma2_to64();
    let r = pow2((30 - e) as nat);
    assert(k * r == pow2(30) + q * pow2(31)) by (nonlinear_arith)
        requires
            k == pow2(e + 1) * q + pow2(e),
            pow2(e + 1) * r == pow2(31),
            pow2(e) * r == pow2(30),
    ;
    assert(pow2(31) == circle_order());
    CirclePointIndex::lemma_point_periodic(pow2(30), q);
    CirclePoint::lemma_generator_power_of_two(30);
    M31::lemma_from_int_congruent(2147483646, -1);
}

/// The multiple of the generator by an odd multiple of `2^e` has a second
/// coordinate other than zero while `e <= 29`, and a first coordinate other
/// than zero while `e <= 28`.
pub proof fn lemma_off_the_axes(k: nat, e: nat)
    requires
        e <= 29,
        k % pow2(e + 1) == pow2(e),
    ensures
        CirclePoint::spec_generator().spec_mul(k).y@ != 0,
        e <= 28 ==> CirclePoint::spec_generator().spec_mul(k).x@ != 0,
        CirclePoint::spec_generator().spec_mul(k).x.wf(),
        CirclePoint::spec_generator().spec_mul(k).y.wf(),
{
    let g = spec_g();
    let z = g.spec_pow(k);
    lemma_power_on_circle(k);
    lemma_odd_multiple(k, e);
    lemma_square_on_axis(k);
    M31::lemma_from_int_view(1);
    M31::lemma_from_int_view(-1);
    M31::lemma_from_int_view(0);
    CM31::lemma_of_wf(generator_doubling(0));
    if z.1@ == 0 {
        let m = pow2((29 - e) as nat);
        lemma_one_to_multiples(2 * k, m);
        lemma_pow2_unfold((30 - e) as nat);
        assert((2 * k) * m == k * (2 * m)) by (nonlinear_arith);
    }
    if e <= 28 && z.0@ == 0 {
        // The fourth power is one.
        CM31::lemma_pow_add(g, 2 * k, 2 * k);
        CM31::lemma_of_mul((-1, 0), (-1, 0));
        assert(crate::fields::gauss::gi_mul((-1, 0), (-1, 0)) == (1int, 0int)) by {
            reveal(crate::fields::gauss::gi_mul);
        }
        let m = pow2((28 - e) as nat);
        lemma_one_to_multiples(4 * k, m);
        lemma_pow2_unfold((30 - e) as nat);
        lemma_pow2_unfold((29 - e) as nat);
        assert((4 * k) * m == k * (2 * (2 * m))) by (nonlinear_arith);
    }
}

} // verus!
