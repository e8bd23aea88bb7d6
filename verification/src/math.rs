//! Integer helpers for ratios.

use vstd::prelude::*;
use vstd::arithmetic::div_mod::{
    lemma_fundamental_div_mod, lemma_mod_multiples_basic, lemma_truncate_middle,
};
use vstd::arithmetic::mul::lemma_mul_is_commutative;

verus! {

/// The greatest common divisor, by Euclid's recurrence.
pub open spec fn spec_gcd(a: nat, b: nat) -> nat
    decreases b,
{
    if b == 0 {
        a
    } else {
        spec_gcd(b, a % b)
    }
}

/// Whether `d` divides `n`.
pub open spec fn divides(d: nat, n: nat) -> bool {
    if d == 0 {
        n == 0
    } else {
        n % d == 0
    }
}

/// A multiple of `d` is divisible by `d`.
pub proof fn lemma_multiple_divides(d: nat, k: nat)
    ensures
        divides(d, d * k),
{
    if d == 0 {
        assert(d * k == 0) by (nonlinear_arith)
            requires
                d == 0,
        ;
    } else {
        lemma_mod_multiples_basic(k as int, d as int);
        lemma_mul_is_commutative(d as int, k as int);
    }
}

/// What `d` divides is a multiple of `d`.
pub proof fn lemma_divides_multiple(d: nat, n: nat)
    requires
        divides(d, n),
    ensures
        n == d * (if d == 0 {
            0
        } else {
            n / d
        }),
{
    if d == 0 {
        assert(d * 0 == 0);
    } else {
        lemma_fundamental_div_mod(n as int, d as int);
    }
}

/// The greatest common divisor divides both arguments.
pub proof fn lemma_gcd_divides(a: nat, b: nat)
    ensures
        divides(spec_gcd(a, b), a),
        divides(spec_gcd(a, b), b),
    decreases b,
{
    let g = spec_gcd(a, b);
    if b == 0 {
        lemma_multiple_divides(g, 1);
        assert(g * 1 == g);
        lemma_multiple_divides(g, 0);
        assert(g * 0 == 0);
    } else {
        lemma_gcd_divides(b, a % b);
        lemma_divides_multiple(g, b);
        lemma_divides_multiple(g, a % b);
        let kb: nat = if g == 0 {
            0
        } else {
            b / g
        };
        let kr: nat = if g == 0 {
            0
        } else {
            (a % b) / g
        };
        lemma_fundamental_div_mod(a as int, b as int);
        let q = a / b;
        assert(a == g * (kb * q + kr)) by (nonlinear_arith)
            requires
                a == b * q + a % b,
                b == g * kb,
                a % b == g * kr,
        ;
        lemma_multiple_divides(g, kb * q + kr);
    }
}

/// Scaling both arguments scales the greatest common divisor.
pub proof fn lemma_gcd_scales(k: nat, a: nat, b: nat)
    requires
        k > 0,
    ensures
        spec_gcd(k * a, k * b) == k * spec_gcd(a, b),
    decreases b,
{
    if b == 0 {
        assert(k * b == 0) by (nonlinear_arith)
            requires
                b == 0,
        ;
    } else {
        assert(k * b > 0) by (nonlinear_arith)
            requires
                k > 0,
                b > 0,
        ;
        assert((k * a) % (k * b) == k * (a % b)) by {
            lemma_truncate_middle(a as int, k as int, b as int);
            lemma_mul_is_commutative(k as int, a as int);
        }
        lemma_gcd_scales(k, b, a % b);
    }
}

/// The greatest common divisor of two numbers.
pub fn gcd(a: u64, b: u64) -> (r: u64)
    ensures
        r == spec_gcd(a as nat, b as nat),
    decreases b,
{
    if b == 0 {
        a
    } else {
        gcd(b, a % b)
    }
}

/// The ratio `numerator : denominator` in lowest terms.
pub fn simplify_ratio(numerator: u64, denominator: u64) -> (r: (u64, u64))
    requires
        numerator != 0 || denominator != 0,
    ensures
        r.0 * spec_gcd(numerator as nat, denominator as nat) == numerator,
        r.1 * spec_gcd(numerator as nat, denominator as nat) == denominator,
        spec_gcd(r.0 as nat, r.1 as nat) == 1,
{
    let divisor = gcd(numerator, denominator);
    proof {
        let a = numerator as nat;
        let b = denominator as nat;
        let g = divisor as nat;
        lemma_gcd_divides(a, b);
        assert(g != 0);
        lemma_divides_multiple(g, a);
        lemma_divides_multiple(g, b);
        let ka = a / g;
        let kb = b / g;
        lemma_gcd_scales(g, ka, kb);
        assert(spec_gcd(ka, kb) == 1) by (nonlinear_arith)
            requires
                g == g * spec_gcd(ka, kb),
                g > 0,
        ;
        assert(ka * g == a && kb * g == b) by (nonlinear_arith)
            requires
                a == g * ka,
                b == g * kb,
        ;
    }
    (numerator / divisor, denominator / divisor)
}

} // verus!
