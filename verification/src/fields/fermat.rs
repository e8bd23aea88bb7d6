//! Every element of the base field but zero has an inverse, and the inverse
//! is the power with the exponent `p - 2`. The proof is the classical one:
//! multiplication by an element `a` other than zero permutes the elements
//! other than zero, so their product `F` satisfies `a^(p - 1) * F = F`.

use vstd::prelude::*;
use vstd::arithmetic::div_mod::{lemma_fundamental_div_mod, lemma_mod_multiples_vanish, lemma_small_mod};
use vstd::set_lib::{lemma_int_range, lemma_len_subset, lemma_subset_equality, set_int_range};
use crate::fields::cm31::CM31;
use crate::fields::gauss::{
    gi_add, gi_mul, gi_neg, gi_norm, gi_r, gi_sub, lemma_gi_distributive,
    lemma_gi_mul_associative, lemma_gi_mul_commutative, lemma_gi_mul_neg, lemma_gi_mul_zero,
    lemma_gi_norm_mul, qi_mul,
};
use crate::fields::qm31::QM31;
use crate::fields::m31::{modulus, M31};
use crate::math::{divides, lemma_divides_multiple, lemma_gcd_divides, spec_gcd};

verus! {

/// The modulus `2^31 - 1` is prime: no number strictly between one and the
/// modulus divides it.
#[verifier::rlimit(100)]
pub proof fn lemma_modulus_is_prime(d: nat)
    requires
        1 < d < modulus(),
    ensures
        modulus() % (d as int) != 0,
{
    let x = d as u32;
    assert(0x7fff_ffffu32 % x != 0) by (bit_vector)
        requires
            1 < x < 0x7fff_ffffu32,
    ;
}

/// A number between zero and the modulus has no divisor in common with the
/// modulus but one.
pub proof fn lemma_coprime_to_modulus(a: nat)
    requires
        0 < a < modulus(),
    ensures
        spec_gcd(a, modulus() as nat) == 1,
{
    let p = modulus() as nat;
    let g = spec_gcd(a, p);
    lemma_gcd_divides(a, p);
    assert(g != 0);
    lemma_divides_multiple(g, a);
    let k = a / g;
    assert(g <= a) by (nonlinear_arith)
        requires
            a == g * k,
            a > 0,
            g > 0,
    ;
    if g > 1 {
        lemma_modulus_is_prime(g);
    }
}

/// Coefficients `x` and `y` with `a * x + b * y = gcd(a, b)`.
pub proof fn lemma_bezout(a: nat, b: nat) -> (r: (int, int))
    ensures
        a * r.0 + b * r.1 == spec_gcd(a, b),
    decreases b,
{
    if b == 0 {
        (1, 0)
    } else {
        let (x, y) = lemma_bezout(b, a % b);
        lemma_fundamental_div_mod(a as int, b as int);
        let q = (a / b) as int;
        let m = (a % b) as int;
        assert(a * y + b * (x - q * y) == b * x + m * y) by (nonlinear_arith)
            requires
                a == b * q + m,
        ;
        (y, x - q * y)
    }
}

/// An element other than zero has an inverse.
pub proof fn lemma_inverse_exists(a: M31) -> (w: M31)
    requires
        a.wf(),
        a@ != 0,
    ensures
        w.wf(),
        w.spec_mul(a) == M31::spec_one(),
        a.spec_mul(w) == M31::spec_one(),
{
    let p = modulus();
    lemma_coprime_to_modulus(a@ as nat);
    let (x, y) = lemma_bezout(a@ as nat, p as nat);
    let w = M31::from_int(x);
    M31::lemma_from_int_range(x);
    M31::lemma_wf_from_int(a);
    M31::lemma_hom_mul(x, a@);
    assert(x * a@ == p * (-y) + 1) by (nonlinear_arith)
        requires
            a@ * x + p * y == 1,
    ;
    lemma_mod_multiples_vanish(-y, 1, p);
    M31::lemma_from_int_congruent(x * a@, 1);
    M31::lemma_mul_commutative(w, a);
    w
}

/// A factor other than zero cancels.
pub proof fn lemma_cancel(a: M31, u: M31, v: M31)
    requires
        a.wf(),
        u.wf(),
        v.wf(),
        a@ != 0,
        a.spec_mul(u) == a.spec_mul(v),
    ensures
        u == v,
{
    let w = lemma_inverse_exists(a);
    M31::lemma_mul_associative(w, a, u);
    M31::lemma_mul_associative(w, a, v);
    M31::lemma_mul_one(u);
    M31::lemma_mul_one(v);
    M31::lemma_mul_commutative(u, M31::spec_one());
    M31::lemma_mul_commutative(v, M31::spec_one());
}

/// The class of a number between zero and the modulus is not zero, and two
/// such numbers have different classes.
pub proof fn lemma_small_classes(j: nat, k: nat)
    requires
        0 < j < modulus(),
        0 < k < modulus(),
    ensures
        M31::from_int(j as int)@ == j,
        M31::from_int(j as int).wf(),
        j != k ==> M31::from_int(j as int) != M31::from_int(k as int),
{
    M31::lemma_from_int_view(j as int);
    M31::lemma_from_int_view(k as int);
    lemma_small_mod(j, modulus() as nat);
    lemma_small_mod(k, modulus() as nat);
}

/// A product of two elements other than zero is not zero.
pub proof fn lemma_no_zero_divisors(a: M31, u: M31)
    requires
        a.wf(),
        u.wf(),
        a@ != 0,
        u@ != 0,
    ensures
        a.spec_mul(u)@ != 0,
        a.spec_mul(u).wf(),
{
    M31::lemma_from_int_range(a@ * u@);
    if a.spec_mul(u)@ == 0 {
        let zero = M31::spec_zero();
        M31::lemma_from_int_view(0);
        M31::lemma_mul_zero(a);
        M31::lemma_wf_from_int(a.spec_mul(u));
        M31::lemma_from_int_range(0);
        lemma_cancel(a, u, zero);
    }
}

/// The product of `a * 1, a * 2, ..., a * n`.
pub open spec fn spec_scaled_product(a: M31, n: nat) -> M31
    decreases n,
{
    if n == 0 {
        M31::spec_one()
    } else {
        spec_scaled_product(a, (n - 1) as nat).spec_mul(a.spec_mul(M31::from_int(n as int)))
    }
}

/// The product of `1, 2, ..., n`.
pub open spec fn spec_factorial(n: nat) -> M31
    decreases n,
{
    if n == 0 {
        M31::spec_one()
    } else {
        spec_factorial((n - 1) as nat).spec_mul(M31::from_int(n as int))
    }
}

/// The product of those of `1, 2, ..., m` that lie in the set.
pub open spec fn spec_set_product(s: Set<int>, m: nat) -> M31
    decreases m,
{
    if m == 0 {
        M31::spec_one()
    } else if s.contains(m as int) {
        spec_set_product(s, (m - 1) as nat).spec_mul(M31::from_int(m as int))
    } else {
        spec_set_product(s, (m - 1) as nat)
    }
}

/// The residues of `a * 1, a * 2, ..., a * n`.
pub open spec fn spec_image(a: M31, n: nat) -> Set<int>
    decreases n,
{
    if n == 0 {
        Set::empty()
    } else {
        spec_image(a, (n - 1) as nat).insert(a.spec_mul(M31::from_int(n as int))@)
    }
}

/// The product of the factorial is never zero below the modulus.
pub proof fn lemma_factorial_not_zero(n: nat)
    requires
        n < modulus(),
    ensures
        spec_factorial(n)@ != 0,
        spec_factorial(n).wf(),
    decreases n,
{
    if n == 0 {
        M31::lemma_from_int_view(1);
        M31::lemma_from_int_range(1);
    } else {
        lemma_factorial_not_zero((n - 1) as nat);
        lemma_small_classes(n, n);
        lemma_no_zero_divisors(spec_factorial((n - 1) as nat), M31::from_int(n as int));
    }
}

/// The product of `a * 1, ..., a * n` is `a^n` times the product of
/// `1, ..., n`.
pub proof fn lemma_scaled_product(a: M31, n: nat)
    requires
        a.wf(),
    ensures
        spec_scaled_product(a, n) == a.spec_pow(n).spec_mul(spec_factorial(n)),
    decreases n,
{
    if n == 0 {
        M31::lemma_from_int_range(1);
        M31::lemma_mul_one(M31::spec_one());
    } else {
        lemma_scaled_product(a, (n - 1) as nat);
        let q = a.spec_pow((n - 1) as nat);
        let f = spec_factorial((n - 1) as nat);
        let k = M31::from_int(n as int);
        // (q f) (a k) = (a q) (f k)
        M31::lemma_mul_associative(q, f, a.spec_mul(k));
        M31::lemma_mul_associative(f, a, k);
        M31::lemma_mul_commutative(f, a);
        M31::lemma_mul_associative(a, f, k);
        M31::lemma_mul_associative(q, a, f.spec_mul(k));
        M31::lemma_mul_commutative(q, a);
    }
}

/// What lies in the image is one of the products, none of which is zero.
pub proof fn lemma_image_members(a: M31, n: nat, x: int)
    requires
        a.wf(),
        a@ != 0,
        n < modulus(),
        spec_image(a, n).contains(x),
    ensures
        0 < x < modulus(),
        exists|j: nat| 0 < j <= n && x == #[trigger] a.spec_mul(M31::from_int(j as int))@,
    decreases n,
{
    if n > 0 {
        let last = a.spec_mul(M31::from_int(n as int));
        if x == last@ {
            lemma_small_classes(n, n);
            lemma_no_zero_divisors(a, M31::from_int(n as int));
            assert(0 < n <= n && x == a.spec_mul(M31::from_int(n as int))@);
        } else {
            lemma_image_members(a, (n - 1) as nat, x);
            let j = choose|j: nat|
                0 < j <= n - 1 && x == #[trigger] a.spec_mul(M31::from_int(j as int))@;
            assert(0 < j <= n && x == a.spec_mul(M31::from_int(j as int))@);
        }
    }
}

/// The image of `1, ..., n` has `n` elements.
pub proof fn lemma_image_len(a: M31, n: nat)
    requires
        a.wf(),
        a@ != 0,
        n < modulus(),
    ensures
        spec_image(a, n).finite(),
        spec_image(a, n).len() == n,
    decreases n,
{
    if n > 0 {
        lemma_image_len(a, (n - 1) as nat);
        let before = spec_image(a, (n - 1) as nat);
        let k = M31::from_int(n as int);
        let last = a.spec_mul(k);
        if before.contains(last@) {
            lemma_image_members(a, (n - 1) as nat, last@);
            let j = choose|j: nat|
                0 < j <= n - 1 && last@ == #[trigger] a.spec_mul(M31::from_int(j as int))@;
            let kj = M31::from_int(j as int);
            lemma_small_classes(j, n);
            lemma_small_classes(n, j);
            M31::lemma_from_int_range(a@ * k@);
            M31::lemma_from_int_range(a@ * kj@);
            M31::lemma_wf_from_int(last);
            M31::lemma_wf_from_int(a.spec_mul(kj));
            lemma_cancel(a, k, kj);
        }
    }
}

/// One more element below the bound multiplies the product of the set.
pub proof fn lemma_set_product_insert(s: Set<int>, x: int, m: nat)
    requires
        !s.contains(x),
        0 < x,
        m < modulus(),
    ensures
        spec_set_product(s.insert(x), m) == if x <= m {
            spec_set_product(s, m).spec_mul(M31::from_int(x))
        } else {
            spec_set_product(s, m)
        },
    decreases m,
{
    if m > 0 {
        lemma_set_product_insert(s, x, (m - 1) as nat);
        let rest = spec_set_product(s, (m - 1) as nat);
        let top = M31::from_int(m as int);
        let new = M31::from_int(x);
        if x < m {
            if s.contains(m as int) {
                // (rest new) top = (rest top) new
                M31::lemma_mul_associative(rest, new, top);
                M31::lemma_mul_commutative(new, top);
                M31::lemma_mul_associative(rest, top, new);
            }
        }
    }
}

/// The product of the image is the product of the scaled numbers.
pub proof fn lemma_image_product(a: M31, n: nat)
    requires
        a.wf(),
        a@ != 0,
        n < modulus(),
    ensures
        spec_set_product(spec_image(a, n), (modulus() - 1) as nat) == spec_scaled_product(a, n),
    decreases n,
{
    let top = (modulus() - 1) as nat;
    if n == 0 {
        lemma_empty_product(top);
    } else {
        lemma_image_product(a, (n - 1) as nat);
        lemma_image_len(a, (n - 1) as nat);
        lemma_image_len(a, n);
        let before = spec_image(a, (n - 1) as nat);
        let last = a.spec_mul(M31::from_int(n as int));
        lemma_small_classes(n, n);
        lemma_no_zero_divisors(a, M31::from_int(n as int));
        M31::lemma_wf_from_int(last);
        assert(!before.contains(last@)) by {
            if before.contains(last@) {
                assert(before.insert(last@) =~= before);
            }
        }
        lemma_set_product_insert(before, last@, top);
    }
}

/// The empty set has the product one.
pub proof fn lemma_empty_product(m: nat)
    ensures
        spec_set_product(Set::empty(), m) == M31::spec_one(),
    decreases m,
{
    if m > 0 {
        lemma_empty_product((m - 1) as nat);
    }
}

/// The product over all of `1, ..., p - 1`, up to `m`, is the factorial.
pub proof fn lemma_full_product(m: nat)
    requires
        m < modulus(),
    ensures
        spec_set_product(set_int_range(1, modulus()), m) == spec_factorial(m),
    decreases m,
{
    if m > 0 {
        lemma_full_product((m - 1) as nat);
    }
}

/// Fermat: an element other than zero, raised to the power `p - 1`, is one.
pub proof fn lemma_fermat(a: M31)
    requires
        a.wf(),
        a@ != 0,
    ensures
        a.spec_pow((modulus() - 1) as nat) == M31::spec_one(),
{
    let n = (modulus() - 1) as nat;
    let image = spec_image(a, n);
    let all = set_int_range(1, modulus());
    lemma_image_len(a, n);
    lemma_int_range(1, modulus());
    assert(image.subset_of(all)) by {
        assert forall|x: int| image.contains(x) implies all.contains(x) by {
            lemma_image_members(a, n, x);
        }
    }
    lemma_subset_equality(image, all);
    assert(image == all);
    lemma_image_product(a, n);
    lemma_full_product(n);
    lemma_scaled_product(a, n);
    // a^n * F == F == 1 * F
    let f = spec_factorial(n);
    let q = a.spec_pow(n);
    lemma_factorial_not_zero(n);
    M31::lemma_pow_range(a, n);
    M31::lemma_wf_from_int(q);
    M31::lemma_mul_commutative(q, f);
    M31::lemma_mul_one(f);
    M31::lemma_from_int_range(1);
    lemma_cancel(f, q, M31::spec_one());
}

/// The power with the exponent `p - 2` of an element other than zero is its
/// inverse.
pub proof fn lemma_inverse(a: M31)
    requires
        a.wf(),
        a@ != 0,
    ensures
        a.spec_mul(a.spec_inverse()) == M31::spec_one(),
        a.spec_inverse().spec_mul(a) == M31::spec_one(),
        a.spec_inverse().wf(),
        a.spec_inverse()@ != 0,
{
    lemma_fermat(a);
    let w = a.spec_inverse();
    assert(a.spec_pow((modulus() - 1) as nat) == a.spec_mul(a.spec_pow((modulus() - 2) as nat)));
    M31::lemma_mul_commutative(a, w);
    M31::lemma_pow_range(a, (modulus() - 2) as nat);
    if w@ == 0 {
        M31::lemma_wf_from_int(w);
        M31::lemma_mul_zero(a);
        M31::lemma_from_int_view(0);
        M31::lemma_from_int_view(1);
    }
}

/// An element has one inverse only.
pub proof fn lemma_inverse_unique(a: M31, w: M31)
    requires
        a.wf(),
        w.wf(),
        a.spec_mul(w) == M31::spec_one(),
    ensures
        a@ != 0,
        w == a.spec_inverse(),
{
    if a@ == 0 {
        M31::lemma_wf_from_int(a);
        M31::lemma_mul_zero(w);
        M31::lemma_mul_commutative(a, w);
        M31::lemma_from_int_view(0);
        M31::lemma_from_int_view(1);
    }
    lemma_inverse(a);
    lemma_cancel(a, w, a.spec_inverse());
}

/// Minus one to an odd power is minus one.
pub proof fn lemma_minus_one_to_odd(m: nat)
    ensures
        M31::from_int(-1).spec_pow(2 * m + 1) == M31::from_int(-1),
    decreases m,
{
    let e = M31::from_int(-1);
    M31::lemma_from_int_range(-1);
    M31::lemma_hom_mul(-1, -1);
    assert((-1) * (-1) == 1) by (nonlinear_arith);
    if m == 0 {
        M31::lemma_pow_one(e);
    } else {
        lemma_minus_one_to_odd((m - 1) as nat);
        M31::lemma_pow_add(e, 2, (2 * m - 1) as nat);
        M31::lemma_pow_one(e);
        assert(e.spec_pow(2) == e.spec_mul(e.spec_pow(1)));
        M31::lemma_mul_commutative(M31::spec_one(), e);
        M31::lemma_mul_one(e);
    }
}

/// Minus one is no square: a sum of two squares is zero only if both are.
pub proof fn lemma_sum_of_squares(a: M31, b: M31)
    requires
        a.wf(),
        b.wf(),
        a.spec_square().spec_add(b.spec_square()) == M31::spec_zero(),
    ensures
        a@ == 0,
        b@ == 0,
{
    lemma_second_square_is_zero(a, b);
    M31::lemma_add_commutative(a.spec_square(), b.spec_square());
    lemma_second_square_is_zero(b, a);
}

/// If `a^2 + b^2` were zero with `b` other than zero, `a / b` would be a
/// root of minus one, and its power with the exponent `p - 1`, which is one,
/// would be minus one to the odd power `(p - 1) / 2`.
proof fn lemma_second_square_is_zero(a: M31, b: M31)
    requires
        a.wf(),
        b.wf(),
        a.spec_square().spec_add(b.spec_square()) == M31::spec_zero(),
    ensures
        b@ == 0,
{
    if b@ != 0 {
        let w = lemma_inverse_exists(b);
        let x = a@;
        let y = b@;
        let z = w@;
        M31::lemma_wf_from_int(a);
        M31::lemma_wf_from_int(b);
        M31::lemma_wf_from_int(w);
        // The class of x^2 + y^2 is zero, and that of y z is one.
        M31::lemma_hom_add(x * x, y * y);
        // So the class of (x z)^2 + 1 is zero.
        assert((x * z) * (x * z) + 1 == (z * z) * (x * x + y * y) - (y * z - 1) * (y * z + 1))
            by (nonlinear_arith);
        M31::lemma_hom_mul(z * z, x * x + y * y);
        M31::lemma_mul_zero(M31::from_int(z * z));
        M31::lemma_hom_sub(y * z, 1);
        M31::lemma_hom_mul(y, z);
        M31::lemma_hom_sub(1, 1);
        M31::lemma_hom_mul(y * z - 1, y * z + 1);
        M31::lemma_mul_zero(M31::from_int(y * z + 1));
        M31::lemma_mul_commutative(M31::from_int(y * z - 1), M31::from_int(y * z + 1));
        M31::lemma_hom_sub((z * z) * (x * x + y * y), (y * z - 1) * (y * z + 1));
        M31::lemma_hom_sub(0, 0);
        assert(M31::from_int((x * z) * (x * z) + 1) == M31::spec_zero());
        // The class c of x z squares to minus one.
        let c = M31::from_int(x * z);
        M31::lemma_from_int_range(x * z);
        M31::lemma_hom_mul(x * z, x * z);
        M31::lemma_hom_sub((x * z) * (x * z) + 1, 1);
        M31::lemma_hom_sub(0, 1);
        assert(c.spec_square() == M31::from_int(-1));
        M31::lemma_from_int_view(-1);
        M31::lemma_from_int_view(0);
        M31::lemma_from_int_view(1);
        if c@ == 0 {
            M31::lemma_wf_from_int(c);
            M31::lemma_mul_zero(c);
        }
        lemma_fermat(c);
        let half: nat = 0x3fff_ffff;
        M31::lemma_pow_of_square(c, half);
        lemma_minus_one_to_odd(0x1fff_ffff);
    }
}

/// An element of the quadratic extension other than zero has a norm other
/// than zero, and the conjugate over the norm is its inverse.
pub proof fn lemma_complex_inverse(a: CM31)
    requires
        a.wf(),
        a != CM31::spec_zero(),
    ensures
        a.spec_norm()@ != 0,
        a.spec_mul(a.spec_inverse()) == CM31::spec_one(),
        a.spec_inverse().wf(),
{
    let x = a.0@;
    let y = a.1@;
    let n = a.spec_norm();
    M31::lemma_wf_from_int(a.0);
    M31::lemma_wf_from_int(a.1);
    M31::lemma_from_int_range(a.0.spec_square()@ + a.1.spec_square()@);
    M31::lemma_from_int_view(0);
    if n@ == 0 {
        M31::lemma_wf_from_int(n);
        lemma_sum_of_squares(a.0, a.1);
    }
    lemma_inverse(n);
    let m = n.spec_inverse();
    let z = m@;
    M31::lemma_wf_from_int(m);
    // The norm is the class of x^2 + y^2.
    M31::lemma_hom_mul(x, x);
    M31::lemma_hom_mul(y, y);
    M31::lemma_hom_add(x * x, y * y);
    // The inverse is the class of (x z, -y z).
    M31::lemma_hom_mul(x, z);
    M31::lemma_hom_neg(y);
    M31::lemma_hom_mul(-y, z);
    assert(a.spec_inverse() == CM31::of((x * z, (-y) * z)));
    CM31::lemma_of_wf((x * z, (-y) * z));
    // The product is the class of ((x^2 + y^2) z, 0).
    M31::lemma_hom_mul(x, x * z);
    M31::lemma_hom_mul(y, (-y) * z);
    M31::lemma_hom_sub(x * (x * z), y * ((-y) * z));
    M31::lemma_hom_mul(x, (-y) * z);
    M31::lemma_hom_mul(y, x * z);
    M31::lemma_hom_add(x * ((-y) * z), y * (x * z));
    assert(x * (x * z) - y * ((-y) * z) == (x * x + y * y) * z) by (nonlinear_arith);
    assert(x * ((-y) * z) + y * (x * z) == 0) by (nonlinear_arith);
    M31::lemma_hom_mul(x * x + y * y, z);
}

/// The powers of five with the exponents `2^0, 2^1, ..., 2^30`, by repeated
/// squaring: the last one is minus five.
proof fn lemma_five_to_two_to_thirty()
    ensures
        M31::from_int(5).spec_pow(0x4000_0000) == M31::from_int(-5),
{
    let five = M31::from_int(5);
    M31::lemma_from_int_range(5);
    M31::lemma_pow_one(five);
    M31::lemma_pow_add(five, 1, 1);
    M31::lemma_hom_mul(5, 5);
    M31::lemma_from_int_congruent(5int * 5int, 25);
    assert(five.spec_pow(2) == M31::from_int(25));
    M31::lemma_pow_add(five, 2, 2);
    M31::lemma_hom_mul(25, 25);
    M31::lemma_from_int_congruent(25int * 25int, 625);
    assert(five.spec_pow(4) == M31::from_int(625));
    M31::lemma_pow_add(five, 4, 4);
    M31::lemma_hom_mul(625, 625);
    M31::lemma_from_int_congruent(625int * 625int, 390625);
    assert(five.spec_pow(8) == M31::from_int(390625));
    M31::lemma_pow_add(five, 8, 8);
    M31::lemma_hom_mul(390625, 390625);
    M31::lemma_from_int_congruent(390625int * 390625int, 116551688);
    assert(five.spec_pow(16) == M31::from_int(116551688));
    M31::lemma_pow_add(five, 16, 16);
    M31::lemma_hom_mul(116551688, 116551688);
    M31::lemma_from_int_congruent(116551688int * 116551688int, 1619494384);
    assert(five.spec_pow(32) == M31::from_int(1619494384));
    M31::lemma_pow_add(five, 32, 32);
    M31::lemma_hom_mul(1619494384, 1619494384);
    M31::lemma_from_int_congruent(1619494384int * 1619494384int, 1375672677);
    assert(five.spec_pow(64) == M31::from_int(1375672677));
    M31::lemma_pow_add(five, 64, 64);
    M31::lemma_hom_mul(1375672677, 1375672677);
    M31::lemma_from_int_congruent(1375672677int * 1375672677int, 943831652);
    assert(five.spec_pow(128) == M31::from_int(943831652));
    M31::lemma_pow_add(five, 128, 128);
    M31::lemma_hom_mul(943831652, 943831652);
    M31::lemma_from_int_congruent(943831652int * 943831652int, 121052136);
    assert(five.spec_pow(256) == M31::from_int(121052136));
    M31::lemma_pow_add(five, 256, 256);
    M31::lemma_hom_mul(121052136, 121052136);
    M31::lemma_from_int_congruent(121052136int * 121052136int, 824369415);
    assert(five.spec_pow(512) == M31::from_int(824369415));
    M31::lemma_pow_add(five, 512, 512);
    M31::lemma_hom_mul(824369415, 824369415);
    M31::lemma_from_int_congruent(824369415int * 824369415int, 1283853307);
    assert(five.spec_pow(1024) == M31::from_int(1283853307));
    M31::lemma_pow_add(five, 1024, 1024);
    M31::lemma_hom_mul(1283853307, 1283853307);
    M31::lemma_from_int_congruent(1283853307int * 1283853307int, 1091781300);
    assert(five.spec_pow(2048) == M31::from_int(1091781300));
    M31::lemma_pow_add(five, 2048, 2048);
    M31::lemma_hom_mul(1091781300, 1091781300);
    M31::lemma_from_int_congruent(1091781300int * 1091781300int, 19849525);
    assert(five.spec_pow(4096) == M31::from_int(19849525));
    M31::lemma_pow_add(five, 4096, 4096);
    M31::lemma_hom_mul(19849525, 19849525);
    M31::lemma_from_int_congruent(19849525int * 19849525int, 523043241);
    assert(five.spec_pow(8192) == M31::from_int(523043241));
    M31::lemma_pow_add(five, 8192, 8192);
    M31::lemma_hom_mul(523043241, 523043241);
    M31::lemma_from_int_congruent(523043241int * 523043241int, 184852018);
    assert(five.spec_pow(16384) == M31::from_int(184852018));
    M31::lemma_pow_add(five, 16384, 16384);
    M31::lemma_hom_mul(184852018, 184852018);
    M31::lemma_from_int_congruent(184852018int * 184852018int, 541363487);
    assert(five.spec_pow(32768) == M31::from_int(541363487));
    M31::lemma_pow_add(five, 32768, 32768);
    M31::lemma_hom_mul(541363487, 541363487);
    M31::lemma_from_int_congruent(541363487int * 541363487int, 241538311);
    assert(five.spec_pow(65536) == M31::from_int(241538311));
    M31::lemma_pow_add(five, 65536, 65536);
    M31::lemma_hom_mul(241538311, 241538311);
    M31::lemma_from_int_congruent(241538311int * 241538311int, 870690664);
    assert(five.spec_pow(131072) == M31::from_int(870690664));
    M31::lemma_pow_add(five, 131072, 131072);
    M31::lemma_hom_mul(870690664, 870690664);
    M31::lemma_from_int_congruent(870690664int * 870690664int, 1296694829);
    assert(five.spec_pow(262144) == M31::from_int(1296694829));
    M31::lemma_pow_add(five, 262144, 262144);
    M31::lemma_hom_mul(1296694829, 1296694829);
    M31::lemma_from_int_congruent(1296694829int * 1296694829int, 850560125);
    assert(five.spec_pow(524288) == M31::from_int(850560125));
    M31::lemma_pow_add(five, 524288, 524288);
    M31::lemma_hom_mul(850560125, 850560125);
    M31::lemma_from_int_congruent(850560125int * 850560125int, 1786353027);
    assert(five.spec_pow(1048576) == M31::from_int(1786353027));
    M31::lemma_pow_add(five, 1048576, 1048576);
    M31::lemma_hom_mul(1786353027, 1786353027);
    M31::lemma_from_int_congruent(1786353027int * 1786353027int, 28939304);
    assert(five.spec_pow(2097152) == M31::from_int(28939304));
    M31::lemma_pow_add(five, 2097152, 2097152);
    M31::lemma_hom_mul(28939304, 28939304);
    M31::lemma_from_int_congruent(28939304int * 28939304int, 1200896415);
    assert(five.spec_pow(4194304) == M31::from_int(1200896415));
    M31::lemma_pow_add(five, 4194304, 4194304);
    M31::lemma_hom_mul(1200896415, 1200896415);
    M31::lemma_from_int_congruent(1200896415int * 1200896415int, 114773075);
    assert(five.spec_pow(8388608) == M31::from_int(114773075));
    M31::lemma_pow_add(five, 8388608, 8388608);
    M31::lemma_hom_mul(114773075, 114773075);
    M31::lemma_from_int_congruent(114773075int * 114773075int, 780729395);
    assert(five.spec_pow(16777216) == M31::from_int(780729395));
    M31::lemma_pow_add(five, 16777216, 16777216);
    M31::lemma_hom_mul(780729395, 780729395);
    M31::lemma_from_int_congruent(780729395int * 780729395int, 1401911815);
    assert(five.spec_pow(33554432) == M31::from_int(1401911815));
    M31::lemma_pow_add(five, 33554432, 33554432);
    M31::lemma_hom_mul(1401911815, 1401911815);
    M31::lemma_from_int_congruent(1401911815int * 1401911815int, 1317625669);
    assert(five.spec_pow(67108864) == M31::from_int(1317625669));
    M31::lemma_pow_add(five, 67108864, 67108864);
    M31::lemma_hom_mul(1317625669, 1317625669);
    M31::lemma_from_int_congruent(1317625669int * 1317625669int, 1467893795);
    assert(five.spec_pow(134217728) == M31::from_int(1467893795));
    M31::lemma_pow_add(five, 134217728, 134217728);
    M31::lemma_hom_mul(1467893795, 1467893795);
    M31::lemma_from_int_congruent(1467893795int * 1467893795int, 479583087);
    assert(five.spec_pow(268435456) == M31::from_int(479583087));
    M31::lemma_pow_add(five, 268435456, 268435456);
    M31::lemma_hom_mul(479583087, 479583087);
    M31::lemma_from_int_congruent(479583087int * 479583087int, 2041534867);
    assert(five.spec_pow(536870912) == M31::from_int(2041534867));
    M31::lemma_pow_add(five, 536870912, 536870912);
    M31::lemma_hom_mul(2041534867, 2041534867);
    M31::lemma_from_int_congruent(2041534867int * 2041534867int, 2147483642);
    assert(five.spec_pow(1073741824) == M31::from_int(2147483642));
    M31::lemma_from_int_congruent(2147483642, -5);
}

/// Five is no square: the power of a root with the exponent `p - 1`, which
/// is one, would be five to the power `(p - 1) / 2`, which is minus one.
pub proof fn lemma_five_is_no_square(t: M31)
    requires
        t.wf(),
    ensures
        t.spec_square() != M31::from_int(5),
{
    if t.spec_square() == M31::from_int(5) {
        let five = M31::from_int(5);
        M31::lemma_from_int_view(5);
        M31::lemma_from_int_view(-5);
        M31::lemma_from_int_view(0);
        M31::lemma_from_int_range(5);
        if t@ == 0 {
            M31::lemma_wf_from_int(t);
            M31::lemma_mul_zero(t);
        }
        lemma_fermat(t);
        M31::lemma_pow_of_square(t, 0x3fff_ffff);
        M31::lemma_pow_add(five, 0x3fff_ffff, 1);
        M31::lemma_pow_one(five);
        M31::lemma_mul_one(five);
        M31::lemma_mul_commutative(M31::spec_one(), five);
        lemma_five_to_two_to_thirty();
    }
}

/// The norm of an element is the class of the norm of its coordinates.
pub proof fn lemma_norm_model(g: (int, int))
    ensures
        CM31::of(g).spec_norm() == M31::from_int(gi_norm(g)),
{
    M31::lemma_hom_mul(g.0, g.0);
    M31::lemma_hom_mul(g.1, g.1);
    M31::lemma_hom_add(g.0 * g.0, g.1 * g.1);
}

/// The norm of a product is the product of the norms.
pub proof fn lemma_norm_of_product(c: CM31, e: CM31)
    requires
        c.wf(),
        e.wf(),
    ensures
        c.spec_mul(e).spec_norm() == c.spec_norm().spec_mul(e.spec_norm()),
{
    CM31::lemma_wf_of(c);
    CM31::lemma_wf_of(e);
    CM31::lemma_of_mul(c@, e@);
    lemma_norm_model(gi_mul(c@, e@));
    lemma_norm_model(c@);
    lemma_norm_model(e@);
    lemma_gi_norm_mul(c@, e@);
    M31::lemma_hom_mul(gi_norm(c@), gi_norm(e@));
}

/// An element of the quadratic extension whose square is zero is zero.
pub proof fn lemma_complex_square_zero(a: CM31)
    requires
        a.wf(),
        a.spec_mul(a) == CM31::spec_zero(),
    ensures
        a == CM31::spec_zero(),
{
    if a != CM31::spec_zero() {
        lemma_complex_inverse(a);
        lemma_norm_of_product(a, a);
        let n = a.spec_norm();
        M31::lemma_from_int_range(a.0.spec_square()@ + a.1.spec_square()@);
        lemma_no_zero_divisors(n, n);
        M31::lemma_from_int_view(0);
        M31::lemma_hom_mul(0, 0);
        M31::lemma_hom_add(0, 0);
        assert(0int * 0int == 0);
    }
}

/// The relative norm `a^2 - (2 + i) b^2` on the coordinates.
pub open spec fn spec_denominator_model(a: (int, int), b: (int, int)) -> (int, int) {
    gi_sub(gi_mul(a, a), gi_mul(gi_r(), gi_mul(b, b)))
}

/// The relative norm is the class of the relative norm of the coordinates.
pub proof fn lemma_denominator_model(x: QM31)
    requires
        x.wf(),
    ensures
        x.spec_denominator() == CM31::of(spec_denominator_model(x.0@, x.1@)),
{
    let a = x.0@;
    let b = x.1@;
    CM31::lemma_wf_of(x.0);
    CM31::lemma_wf_of(x.1);
    CM31::lemma_of_mul(a, a);
    CM31::lemma_of_mul(b, b);
    let bb = gi_mul(b, b);
    // (2 + i)(s + t i) = (2s - t) + (2t + s) i
    assert(gi_mul(gi_r(), bb) == (2 * bb.0 - bb.1, 2 * bb.1 + bb.0)) by {
        reveal(gi_mul);
    }
    M31::lemma_hom_add(bb.0, bb.0);
    M31::lemma_hom_add(bb.1, bb.1);
    M31::lemma_hom_neg(bb.1);
    M31::lemma_hom_add(bb.0 + bb.0, -bb.1);
    M31::lemma_hom_add(bb.1 + bb.1, bb.0);
    CM31::lemma_of_sub(gi_mul(a, a), gi_mul(gi_r(), bb));
}

/// Two classes whose difference is zero are the same.
pub proof fn lemma_difference_zero(g: (int, int), h: (int, int))
    requires
        CM31::of(gi_sub(g, h)) == CM31::spec_zero(),
    ensures
        CM31::of(g) == CM31::of(h),
{
    M31::lemma_hom_add(g.0 - h.0, h.0);
    M31::lemma_hom_add(g.1 - h.1, h.1);
    M31::lemma_hom_add(0, h.0);
    M31::lemma_hom_add(0, h.1);
}

/// The relative norm of an element other than zero is not zero: `2 + i` is
/// no square, since its norm, five, is none.
pub proof fn lemma_denominator_not_zero(x: QM31)
    requires
        x.wf(),
        x != QM31::spec_zero(),
    ensures
        x.spec_denominator() != CM31::spec_zero(),
{
    if x.spec_denominator() == CM31::spec_zero() {
        let a = x.0;
        let b = x.1;
        lemma_denominator_model(x);
        CM31::lemma_wf_of(a);
        CM31::lemma_wf_of(b);
        lemma_difference_zero(gi_mul(a@, a@), gi_mul(gi_r(), gi_mul(b@, b@)));
        CM31::lemma_of_mul(a@, a@);
        CM31::lemma_of_mul(b@, b@);
        CM31::lemma_of_mul(gi_r(), gi_mul(b@, b@));
        let r = QM31::spec_r();
        let bb = b.spec_mul(b);
        // a a == r (b b)
        assert(a.spec_mul(a) == r.spec_mul(bb));
        CM31::lemma_results_wf(b, b);
        CM31::lemma_of_wf(gi_r());
        if b == CM31::spec_zero() {
            M31::lemma_hom_mul(0, 0);
            M31::lemma_hom_sub(0, 0);
            M31::lemma_hom_add(0, 0);
            assert(0int * 0int == 0);
            CM31::lemma_of_mul(gi_r(), (0, 0));
            lemma_gi_mul_zero(gi_r());
            assert(bb == CM31::spec_zero());
            lemma_complex_square_zero(a);
        } else {
            // The norms: N(a)^2 = 5 N(b)^2.
            lemma_norm_of_product(a, a);
            lemma_norm_of_product(b, b);
            lemma_norm_of_product(r, bb);
            lemma_norm_model(gi_r());
            assert(gi_norm(gi_r()) == 5);
            lemma_complex_inverse(b);
            let na = a.spec_norm();
            let nb = b.spec_norm();
            M31::lemma_from_int_range(a.0.spec_square()@ + a.1.spec_square()@);
            M31::lemma_from_int_range(b.0.spec_square()@ + b.1.spec_square()@);
            lemma_inverse(nb);
            let w = nb.spec_inverse();
            let u = na@;
            let v = nb@;
            let z = w@;
            M31::lemma_wf_from_int(na);
            M31::lemma_wf_from_int(nb);
            M31::lemma_wf_from_int(w);
            // The class of u^2 - 5 v^2 is zero, and that of v z is one.
            M31::lemma_hom_mul(u, u);
            M31::lemma_hom_mul(v, v);
            M31::lemma_hom_mul(5, v * v);
            M31::lemma_hom_sub(u * u, 5 * (v * v));
            M31::lemma_hom_sub(0, 0);
            M31::lemma_hom_sub(u * u, u * u);
            assert(M31::from_int(u * u - 5 * (v * v)) == M31::spec_zero());
            // So the class of (u z)^2 - 5 is zero.
            assert((u * z) * (u * z) - 5 == (z * z) * (u * u - 5 * (v * v)) + (5 * (v * z + 1)) * (v
                * z - 1)) by (nonlinear_arith);
            M31::lemma_hom_mul(z * z, u * u - 5 * (v * v));
            M31::lemma_mul_zero(M31::from_int(z * z));
            M31::lemma_hom_mul(v, z);
            M31::lemma_hom_sub(v * z, 1);
            M31::lemma_hom_sub(1, 1);
            M31::lemma_hom_mul(5 * (v * z + 1), v * z - 1);
            M31::lemma_mul_zero(M31::from_int(5 * (v * z + 1)));
            M31::lemma_hom_add(
                (z * z) * (u * u - 5 * (v * v)),
                (5 * (v * z + 1)) * (v * z - 1),
            );
            M31::lemma_hom_add(0, 0);
            let t = M31::from_int(u * z);
            M31::lemma_from_int_range(u * z);
            M31::lemma_hom_mul(u * z, u * z);
            M31::lemma_hom_add((u * z) * (u * z) - 5, 5);
            M31::lemma_hom_add(0, 5);
            assert(t.spec_square() == M31::from_int(5));
            lemma_five_is_no_square(t);
        }
    }
}

/// An element of the quartic extension other than zero times its inverse,
/// the conjugate over the relative norm, is one.
pub proof fn lemma_quartic_inverse(x: QM31)
    requires
        x.wf(),
        x != QM31::spec_zero(),
    ensures
        x.spec_denominator() != CM31::spec_zero(),
        x.spec_denominator().spec_norm()@ != 0,
        x.spec_mul(x.spec_inverse()) == QM31::spec_one(),
        x.spec_inverse().wf(),
{
    let a = x.0@;
    let b = x.1@;
    let r = gi_r();
    let d = x.spec_denominator();
    lemma_denominator_not_zero(x);
    lemma_denominator_model(x);
    let dm = spec_denominator_model(a, b);
    CM31::lemma_of_wf(dm);
    lemma_complex_inverse(d);
    let e = d.spec_inverse();
    let em = e@;
    CM31::lemma_wf_of(e);
    CM31::lemma_wf_of(x.0);
    CM31::lemma_wf_of(x.1);
    // The inverse on the coordinates.
    CM31::lemma_of_mul(a, em);
    CM31::lemma_of_neg(b);
    CM31::lemma_of_mul(gi_neg(b), em);
    let y = (gi_mul(a, em), gi_mul(gi_neg(b), em));
    assert(x.spec_inverse() == QM31::of(y));
    QM31::lemma_of_wf(y);
    QM31::lemma_wf_of(x);
    QM31::lemma_of_mul(x@, y);
    // The first coordinate of the product is d e.
    lemma_gi_mul_associative(a, a, em);
    lemma_gi_mul_associative(gi_mul(r, b), gi_neg(b), em);
    lemma_gi_mul_neg(gi_mul(r, b), b);
    lemma_gi_mul_associative(r, b, b);
    lemma_gi_distributive(em, gi_mul(a, a), gi_neg(gi_mul(r, gi_mul(b, b))));
    assert(gi_add(gi_mul(a, a), gi_neg(gi_mul(r, gi_mul(b, b)))) == dm);
    CM31::lemma_of_mul(dm, em);
    // The second coordinate is zero.
    lemma_gi_mul_associative(a, gi_neg(b), em);
    lemma_gi_mul_associative(b, a, em);
    lemma_gi_mul_neg(a, b);
    lemma_gi_mul_commutative(a, b);
    lemma_gi_distributive(em, gi_neg(gi_mul(a, b)), gi_mul(b, a));
    lemma_gi_mul_zero(em);
    assert(gi_add(gi_neg(gi_mul(a, b)), gi_mul(b, a)) == (0int, 0int));
}

} // verus!
