//! The inverses of many elements by one inversion.

use vstd::prelude::*;
use crate::fields::cm31::CM31;
use crate::fields::fermat::lemma_complex_inverse;
use crate::fields::gauss::lemma_gi_mul_zero;
use crate::fields::m31::M31;

verus! {

/// An element that was to be inverted is zero.
#[derive(Debug, Clone, Copy, PartialEq, Eq, Structural)]
pub struct DivisionByZero;

/// The product of the first `n` elements.
pub open spec fn spec_prefix_product(column: Seq<CM31>, n: nat) -> CM31
    decreases n,
{
    if n == 0 {
        CM31::spec_one()
    } else {
        spec_prefix_product(column, (n - 1) as nat).spec_mul(column[n - 1])
    }
}

/// The product of the inverses of the first `n` elements.
pub open spec fn spec_prefix_inverse(column: Seq<CM31>, n: nat) -> CM31
    decreases n,
{
    if n == 0 {
        CM31::spec_one()
    } else {
        spec_prefix_inverse(column, (n - 1) as nat).spec_mul(column[n - 1].spec_inverse())
    }
}

/// Whether none of the first `n` elements is zero, and all are reduced.
pub open spec fn spec_invertible(column: Seq<CM31>, n: nat) -> bool {
    forall|i: int| 0 <= i < n ==> (#[trigger] column[i]).wf() && column[i] != CM31::spec_zero()
}

/// The products are reduced.
pub proof fn lemma_prefix_wf(column: Seq<CM31>, n: nat)
    ensures
        spec_prefix_product(column, n).wf(),
        spec_prefix_inverse(column, n).wf(),
    decreases n,
{
    if n == 0 {
        CM31::lemma_of_wf((1, 0));
        assert(CM31::of((1, 0)) == CM31::spec_one());
    } else {
        CM31::lemma_results_wf(spec_prefix_product(column, (n - 1) as nat), column[n - 1]);
        CM31::lemma_results_wf(
            spec_prefix_inverse(column, (n - 1) as nat),
            column[n - 1].spec_inverse(),
        );
    }
}

/// `(a * b) * (c * d) == (a * c) * (b * d)`.
pub proof fn lemma_swap_inner(a: CM31, b: CM31, c: CM31, d: CM31)
    requires
        a.wf(),
        b.wf(),
        c.wf(),
        d.wf(),
    ensures
        a.spec_mul(b).spec_mul(c.spec_mul(d)) == a.spec_mul(c).spec_mul(b.spec_mul(d)),
{
    CM31::lemma_results_wf(a, b);
    CM31::lemma_results_wf(c, d);
    CM31::lemma_results_wf(b, d);
    CM31::lemma_results_wf(b, c);
    CM31::lemma_results_wf(a, c);
    // (a b)(c d) = a (b (c d)) = a ((b c) d) = a ((c b) d) = a (c (b d)) = (a c)(b d)
    CM31::lemma_mul_associative(a, b, c.spec_mul(d));
    CM31::lemma_mul_associative(b, c, d);
    CM31::lemma_mul_commutative(b, c);
    CM31::lemma_mul_associative(c, b, d);
    CM31::lemma_mul_associative(a, c, b.spec_mul(d));
}

/// The product of elements other than zero times the product of their
/// inverses is one; so the product is not zero.
pub proof fn lemma_prefix_invertible(column: Seq<CM31>, n: nat)
    requires
        n <= column.len(),
        spec_invertible(column, n),
    ensures
        spec_prefix_product(column, n).spec_mul(spec_prefix_inverse(column, n)) == CM31::spec_one(),
        spec_prefix_product(column, n) != CM31::spec_zero(),
    decreases n,
{
    let one = CM31::spec_one();
    CM31::lemma_of_wf((1, 0));
    assert(CM31::of((1, 0)) == one);
    if n == 0 {
        CM31::lemma_mul_one(one);
    } else {
        let p = spec_prefix_product(column, (n - 1) as nat);
        let q = spec_prefix_inverse(column, (n - 1) as nat);
        let x = column[n - 1];
        lemma_prefix_invertible(column, (n - 1) as nat);
        lemma_prefix_wf(column, (n - 1) as nat);
        lemma_complex_inverse(x);
        lemma_swap_inner(p, x, q, x.spec_inverse());
        CM31::lemma_mul_one(one);
    }
    let product = spec_prefix_product(column, n);
    let inverse = spec_prefix_inverse(column, n);
    if product == CM31::spec_zero() {
        lemma_prefix_wf(column, n);
        CM31::lemma_wf_of(inverse);
        CM31::lemma_of_mul((0, 0), inverse@);
        lemma_gi_mul_zero(inverse@);
        assert(CM31::of((0, 0)) == CM31::spec_zero());
        assert(CM31::spec_zero().spec_mul(inverse) == CM31::spec_zero());
        assert(CM31::spec_one() != CM31::spec_zero()) by {
            M31::lemma_from_int_view(1);
            M31::lemma_from_int_view(0);
            assert(1int % crate::fields::m31::modulus() != 0int % crate::fields::m31::modulus());
        }
    }
}

/// An element has one inverse at most.
pub proof fn lemma_one_inverse(a: CM31, b: CM31, c: CM31)
    requires
        a.wf(),
        b.wf(),
        c.wf(),
        a.spec_mul(b) == CM31::spec_one(),
        a.spec_mul(c) == CM31::spec_one(),
    ensures
        b == c,
{
    // b = b (a c) = (b a) c = (a b) c = c
    CM31::lemma_mul_one(b);
    CM31::lemma_mul_one(c);
    CM31::lemma_mul_associative(b, a, c);
    CM31::lemma_mul_commutative(b, a);
}

/// The inverses of the elements, by one inversion: the products of the
/// elements up to each place are formed, the last of them is inverted, and
/// a sweep back over the products gives the inverse of every element. The
/// answer is an error exactly where an element is zero.
pub fn batch_inverse(column: &Vec<CM31>) -> (r: Result<Vec<CM31>, DivisionByZero>)
    ensures
        r.is_ok() <==> forall|i: int|
            0 <= i < column.len() ==> (#[trigger] column[i]) != CM31::spec_zero(),
        match r {
            Ok(inverses) => {
                &&& inverses.len() == column.len()
                &&& forall|i: int|
                    0 <= i < inverses.len() ==> {
                        &&& inverses[i] == (#[trigger] column[i]).spec_inverse()
                        &&& column[i].spec_mul(inverses[i]) == CM31::spec_one()
                    }
            },
            Err(_) => true,
        },
{
    let n = column.len();
    let mut prefix: Vec<CM31> = Vec::with_capacity(n);
    let mut product = CM31::one();
    let mut i: usize = 0;
    while i < n
        invariant
            i <= n,
            n == column.len(),
            prefix.len() == i,
            spec_invertible(column@, i as nat),
            product == spec_prefix_product(column@, i as nat),
            forall|k: int|
                0 <= k < i ==> (#[trigger] prefix[k]) == spec_prefix_product(column@, k as nat),
        decreases n - i,
    {
        if column[i].is_zero() {
            return Err(DivisionByZero);
        }
        column[i].reduced();
        prefix.push(product);
        product = product.mul(column[i]);
        i = i + 1;
    }
    proof {
        lemma_prefix_invertible(column@, n as nat);
        lemma_prefix_wf(column@, n as nat);
    }
    let mut running = product.inverse();
    let mut out: Vec<CM31> = Vec::with_capacity(n);
    let mut k: usize = 0;
    while k < n
        invariant
            k <= n,
            out.len() == k,
        decreases n - k,
    {
        out.push(CM31::zero());
        k = k + 1;
    }
    proof {
        lemma_complex_inverse(product);
    }
    let mut at: usize = n;
    while at > 0
        invariant
            at <= n,
            n == column.len(),
            out.len() == n,
            prefix.len() == n,
            spec_invertible(column@, n as nat),
            running.wf(),
            spec_prefix_product(column@, at as nat).spec_mul(running) == CM31::spec_one(),
            forall|k: int|
                0 <= k < n ==> (#[trigger] prefix[k]) == spec_prefix_product(column@, k as nat),
            forall|k: int|
                at <= k < n ==> {
                    &&& out[k] == (#[trigger] column[k]).spec_inverse()
                    &&& column[k].spec_mul(out[k]) == CM31::spec_one()
                },
        decreases at,
    {
        at = at - 1;
        let x = column[at];
        let before = prefix[at];
        let inverse = running.mul(before);
        proof {
            let after = spec_prefix_product(column@, (at + 1) as nat);
            lemma_prefix_wf(column@, at as nat);
            assert(after == before.spec_mul(x));
            assert(x.wf() && x != CM31::spec_zero());
            CM31::lemma_results_wf(running, before);
            CM31::lemma_results_wf(running, x);
            // x * (running * before) == (before * x) * running
            CM31::lemma_mul_commutative(x, running.spec_mul(before));
            CM31::lemma_mul_associative(running, before, x);
            CM31::lemma_mul_commutative(running, before.spec_mul(x));
            assert(x.spec_mul(inverse) == CM31::spec_one());
            lemma_complex_inverse(x);
            lemma_one_inverse(x, inverse, x.spec_inverse());
            // before * (running * x) == (before * x) * running
            CM31::lemma_mul_commutative(running, x);
            CM31::lemma_mul_associative(before, x, running);
        }
        out.set(at, inverse);
        running = running.mul(x);
    }
    Ok(out)
}

} // verus!
