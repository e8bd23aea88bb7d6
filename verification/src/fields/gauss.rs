//! Integer models of the extension fields: pairs of integers multiplied as
//! Gaussian integers, and pairs of those multiplied modulo `u^2 = 2 + i`.
//! The field laws are proved here over the integers and carried to the
//! fields through the residue map.

use vstd::prelude::*;
use vstd::arithmetic::mul::*;

verus! {

pub open spec fn gi_add(x: (int, int), y: (int, int)) -> (int, int) {
    (x.0 + y.0, x.1 + y.1)
}

pub open spec fn gi_sub(x: (int, int), y: (int, int)) -> (int, int) {
    (x.0 - y.0, x.1 - y.1)
}

pub open spec fn gi_neg(x: (int, int)) -> (int, int) {
    (-x.0, -x.1)
}

/// `(a + bi)(c + di) = (ac - bd) + (ad + bc)i`.
#[verifier::opaque]
pub open spec fn gi_mul(x: (int, int), y: (int, int)) -> (int, int) {
    (x.0 * y.0 - x.1 * y.1, x.0 * y.1 + x.1 * y.0)
}

pub proof fn lemma_gi_mul_commutative(x: (int, int), y: (int, int))
    ensures
        gi_mul(x, y) == gi_mul(y, x),
{
    reveal(gi_mul);
    lemma_mul_is_commutative(x.0, y.0);
    lemma_mul_is_commutative(x.1, y.1);
    lemma_mul_is_commutative(x.0, y.1);
    lemma_mul_is_commutative(x.1, y.0);
}

pub proof fn lemma_gi_mul_associative(x: (int, int), y: (int, int), z: (int, int))
    ensures
        gi_mul(gi_mul(x, y), z) == gi_mul(x, gi_mul(y, z)),
{
    reveal(gi_mul);
    broadcast use group_mul_is_distributive;
    lemma_mul_is_associative(x.0, y.0, z.0);
    lemma_mul_is_associative(x.1, y.1, z.0);
    lemma_mul_is_associative(x.0, y.1, z.1);
    lemma_mul_is_associative(x.1, y.0, z.1);
    lemma_mul_is_associative(x.0, y.0, z.1);
    lemma_mul_is_associative(x.1, y.1, z.1);
    lemma_mul_is_associative(x.0, y.1, z.0);
    lemma_mul_is_associative(x.1, y.0, z.0);
}

pub proof fn lemma_gi_distributive(x: (int, int), y: (int, int), z: (int, int))
    ensures
        gi_mul(x, gi_add(y, z)) == gi_add(gi_mul(x, y), gi_mul(x, z)),
        gi_mul(gi_add(y, z), x) == gi_add(gi_mul(y, x), gi_mul(z, x)),
        gi_mul(x, gi_sub(y, z)) == gi_sub(gi_mul(x, y), gi_mul(x, z)),
        gi_mul(gi_sub(y, z), x) == gi_sub(gi_mul(y, x), gi_mul(z, x)),
{
    reveal(gi_mul);
    broadcast use group_mul_is_distributive;
}

pub proof fn lemma_gi_mul_neg(x: (int, int), y: (int, int))
    ensures
        gi_mul(gi_neg(x), y) == gi_neg(gi_mul(x, y)),
        gi_mul(x, gi_neg(y)) == gi_neg(gi_mul(x, y)),
{
    reveal(gi_mul);
    lemma_mul_unary_negation(x.0, y.0);
    lemma_mul_unary_negation(x.1, y.1);
    lemma_mul_unary_negation(x.0, y.1);
    lemma_mul_unary_negation(x.1, y.0);
}

pub open spec fn gi_conj(x: (int, int)) -> (int, int) {
    (x.0, -x.1)
}

/// The norm `a^2 + b^2`.
pub open spec fn gi_norm(x: (int, int)) -> int {
    x.0 * x.0 + x.1 * x.1
}

pub proof fn lemma_gi_norm(x: (int, int))
    ensures
        gi_mul(x, gi_conj(x)) == (gi_norm(x), 0int),
{
    reveal(gi_mul);
    lemma_mul_unary_negation(x.1, x.1);
    lemma_mul_unary_negation(x.0, x.1);
    lemma_mul_is_commutative(x.0, x.1);
}

pub proof fn lemma_gi_conj_mul(x: (int, int), y: (int, int))
    ensures
        gi_conj(gi_mul(x, y)) == gi_mul(gi_conj(x), gi_conj(y)),
{
    reveal(gi_mul);
    lemma_mul_unary_negation(x.1, y.1);
    lemma_mul_unary_negation(-x.1, y.1);
    lemma_mul_unary_negation(x.0, y.1);
    lemma_mul_unary_negation(x.1, y.0);
}

/// The norm of a product is the product of the norms.
pub proof fn lemma_gi_norm_mul(x: (int, int), y: (int, int))
    ensures
        gi_norm(gi_mul(x, y)) == gi_norm(x) * gi_norm(y),
{
    let xc = gi_conj(x);
    let yc = gi_conj(y);
    lemma_gi_norm(gi_mul(x, y));
    lemma_gi_conj_mul(x, y);
    lemma_gi_norm(x);
    lemma_gi_norm(y);
    // (x y)(xc yc) = (x xc)(y yc)
    lemma_gi_mul_associative(x, y, gi_mul(xc, yc));
    lemma_gi_mul_associative(y, xc, yc);
    lemma_gi_mul_commutative(y, xc);
    lemma_gi_mul_associative(xc, y, yc);
    lemma_gi_mul_associative(x, xc, gi_mul(y, yc));
    assert(gi_mul((gi_norm(x), 0int), (gi_norm(y), 0int)) == (gi_norm(x) * gi_norm(y), 0int)) by {
        reveal(gi_mul);
        lemma_mul_basics(gi_norm(x));
        lemma_mul_basics(gi_norm(y));
    }
}

pub proof fn lemma_gi_mul_one(x: (int, int))
    ensures
        gi_mul(x, (1, 0)) == x,
        gi_mul((1, 0), x) == x,
{
    reveal(gi_mul);
    lemma_mul_basics(x.0);
    lemma_mul_basics(x.1);
}


/// The non-residue `2 + i` whose square root generates the quartic extension.
pub open spec fn gi_r() -> (int, int) {
    (2, 1)
}

pub open spec fn qi_add(x: ((int, int), (int, int)), y: ((int, int), (int, int))) -> (
    (int, int),
    (int, int),
) {
    (gi_add(x.0, y.0), gi_add(x.1, y.1))
}

pub open spec fn qi_sub(x: ((int, int), (int, int)), y: ((int, int), (int, int))) -> (
    (int, int),
    (int, int),
) {
    (gi_sub(x.0, y.0), gi_sub(x.1, y.1))
}

pub open spec fn qi_neg(x: ((int, int), (int, int))) -> ((int, int), (int, int)) {
    (gi_neg(x.0), gi_neg(x.1))
}

/// `(a + bu)(c + du) = (ac + (2 + i)bd) + (ad + bc)u`.
pub open spec fn qi_mul(x: ((int, int), (int, int)), y: ((int, int), (int, int))) -> (
    (int, int),
    (int, int),
) {
    (
        gi_add(gi_mul(x.0, y.0), gi_mul(gi_mul(gi_r(), x.1), y.1)),
        gi_add(gi_mul(x.0, y.1), gi_mul(x.1, y.0)),
    )
}

pub open spec fn qi_one() -> ((int, int), (int, int)) {
    ((1, 0), (0, 0))
}

pub proof fn lemma_gi_mul_zero(x: (int, int))
    ensures
        gi_mul(x, (0, 0)) == (0int, 0int),
        gi_mul((0, 0), x) == (0int, 0int),
{
    reveal(gi_mul);
    lemma_mul_basics(x.0);
    lemma_mul_basics(x.1);
}

pub proof fn lemma_qi_mul_commutative(x: ((int, int), (int, int)), y: ((int, int), (int, int)))
    ensures
        qi_mul(x, y) == qi_mul(y, x),
{
    let r = gi_r();
    lemma_gi_mul_commutative(x.0, y.0);
    lemma_gi_mul_commutative(x.0, y.1);
    lemma_gi_mul_commutative(x.1, y.0);
    lemma_gi_mul_commutative(x.1, y.1);
    lemma_gi_mul_associative(r, x.1, y.1);
    lemma_gi_mul_associative(r, y.1, x.1);
}

pub proof fn lemma_qi_mul_associative(
    x: ((int, int), (int, int)),
    y: ((int, int), (int, int)),
    z: ((int, int), (int, int)),
)
    ensures
        qi_mul(qi_mul(x, y), z) == qi_mul(x, qi_mul(y, z)),
{
    let r = gi_r();
    let (a, b) = x;
    let (c, d) = y;
    let (e, f) = z;
    let rb = gi_mul(r, b);
    let rd = gi_mul(r, d);
    // first coordinate
    lemma_gi_distributive(e, gi_mul(a, c), gi_mul(rb, d));
    lemma_gi_distributive(r, gi_mul(a, d), gi_mul(b, c));
    lemma_gi_distributive(f, gi_mul(r, gi_mul(a, d)), gi_mul(r, gi_mul(b, c)));
    lemma_gi_distributive(a, gi_mul(c, e), gi_mul(rd, f));
    lemma_gi_distributive(rb, gi_mul(c, f), gi_mul(d, e));
    lemma_gi_mul_associative(a, c, e);
    lemma_gi_mul_associative(rb, d, e);
    lemma_gi_mul_associative(r, b, c);
    lemma_gi_mul_associative(rb, c, f);
    lemma_gi_mul_associative(r, a, d);
    lemma_gi_mul_associative(a, r, d);
    lemma_gi_mul_commutative(a, r);
    lemma_gi_mul_associative(a, rd, f);
    // second coordinate
    lemma_gi_distributive(f, gi_mul(a, c), gi_mul(rb, d));
    lemma_gi_distributive(e, gi_mul(a, d), gi_mul(b, c));
    lemma_gi_distributive(a, gi_mul(c, f), gi_mul(d, e));
    lemma_gi_distributive(b, gi_mul(c, e), gi_mul(rd, f));
    lemma_gi_mul_associative(a, c, f);
    lemma_gi_mul_associative(a, d, e);
    lemma_gi_mul_associative(b, c, e);
    lemma_gi_mul_associative(b, rd, f);
    lemma_gi_mul_associative(b, r, d);
    lemma_gi_mul_commutative(b, r);
}

pub proof fn lemma_qi_distributive(
    x: ((int, int), (int, int)),
    y: ((int, int), (int, int)),
    z: ((int, int), (int, int)),
)
    ensures
        qi_mul(x, qi_add(y, z)) == qi_add(qi_mul(x, y), qi_mul(x, z)),
        qi_mul(x, qi_sub(y, z)) == qi_sub(qi_mul(x, y), qi_mul(x, z)),
{
    let r = gi_r();
    lemma_gi_distributive(x.0, y.0, z.0);
    lemma_gi_distributive(gi_mul(r, x.1), y.1, z.1);
    lemma_gi_distributive(x.0, y.1, z.1);
    lemma_gi_distributive(x.1, y.0, z.0);
}

pub proof fn lemma_qi_mul_one(x: ((int, int), (int, int)))
    ensures
        qi_mul(x, qi_one()) == x,
{
    lemma_gi_mul_one(x.0);
    lemma_gi_mul_one(x.1);
    lemma_gi_mul_zero(x.0);
    lemma_gi_mul_zero(gi_mul(gi_r(), x.1));
}

} // verus!
