//! Indices of points: a point of the group named by its logarithm to the
//! base of the generator.

use vstd::prelude::*;
use vstd::arithmetic::div_mod::{
    lemma_add_mod_noop, lemma_fundamental_div_mod, lemma_mod_multiples_vanish,
    lemma_mul_mod_noop_right, lemma_small_mod,
};
use vstd::arithmetic::power2::{lemma2_to64, lemma_pow2_unfold, pow2};
use crate::circle::point::CirclePoint;
use crate::fields::cm31::CM31;
use crate::utils::pow2_usize;

verus! {

/// The order `2^31` of the circle group.
pub open spec fn circle_order() -> nat {
    0x8000_0000
}

/// The logarithm of a point, below the order of the group.
#[derive(Copy, Clone, Debug, PartialEq, Eq, Structural, Hash)]
pub struct CirclePointIndex {
    idx: usize,
}

impl View for CirclePointIndex {
    type V = nat;

    closed spec fn view(&self) -> nat {
        self.idx as nat
    }
}

impl CirclePointIndex {
    /// Every executable index is below the order of the group.
    #[verifier::type_invariant]
    pub open spec fn wf(self) -> bool {
        self@ < circle_order()
    }

    /// The index that is `n` modulo the order of the group.
    pub closed spec fn of_nat(n: nat) -> CirclePointIndex {
        CirclePointIndex { idx: (n % circle_order()) as usize }
    }

    /// The point that the index names.
    pub open spec fn spec_to_point(self) -> CirclePoint {
        CirclePoint::spec_generator().spec_mul(self@)
    }

    pub open spec fn spec_add(self, rhs: CirclePointIndex) -> CirclePointIndex {
        CirclePointIndex::of_nat(self@ + rhs@)
    }

    pub open spec fn spec_sub(self, rhs: CirclePointIndex) -> CirclePointIndex {
        CirclePointIndex::of_nat((self@ + circle_order() - rhs@ % circle_order()) as nat)
    }

    pub open spec fn spec_neg(self) -> CirclePointIndex {
        CirclePointIndex::of_nat((circle_order() - self@ % circle_order()) as nat)
    }

    pub open spec fn spec_mul(self, rhs: nat) -> CirclePointIndex {
        CirclePointIndex::of_nat(self@ * rhs)
    }

    /// The index times a signed number: for a negative one, the negation of
    /// the index times the absolute value.
    pub open spec fn spec_mul_signed(self, offset: int) -> CirclePointIndex {
        if offset > 0 {
            self.spec_mul(offset as nat)
        } else {
            self.spec_neg().spec_mul((-offset) as nat)
        }
    }

    /// The index of a generator of the subgroup of order `2^log_size`.
    pub open spec fn spec_subgroup_gen(log_size: nat) -> CirclePointIndex {
        CirclePointIndex::of_nat(pow2((31 - log_size) as nat))
    }

    pub proof fn lemma_of_nat_view(n: nat)
        ensures
            CirclePointIndex::of_nat(n)@ == n % circle_order(),
            CirclePointIndex::of_nat(n).wf(),
    {
    }

    /// Two indices with the same value are the same index.
    pub proof fn lemma_view_injective(a: CirclePointIndex, b: CirclePointIndex)
        requires
            a@ == b@,
        ensures
            a == b,
    {
    }

    /// Makes the range of an executable value known to the caller.
    pub fn reduced(&self)
        ensures
            self.wf(),
            *self == CirclePointIndex::of_nat(self@),
    {
        proof {
            use_type_invariant(self);
            lemma_small_mod(self@, circle_order());
        }
    }

    pub fn zero() -> (r: CirclePointIndex)
        ensures
            r@ == 0,
            r == CirclePointIndex::of_nat(0),
    {
        CirclePointIndex { idx: 0 }
    }

    pub fn generator() -> (r: CirclePointIndex)
        ensures
            r@ == 1,
            r == CirclePointIndex::of_nat(1),
    {
        CirclePointIndex { idx: 1 }
    }

    /// The index that is `i` modulo the order of the group.
    pub fn new(i: usize) -> (r: CirclePointIndex)
        ensures
            r == CirclePointIndex::of_nat(i as nat),
    {
        let v: usize = ((i as u64) % 0x8000_0000u64) as usize;
        CirclePointIndex { idx: v }
    }

    /// The value of the index.
    pub fn value(&self) -> (r: usize)
        ensures
            r == self@,
            r < circle_order(),
    {
        proof {
            use_type_invariant(self);
        }
        self.idx
    }

    pub fn subgroup_gen(log_size: u32) -> (r: CirclePointIndex)
        requires
            log_size <= 31,
        ensures
            r == CirclePointIndex::spec_subgroup_gen(log_size as nat),
    {
        proof {
            lemma2_to64();
        }
        if log_size == 0 {
            CirclePointIndex { idx: 0 }
        } else {
            let v = pow2_usize(31 - log_size);
            proof {
                crate::utils::lemma_pow2_monotone((31 - log_size) as nat, 30);
                lemma_small_mod(v as nat, circle_order());
            }
            CirclePointIndex { idx: v }
        }
    }

    pub fn to_point(self) -> (r: CirclePoint)
        ensures
            r == self.spec_to_point(),
    {
        CirclePoint::generator().mul(self.idx as u128)
    }

    /// Half of an even index.
    pub fn half(self) -> (r: CirclePointIndex)
        requires
            self@ % 2 == 0,
        ensures
            r@ == self@ / 2,
    {
        proof {
            use_type_invariant(&self);
        }
        CirclePointIndex { idx: self.idx / 2 }
    }

    pub fn add(self, rhs: CirclePointIndex) -> (r: CirclePointIndex)
        ensures
            r == self.spec_add(rhs),
    {
        proof {
            use_type_invariant(&self);
            use_type_invariant(&rhs);
        }
        let v: u64 = ((self.idx as u64) + (rhs.idx as u64)) % 0x8000_0000u64;
        CirclePointIndex { idx: v as usize }
    }

    pub fn sub(self, rhs: CirclePointIndex) -> (r: CirclePointIndex)
        ensures
            r == self.spec_sub(rhs),
    {
        proof {
            use_type_invariant(&self);
            use_type_invariant(&rhs);
            lemma_small_mod(rhs@, circle_order());
        }
        let v: u64 = ((self.idx as u64) + 0x8000_0000u64 - (rhs.idx as u64)) % 0x8000_0000u64;
        CirclePointIndex { idx: v as usize }
    }

    pub fn neg(self) -> (r: CirclePointIndex)
        ensures
            r == self.spec_neg(),
    {
        proof {
            use_type_invariant(&self);
            lemma_small_mod(self@, circle_order());
        }
        let v: u64 = (0x8000_0000u64 - (self.idx as u64)) % 0x8000_0000u64;
        CirclePointIndex { idx: v as usize }
    }

    pub fn mul_signed(self, offset: isize) -> (r: CirclePointIndex)
        ensures
            r == self.spec_mul_signed(offset as int),
    {
        if offset > 0 {
            self.mul(offset as usize)
        } else if offset == 0 {
            self.neg().mul(0)
        } else {
            let below: isize = -(offset + 1);
            let magnitude: usize = (below as usize) + 1;
            self.neg().mul(magnitude)
        }
    }

    pub fn mul(self, rhs: usize) -> (r: CirclePointIndex)
        ensures
            r == self.spec_mul(rhs as nat),
    {
        proof {
            use_type_invariant(&self);
        }
        let m: u64 = (rhs as u64) % 0x8000_0000u64;
        proof {
            assert((self.idx as int) * (m as int) <= 0x7fff_ffff * 0x7fff_ffff) by (nonlinear_arith)
                requires
                    0 <= self.idx as int <= 0x7fff_ffff,
                    0 <= m as int <= 0x7fff_ffff,
            ;
            lemma_mul_mod_noop_right(self.idx as int, rhs as int, 0x8000_0000);
        }
        let v: u64 = ((self.idx as u64) * m) % 0x8000_0000u64;
        CirclePointIndex { idx: v as usize }
    }
}

/// Indices count modulo the order of the generator.
impl CirclePointIndex {
    /// The point of an index does not change when the order of the group is
    /// added to the index.
    pub proof fn lemma_point_periodic(n: nat, k: nat)
        ensures
            CirclePoint::spec_generator().spec_mul(n + k * circle_order())
                == CirclePoint::spec_generator().spec_mul(n),
        decreases k,
    {
        let g = CirclePoint::spec_generator().complex();
        CM31::lemma_of_wf(crate::circle::point::generator_doubling(0));
        if k > 0 {
            Self::lemma_point_periodic(n, (k - 1) as nat);
            assert(n + k * circle_order() == (n + (k - 1) * circle_order()) + circle_order())
                by (nonlinear_arith);
            lemma2_to64();
            CirclePoint::lemma_generator_order();
            CM31::lemma_pow_add(g, (n + (k - 1) * circle_order()) as nat, circle_order());
            CM31::lemma_pow_wf(g, (n + (k - 1) * circle_order()) as nat);
            CM31::lemma_mul_one(g.spec_pow((n + (k - 1) * circle_order()) as nat));
        }
    }

    /// The point of the index `n mod 2^31` is `n` times the generator.
    pub proof fn lemma_of_nat_point(n: nat)
        ensures
            CirclePointIndex::of_nat(n).spec_to_point() == CirclePoint::spec_generator().spec_mul(
                n,
            ),
    {
        let q = n / circle_order();
        let r = n % circle_order();
        lemma_fundamental_div_mod(n as int, circle_order() as int);
        assert(n == r + q * circle_order()) by (nonlinear_arith)
            requires
                n == circle_order() * q + r,
        ;
        Self::lemma_point_periodic(r, q);
    }

    /// Adding indices adds the points.
    pub proof fn lemma_add_point(a: CirclePointIndex, b: CirclePointIndex)
        ensures
            a.spec_add(b).spec_to_point() == a.spec_to_point().spec_add(b.spec_to_point()),
    {
        Self::lemma_of_nat_point(a@ + b@);
        CM31::lemma_of_wf(crate::circle::point::generator_doubling(0));
        CM31::lemma_pow_add(CirclePoint::spec_generator().complex(), a@, b@);
    }

    /// Doubling an index doubles the point.
    pub proof fn lemma_double_point(a: CirclePointIndex)
        ensures
            a.spec_mul(2).spec_to_point() == a.spec_to_point().spec_double(),
    {
        Self::lemma_of_nat_point(a@ * 2);
        CM31::lemma_of_wf(crate::circle::point::generator_doubling(0));
        CM31::lemma_pow_add(CirclePoint::spec_generator().complex(), a@, a@);
    }
}

} // verus!
