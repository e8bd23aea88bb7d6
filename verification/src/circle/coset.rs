//! Cosets of the subgroups of the circle group.

use vstd::prelude::*;
use vstd::arithmetic::div_mod::lemma_small_mod;
use vstd::arithmetic::power2::{lemma2_to64, lemma_pow2_unfold, pow2};
use crate::circle::index::{circle_order, CirclePointIndex};
use crate::circle::point::CirclePoint;
use crate::utils::{lemma_pow2_monotone, pow2_usize};

verus! {

/// The points `initial + i * step`, for `i` below `2^log_size`, where `step`
/// generates the subgroup of that order.
#[derive(Copy, Clone, Debug, PartialEq, Eq, Structural, Hash)]
pub struct Coset {
    initial_index: CirclePointIndex,
    initial: CirclePoint,
    step_size: CirclePointIndex,
    step: CirclePoint,
    log_size: u32,
}

impl Coset {
    pub closed spec fn spec_initial_index(self) -> CirclePointIndex {
        self.initial_index
    }

    pub closed spec fn spec_initial(self) -> CirclePoint {
        self.initial
    }

    pub closed spec fn spec_step_size(self) -> CirclePointIndex {
        self.step_size
    }

    pub closed spec fn spec_step(self) -> CirclePoint {
        self.step
    }

    pub closed spec fn spec_log_size(self) -> nat {
        self.log_size as nat
    }

    /// The points are those of the indices, and the step generates the
    /// subgroup of order `2^log_size`.
    #[verifier::type_invariant]
    pub open spec fn wf(self) -> bool {
        &&& self.spec_log_size() <= 31
        &&& self.spec_initial_index().wf()
        &&& self.spec_step_size() == CirclePointIndex::spec_subgroup_gen(self.spec_log_size())
        &&& self.spec_initial() == self.spec_initial_index().spec_to_point()
        &&& self.spec_step() == self.spec_step_size().spec_to_point()
    }

    /// The coset `G_4n + <G_n>`, for `n = 2^log_size`.
    pub closed spec fn spec_half_odds(log_size: nat) -> Coset {
        Coset {
            initial_index: CirclePointIndex::spec_subgroup_gen(log_size + 2),
            initial: CirclePointIndex::spec_subgroup_gen(log_size + 2).spec_to_point(),
            step_size: CirclePointIndex::spec_subgroup_gen(log_size),
            step: CirclePointIndex::spec_subgroup_gen(log_size).spec_to_point(),
            log_size: log_size as u32,
        }
    }

    /// The coset of the doubles of the points.
    /// The coset `G_2n + <G_n>`, for `n = 2^log_size`.
    pub closed spec fn spec_odds(log_size: nat) -> Coset {
        Coset {
            initial_index: CirclePointIndex::spec_subgroup_gen(log_size + 1),
            initial: CirclePointIndex::spec_subgroup_gen(log_size + 1).spec_to_point(),
            step_size: CirclePointIndex::spec_subgroup_gen(log_size),
            step: CirclePointIndex::spec_subgroup_gen(log_size).spec_to_point(),
            log_size: log_size as u32,
        }
    }

    pub closed spec fn spec_double(self) -> Coset {
        Coset {
            initial_index: self.initial_index.spec_mul(2),
            initial: self.initial.spec_double(),
            step_size: self.step_size.spec_mul(2),
            step: self.step.spec_double(),
            log_size: (self.log_size - 1) as u32,
        }
    }

    /// The number of points.
    pub open spec fn spec_size(self) -> nat {
        pow2(self.spec_log_size())
    }

    /// The index of the `i`-th point.
    pub open spec fn spec_index_at(self, i: nat) -> CirclePointIndex {
        self.spec_initial_index().spec_add(self.spec_step_size().spec_mul(i))
    }

    /// The `i`-th point.
    pub open spec fn spec_at(self, i: nat) -> CirclePoint {
        self.spec_index_at(i).spec_to_point()
    }

    /// Doubling halves the number of points, and doubles the first index
    /// and the step.
    pub proof fn lemma_double_log_size(self)
        requires
            self.spec_log_size() >= 1,
            self.spec_log_size() <= 31,
        ensures
            self.spec_double().spec_log_size() == self.spec_log_size() - 1,
            self.spec_double().spec_initial_index() == self.spec_initial_index().spec_mul(2),
            self.spec_double().spec_step_size() == self.spec_step_size().spec_mul(2),
    {
    }

    /// The first index, the step and the size of the coset `G_4n + <G_n>`.
    pub proof fn lemma_half_odds(log_size: nat)
        requires
            log_size <= 29,
        ensures
            Coset::spec_half_odds(log_size).spec_initial_index()
                == CirclePointIndex::spec_subgroup_gen(log_size + 2),
            Coset::spec_half_odds(log_size).spec_step_size() == CirclePointIndex::spec_subgroup_gen(
                log_size,
            ),
            Coset::spec_half_odds(log_size).spec_log_size() == log_size,
    {
    }

    /// Makes the invariant of an executable value known to the caller.
    pub fn valid(&self)
        ensures
            self.wf(),
    {
        proof {
            use_type_invariant(self);
        }
    }

    pub fn new(initial_index: CirclePointIndex, log_size: u32) -> (r: Coset)
        requires
            log_size <= 31,
        ensures
            r.wf(),
            r.spec_initial_index() == initial_index,
            r.spec_log_size() == log_size,
    {
        let step_size = CirclePointIndex::subgroup_gen(log_size);
        initial_index.reduced();
        Coset {
            initial_index,
            initial: initial_index.to_point(),
            step_size,
            step: step_size.to_point(),
            log_size,
        }
    }

    /// The subgroup of order `2^log_size`.
    pub fn subgroup(log_size: u32) -> (r: Coset)
        requires
            log_size <= 31,
        ensures
            r.wf(),
            r.spec_initial_index() == CirclePointIndex::of_nat(0),
            r.spec_log_size() == log_size,
    {
        Coset::new(CirclePointIndex::zero(), log_size)
    }

    /// The coset `G_2n + <G_n>`, for `n = 2^log_size`.
    pub fn odds(log_size: u32) -> (r: Coset)
        requires
            log_size <= 30,
        ensures
            r == Coset::spec_odds(log_size as nat),
            r.wf(),
            r.spec_initial_index() == CirclePointIndex::spec_subgroup_gen((log_size + 1) as nat),
            r.spec_log_size() == log_size,
    {
        Coset::new(CirclePointIndex::subgroup_gen(log_size + 1), log_size)
    }

    /// The coset `G_4n + <G_n>`, for `n = 2^log_size`.
    pub fn half_odds(log_size: u32) -> (r: Coset)
        requires
            log_size <= 29,
        ensures
            r == Coset::spec_half_odds(log_size as nat),
            r.wf(),
            r.spec_initial_index() == CirclePointIndex::spec_subgroup_gen((log_size + 2) as nat),
            r.spec_log_size() == log_size,
    {
        Coset::new(CirclePointIndex::subgroup_gen(log_size + 2), log_size)
    }

    pub fn size(&self) -> (r: usize)
        ensures
            r == self.spec_size(),
    {
        proof {
            use_type_invariant(self);
        }
        pow2_usize(self.log_size)
    }

    pub fn log_size(&self) -> (r: u32)
        ensures
            r == self.spec_log_size(),
            r <= 31,
    {
        proof {
            use_type_invariant(self);
        }
        self.log_size
    }

    pub fn initial_index(&self) -> (r: CirclePointIndex)
        ensures
            r == self.spec_initial_index(),
    {
        self.initial_index
    }

    pub fn initial(&self) -> (r: CirclePoint)
        ensures
            r == self.spec_initial(),
    {
        self.initial
    }

    pub fn step_size(&self) -> (r: CirclePointIndex)
        ensures
            r == self.spec_step_size(),
    {
        self.step_size
    }

    pub fn step(&self) -> (r: CirclePoint)
        ensures
            r == self.spec_step(),
    {
        self.step
    }

    /// The coset of the doubles of the points: half as many.
    pub fn double(&self) -> (r: Coset)
        requires
            self.spec_log_size() > 0,
        ensures
            r == self.spec_double(),
            r.wf(),
            r.spec_initial_index() == self.spec_initial_index().spec_mul(2),
            r.spec_log_size() == self.spec_log_size() - 1,
    {
        proof {
            use_type_invariant(self);
            let l = self.log_size as nat;
            lemma2_to64();
            lemma_pow2_unfold((32 - l) as nat);
            lemma_pow2_monotone((31 - l) as nat, 30);
            CirclePointIndex::lemma_of_nat_view(pow2((31 - l) as nat));
            CirclePointIndex::lemma_of_nat_view(pow2((32 - l) as nat));
            CirclePointIndex::lemma_of_nat_view(self.step_size@ * 2);
            CirclePointIndex::lemma_of_nat_view(self.initial_index@ * 2);
            lemma_small_mod(pow2((31 - l) as nat), circle_order());
            CirclePointIndex::lemma_view_injective(
                self.step_size.spec_mul(2),
                CirclePointIndex::spec_subgroup_gen((l - 1) as nat),
            );
            CirclePointIndex::lemma_double_point(self.initial_index);
            CirclePointIndex::lemma_double_point(self.step_size);
        }
        Coset {
            initial_index: self.initial_index.mul(2),
            initial: self.initial.double(),
            step_size: self.step_size.mul(2),
            step: self.step.double(),
            log_size: self.log_size - 1,
        }
    }

    pub fn index_at(&self, index: usize) -> (r: CirclePointIndex)
        ensures
            r == self.spec_index_at(index as nat),
    {
        self.initial_index.add(self.step_size.mul(index))
    }

    pub fn at(&self, index: usize) -> (r: CirclePoint)
        ensures
            r == self.spec_at(index as nat),
    {
        self.index_at(index).to_point()
    }

    /// The coset moved by the point of `shift_size`.
    pub fn shift(&self, shift_size: CirclePointIndex) -> (r: Coset)
        ensures
            r.wf(),
            r.spec_initial_index() == self.spec_initial_index().spec_add(shift_size),
            r.spec_log_size() == self.spec_log_size(),
    {
        proof {
            use_type_invariant(self);
        }
        Coset::new(self.initial_index.add(shift_size), self.log_size)
    }

    /// The coset of the inverses of the points.
    pub fn conjugate(&self) -> (r: Coset)
        ensures
            r.wf(),
            r.spec_initial_index() == self.spec_initial_index().spec_neg(),
            r.spec_log_size() == self.spec_log_size(),
    {
        proof {
            use_type_invariant(self);
        }
        Coset::new(self.initial_index.neg(), self.log_size)
    }

    /// The points in their order.
    pub fn points(&self) -> (r: Vec<CirclePoint>)
        ensures
            r.len() == self.spec_size(),
            forall|i: int| 0 <= i < r.len() ==> r[i] == self.spec_at(i as nat),
    {
        let n = self.size();
        let mut out: Vec<CirclePoint> = Vec::with_capacity(n);
        let mut i: usize = 0;
        while i < n
            invariant
                i <= n,
                n == self.spec_size(),
                out.len() == i,
                forall|j: int| 0 <= j < i ==> out[j] == self.spec_at(j as nat),
            decreases n - i,
        {
            out.push(self.at(i));
            i = i + 1;
        }
        out
    }
}

} // verus!
