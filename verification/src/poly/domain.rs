//! Circle domains: a coset together with its conjugate.

use vstd::prelude::*;
use vstd::arithmetic::power2::{lemma2_to64, lemma_pow2_unfold, pow2};
use crate::circle::coset::Coset;
use crate::circle::index::CirclePointIndex;
use crate::circle::point::CirclePoint;
use crate::utils::{lemma_pow2_monotone, pow2_usize};

verus! {

/// Largest logarithm of the size of a circle domain.
pub const MAX_CIRCLE_DOMAIN_LOG_SIZE: u32 = 31;

/// The points of a coset followed by their conjugates.
#[derive(Copy, Clone, Debug, PartialEq, Eq, Structural, Hash)]
pub struct CircleDomain {
    half_coset: Coset,
}

impl CircleDomain {
    pub closed spec fn spec_half_coset(self) -> Coset {
        self.half_coset
    }

    /// The half coset is valid and has at most `2^30` points.
    #[verifier::type_invariant]
    pub open spec fn wf(self) -> bool {
        self.spec_half_coset().wf() && self.spec_half_coset().spec_log_size() <= 30
    }

    pub open spec fn spec_log_size(self) -> nat {
        self.spec_half_coset().spec_log_size() + 1
    }

    pub open spec fn spec_size(self) -> nat {
        pow2(self.spec_log_size())
    }

    /// The index of the `i`-th point: the half coset first, then its conjugate.
    pub open spec fn spec_index_at(self, i: nat) -> CirclePointIndex {
        let half = self.spec_half_coset();
        if i < half.spec_size() {
            half.spec_index_at(i)
        } else {
            half.spec_index_at((i - half.spec_size()) as nat).spec_neg()
        }
    }

    pub open spec fn spec_at(self, i: nat) -> CirclePoint {
        self.spec_index_at(i).spec_to_point()
    }

    /// Whether the half coset is `G_4n + <G_n>`: four times its first index
    /// is its step.
    pub open spec fn spec_is_canonic(self) -> bool {
        self.spec_half_coset().spec_initial_index().spec_mul(4)
            == self.spec_half_coset().spec_step_size()
    }

    /// Makes the invariant of an executable value known to the caller.
    pub fn valid(&self)
        ensures
            self.wf(),
    {
        proof {
            use_type_invariant(self);
        }
    }

    pub fn new(half_coset: Coset) -> (r: CircleDomain)
        requires
            half_coset.spec_log_size() <= 30,
        ensures
            r.wf(),
            r.spec_half_coset() == half_coset,
    {
        half_coset.valid();
        CircleDomain { half_coset }
    }

    pub fn half_coset(&self) -> (r: Coset)
        ensures
            r == self.spec_half_coset(),
    {
        self.half_coset
    }

    pub fn log_size(&self) -> (r: u32)
        ensures
            r == self.spec_log_size(),
            1 <= r <= 31,
    {
        proof {
            use_type_invariant(self);
        }
        self.half_coset.log_size() + 1
    }

    pub fn size(&self) -> (r: usize)
        ensures
            r == self.spec_size(),
    {
        pow2_usize(self.log_size())
    }

    pub fn index_at(&self, i: usize) -> (r: CirclePointIndex)
        ensures
            r == self.spec_index_at(i as nat),
    {
        let half = self.half_coset.size();
        if i < half {
            self.half_coset.index_at(i)
        } else {
            self.half_coset.index_at(i - half).neg()
        }
    }

    pub fn at(&self, i: usize) -> (r: CirclePoint)
        ensures
            r == self.spec_at(i as nat),
    {
        self.index_at(i).to_point()
    }

    pub fn is_canonic(&self) -> (r: bool)
        ensures
            r == self.spec_is_canonic(),
    {
        self.half_coset.initial_index().mul(4) == self.half_coset.step_size()
    }
}

/// The coset `G_2n + <G_n>` of a given size, on which traces live.
#[derive(Copy, Clone, Debug, PartialEq, Eq, Structural, Hash)]
pub struct CanonicCoset {
    coset: Coset,
}

impl CanonicCoset {
    pub closed spec fn spec_coset(self) -> Coset {
        self.coset
    }

    /// The coset is the odd coset of its size, and has at least two points.
    #[verifier::type_invariant]
    pub open spec fn wf(self) -> bool {
        &&& self.spec_coset().wf()
        &&& 1 <= self.spec_coset().spec_log_size() <= 30
        &&& self.spec_coset().spec_initial_index() == CirclePointIndex::spec_subgroup_gen(
            self.spec_coset().spec_log_size() + 1,
        )
    }

    pub open spec fn spec_log_size(self) -> nat {
        self.spec_coset().spec_log_size()
    }

    /// The circle domain of the canonic coset of `2^log_size` points.
    pub closed spec fn spec_circle_domain_of(log_size: nat) -> CircleDomain {
        CircleDomain { half_coset: Coset::spec_half_odds((log_size - 1) as nat) }
    }

    /// The half coset of the circle domain of a canonic coset.
    pub proof fn lemma_circle_domain_of(log_size: nat)
        requires
            1 <= log_size,
        ensures
            CanonicCoset::spec_circle_domain_of(log_size).spec_half_coset()
                == Coset::spec_half_odds((log_size - 1) as nat),
    {
    }

    /// The `i`-th point of that domain.
    pub open spec fn spec_circle_domain_at(log_size: nat, i: nat) -> CirclePoint {
        CanonicCoset::spec_circle_domain_of(log_size).spec_at(i)
    }

    /// Makes the invariant of an executable value known to the caller.
    pub fn valid(&self)
        ensures
            self.wf(),
    {
        proof {
            use_type_invariant(self);
        }
    }

    pub fn new(log_size: u32) -> (r: CanonicCoset)
        requires
            1 <= log_size <= 30,
        ensures
            r.wf(),
            r.spec_log_size() == log_size,
            r.spec_coset() == Coset::spec_odds(log_size as nat),
    {
        CanonicCoset { coset: Coset::odds(log_size) }
    }

    /// The coset of all the points.
    pub fn coset(&self) -> (r: Coset)
        ensures
            r == self.spec_coset(),
    {
        self.coset
    }

    /// Half of the points: `G_4m + <G_m>` for half the size `m`.
    pub fn half_coset(&self) -> (r: Coset)
        ensures
            r == Coset::spec_half_odds((self.spec_log_size() - 1) as nat),
            r.wf(),
            r.spec_log_size() == self.spec_log_size() - 1,
            r.spec_initial_index() == CirclePointIndex::spec_subgroup_gen(self.spec_log_size() + 1),
    {
        proof {
            use_type_invariant(self);
        }
        Coset::half_odds(self.coset.log_size() - 1)
    }

    /// The same points in the order of a circle domain.
    pub fn circle_domain(&self) -> (r: CircleDomain)
        ensures
            r == CanonicCoset::spec_circle_domain_of(self.spec_log_size()),
            r.wf(),
            r.spec_log_size() == self.spec_log_size(),
            r.spec_half_coset().spec_initial_index() == CirclePointIndex::spec_subgroup_gen(
                self.spec_log_size() + 1,
            ),
    {
        proof {
            use_type_invariant(self);
        }
        CircleDomain::new(self.half_coset())
    }

    pub fn log_size(&self) -> (r: u32)
        ensures
            r == self.spec_log_size(),
            1 <= r <= 30,
    {
        proof {
            use_type_invariant(self);
        }
        self.coset.log_size()
    }

    pub fn size(&self) -> (r: usize)
        ensures
            r == pow2(self.spec_log_size()),
    {
        self.coset.size()
    }

    pub fn initial_index(&self) -> (r: CirclePointIndex)
        ensures
            r == self.spec_coset().spec_initial_index(),
    {
        self.coset.initial_index()
    }

    pub fn step_size(&self) -> (r: CirclePointIndex)
        ensures
            r == self.spec_coset().spec_step_size(),
    {
        self.coset.step_size()
    }

    pub fn step(&self) -> (r: CirclePoint)
        ensures
            r == self.spec_coset().spec_step(),
    {
        self.coset.step()
    }

    pub fn index_at(&self, index: usize) -> (r: CirclePointIndex)
        ensures
            r == self.spec_coset().spec_index_at(index as nat),
    {
        self.coset.index_at(index)
    }

    pub fn at(&self, i: usize) -> (r: CirclePoint)
        ensures
            r == self.spec_coset().spec_at(i as nat),
    {
        self.coset.at(i)
    }
}

} // verus!
