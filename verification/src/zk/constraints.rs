//! Constraints over the base field, each made from a ratio, and the
//! relationships among them.

use vstd::prelude::*;
use crate::fields::m31::M31;

verus! {

/// The ratios are scaled by `2^20` before they enter the field.
pub const RATIO_SCALE: u32 = 1048576;

/// The largest scaled ratio: ten.
pub const MAX_SCALED_RATIO: u32 = 10485760;

/// What a constraint asserts.
#[derive(Debug, Clone, Copy, PartialEq, Eq, Structural)]
pub enum ConstraintType {
    /// The ratio belongs to the harmonic series.
    HarmonicRatio,
    /// The ratio is that of the octave.
    OctaveEquivalence,
    /// The ratio is a consonance.
    Consonance,
    /// The intervals of a chord add up.
    IntervalSum,
    /// The tuning is consistent.
    TuningConsistency,
}

/// How constraints depend on each other.
#[derive(Debug, Clone, Copy, PartialEq, Eq, Structural)]
pub enum RelationshipType {
    /// All of them hold.
    Conjunction,
    /// One of them at least holds.
    Disjunction,
    /// They exclude each other.
    Exclusion,
}

/// A relationship among the constraints with the given indices.
#[derive(Debug)]
pub struct ConstraintRelationship {
    pub constraint_indices: Vec<usize>,
    pub relationship_type: RelationshipType,
}

/// A constraint: its kind, the ratio it is made from, scaled by `2^20`, the
/// class of the scaled ratio in the field, and a coefficient.
#[derive(Debug, Clone, Copy, PartialEq, Eq, Structural)]
pub struct MusicalConstraint {
    pub constraint_type: ConstraintType,
    pub ratio_m31: M31,
    pub scaled_ratio: u32,
    pub coefficient: M31,
}

impl MusicalConstraint {
    /// The scaled ratio is at most that of ten and the field value is the
    /// scaled value.
    pub open spec fn wf(self) -> bool {
        &&& self.scaled_ratio <= MAX_SCALED_RATIO
        &&& self.ratio_m31 == M31::from_int(self.scaled_ratio as int)
    }

    /// The constraint of a ratio given by its scaled value, if that value is
    /// at most the scaled value of ten. A positive ratio below one part in
    /// the scale has the scaled value zero, which is accepted.
    pub fn from_scaled_ratio(
        scaled_ratio: u32,
        constraint_type: ConstraintType,
        coefficient: u32,
    ) -> (r: Option<MusicalConstraint>)
        ensures
            r.is_some() == (scaled_ratio <= MAX_SCALED_RATIO),
            r.is_some() ==> r.unwrap().wf() && r.unwrap().scaled_ratio == scaled_ratio
                && r.unwrap().constraint_type == constraint_type && r.unwrap().coefficient
                == M31::from_int(coefficient as int),
    {
        if scaled_ratio > MAX_SCALED_RATIO {
            return None;
        }
        Some(
            MusicalConstraint {
                constraint_type,
                ratio_m31: M31::from_u32(scaled_ratio),
                scaled_ratio,
                coefficient: M31::from_u32(coefficient),
            },
        )
    }
}

/// A relationship names a constraint that the system does not hold.
#[derive(Debug, Clone, Copy, PartialEq, Eq, Structural)]
pub struct InvalidConstraintIndex {
    /// The relationship.
    pub relationship: usize,
    /// The index that it names.
    pub index: usize,
}

/// Constraints in their order, and relationships among them.
#[derive(Debug)]
pub struct ConstraintSystem {
    pub constraints: Vec<MusicalConstraint>,
    pub relationships: Vec<ConstraintRelationship>,
}

impl ConstraintSystem {
    /// Whether every relationship names constraints of the system only.
    pub open spec fn spec_valid(self) -> bool {
        forall|r: int, k: int|
            0 <= r < self.relationships.len() && 0 <= k
                < self.relationships[r].constraint_indices.len() ==> (
            #[trigger] self.relationships[r].constraint_indices[k]) < self.constraints.len()
    }

    /// A system without constraints.
    pub fn new() -> (r: ConstraintSystem)
        ensures
            r.constraints.len() == 0,
            r.relationships.len() == 0,
    {
        ConstraintSystem { constraints: Vec::new(), relationships: Vec::new() }
    }

    /// Adds a constraint and returns its index.
    pub fn add_constraint(&mut self, constraint: MusicalConstraint) -> (r: usize)
        ensures
            final(self).constraints@ == old(self).constraints@.push(constraint),
            final(self).relationships == old(self).relationships,
            r == old(self).constraints.len(),
    {
        self.constraints.push(constraint);
        self.constraints.len() - 1
    }

    /// Adds a relationship.
    pub fn add_relationship(&mut self, relationship: ConstraintRelationship)
        ensures
            final(self).relationships@ == old(self).relationships@.push(relationship),
            final(self).constraints == old(self).constraints,
    {
        self.relationships.push(relationship);
    }

    /// The number of constraints.
    pub fn constraint_count(&self) -> (r: usize)
        ensures
            r == self.constraints.len(),
    {
        self.constraints.len()
    }

    /// Checks that the relationships name constraints of the system only;
    /// the error is the first index that does not.
    pub fn validate(&self) -> (r: Result<(), InvalidConstraintIndex>)
        ensures
            r.is_ok() == self.spec_valid(),
            match r {
                Err(e) => {
                    &&& e.relationship < self.relationships.len()
                    &&& exists|k: int|
                        0 <= k < self.relationships[e.relationship as int].constraint_indices.len()
                            && (
                        #[trigger] self.relationships[e.relationship as int].constraint_indices[k])
                            == e.index
                    &&& e.index >= self.constraints.len()
                },
                Ok(_) => true,
            },
    {
        let mut r: usize = 0;
        while r < self.relationships.len()
            invariant
                r <= self.relationships.len(),
                forall|i: int, k: int|
                    0 <= i < r && 0 <= k < self.relationships[i].constraint_indices.len() ==> (
                    #[trigger] self.relationships[i].constraint_indices[k])
                        < self.constraints.len(),
            decreases self.relationships.len() - r,
        {
            let indices = &self.relationships[r].constraint_indices;
            let mut k: usize = 0;
            while k < indices.len()
                invariant
                    k <= indices.len(),
                    r < self.relationships.len(),
                    *indices == self.relationships[r as int].constraint_indices,
                    forall|j: int| 0 <= j < k ==> (#[trigger] indices[j]) < self.constraints.len(),
                decreases indices.len() - k,
            {
                if indices[k] >= self.constraints.len() {
                    assert(self.relationships[r as int].constraint_indices[k as int]
                        >= self.constraints.len());
                    return Err(InvalidConstraintIndex { relationship: r, index: indices[k] });
                }
                k = k + 1;
            }
            r = r + 1;
        }
        Ok(())
    }
}

} // verus!
