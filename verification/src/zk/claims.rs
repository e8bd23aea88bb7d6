//! What a proof says of the constraint system it was made for, and the
//! check of it against the system of the verifier.

use vstd::prelude::*;
use crate::zk::constraints::{ConstraintSystem, ConstraintType, MusicalConstraint};

verus! {

/// The kind of structure that a number of constraints stands for.
#[derive(Debug, Clone, Copy, PartialEq, Eq, Structural)]
pub enum StructureType {
    Interval,
    Chord,
    Scale,
    Complex,
}

/// The kind of structure: one constraint is an interval, up to five a
/// chord, up to twelve a scale, and everything else is complex.
pub open spec fn spec_structure_type(constraint_count: usize) -> StructureType {
    if constraint_count == 1 {
        StructureType::Interval
    } else if 2 <= constraint_count <= 5 {
        StructureType::Chord
    } else if 6 <= constraint_count <= 12 {
        StructureType::Scale
    } else {
        StructureType::Complex
    }
}

/// The kind of structure that the number of constraints stands for.
pub fn infer_structure_type(constraint_count: usize) -> (r: StructureType)
    ensures
        r == spec_structure_type(constraint_count),
{
    if constraint_count == 1 {
        StructureType::Interval
    } else if 2 <= constraint_count && constraint_count <= 5 {
        StructureType::Chord
    } else if 6 <= constraint_count && constraint_count <= 12 {
        StructureType::Scale
    } else {
        StructureType::Complex
    }
}

/// The number that stands for a kind of constraint among the public
/// inputs.
pub open spec fn spec_type_id(constraint_type: ConstraintType) -> u32 {
    match constraint_type {
        ConstraintType::HarmonicRatio => 1,
        ConstraintType::OctaveEquivalence => 2,
        ConstraintType::Consonance => 3,
        ConstraintType::IntervalSum => 4,
        ConstraintType::TuningConsistency => 5,
    }
}

/// The number that stands for a kind of constraint.
pub fn type_id(constraint_type: ConstraintType) -> (r: u32)
    ensures
        r == spec_type_id(constraint_type),
{
    match constraint_type {
        ConstraintType::HarmonicRatio => 1,
        ConstraintType::OctaveEquivalence => 2,
        ConstraintType::Consonance => 3,
        ConstraintType::IntervalSum => 4,
        ConstraintType::TuningConsistency => 5,
    }
}

/// The public inputs of a system: the number of its constraints, cut to 32
/// bits, and then the kind of each constraint.
pub open spec fn spec_public_inputs(constraints: Seq<MusicalConstraint>) -> Seq<u32> {
    seq![constraints.len() as u32] + Seq::new(
        constraints.len(),
        |i: int| spec_type_id(constraints[i].constraint_type),
    )
}

/// The public inputs of a system.
pub fn extract_public_inputs(system: &ConstraintSystem) -> (r: Vec<u32>)
    ensures
        r@ == spec_public_inputs(system.constraints@),
{
    let mut out: Vec<u32> = Vec::new();
    out.push(system.constraints.len() as u32);
    let mut i: usize = 0;
    while i < system.constraints.len()
        invariant
            i <= system.constraints.len(),
            out.len() == i + 1,
            out[0] == system.constraints.len() as u32,
            forall|k: int|
                0 <= k < i ==> out[k + 1] == spec_type_id(system.constraints[k].constraint_type),
        decreases system.constraints.len() - i,
    {
        out.push(type_id(system.constraints[i].constraint_type));
        i = i + 1;
    }
    proof {
        assert(out@ =~= spec_public_inputs(system.constraints@));
    }
    out
}

/// Why a proof was not made for the constraint system of the verifier.
#[derive(Debug, Clone, Copy, PartialEq, Eq, Structural)]
pub enum ClaimError {
    /// The proof names another number of constraints.
    ConstraintCountMismatch { claimed_count: usize, expected_count: usize },
    /// The proof lists another number of ratios.
    RatioCountMismatch,
    /// The proof has no public inputs.
    NoPublicInputs,
    /// The first public input is not the number of the constraints.
    PublicCountMismatch,
    /// The kind of the constraint with the index is not the one of the
    /// system.
    TypeMismatch { index: usize, claimed: u32, expected: u32 },
    /// There is no public input for the constraint with the index.
    MissingType { index: usize },
}

/// Whether the public inputs name the kind of the `i`-th constraint.
pub open spec fn spec_type_matches(
    constraints: Seq<MusicalConstraint>,
    public_inputs: Seq<u32>,
    i: int,
) -> bool {
    i + 1 < public_inputs.len() && public_inputs[i + 1] == spec_type_id(
        constraints[i].constraint_type,
    )
}

/// Whether the public inputs name the kinds of the first `n` constraints.
pub open spec fn spec_types_match(
    constraints: Seq<MusicalConstraint>,
    public_inputs: Seq<u32>,
    n: int,
) -> bool {
    forall|i: int| 0 <= i < n ==> #[trigger] spec_type_matches(constraints, public_inputs, i)
}

/// Whether the `i`-th constraint is the first whose kind is missing or
/// differs.
pub open spec fn spec_first_mismatch(
    constraints: Seq<MusicalConstraint>,
    public_inputs: Seq<u32>,
    i: int,
) -> bool {
    &&& 0 <= i < constraints.len()
    &&& spec_types_match(constraints, public_inputs, i)
    &&& !spec_types_match(constraints, public_inputs, i + 1)
}

/// What the check of the public inputs gives: there must be one at least,
/// the first must be the number of the constraints, and the next ones the
/// kinds of the constraints in their order; the error is that of the first
/// constraint whose kind is missing or differs. What follows the kinds is
/// not read.
pub open spec fn spec_validate_public_inputs(
    constraints: Seq<MusicalConstraint>,
    public_inputs: Seq<u32>,
) -> Result<(), ClaimError> {
    if public_inputs.len() == 0 {
        Err(ClaimError::NoPublicInputs)
    } else if public_inputs[0] as usize != constraints.len() {
        Err(ClaimError::PublicCountMismatch)
    } else if spec_types_match(constraints, public_inputs, constraints.len() as int) {
        Ok(())
    } else {
        let index = choose|i: int| spec_first_mismatch(constraints, public_inputs, i);
        if index + 1 < public_inputs.len() {
            Err(
                ClaimError::TypeMismatch {
                    index: index as usize,
                    claimed: public_inputs[index + 1],
                    expected: spec_type_id(constraints[index].constraint_type),
                },
            )
        } else {
            Err(ClaimError::MissingType { index: index as usize })
        }
    }
}

/// The first constraint whose kind is missing or differs is the only one
/// before which all kinds match and at which they do not.
pub proof fn lemma_first_mismatch(
    constraints: Seq<MusicalConstraint>,
    public_inputs: Seq<u32>,
    i: int,
    j: int,
)
    requires
        0 <= i,
        0 <= j,
        spec_types_match(constraints, public_inputs, i),
        !spec_types_match(constraints, public_inputs, i + 1),
        spec_types_match(constraints, public_inputs, j),
        !spec_types_match(constraints, public_inputs, j + 1),
    ensures
        i == j,
{
    if i < j {
        assert(spec_type_matches(constraints, public_inputs, i));
        assert(spec_types_match(constraints, public_inputs, i + 1));
    }
    if j < i {
        assert(spec_type_matches(constraints, public_inputs, j));
        assert(spec_types_match(constraints, public_inputs, j + 1));
    }
}

/// Checks the public inputs of a proof against the constraint system.
pub fn validate_public_inputs(system: &ConstraintSystem, public_inputs: &Vec<u32>) -> (r: Result<
    (),
    ClaimError,
>)
    ensures
        r == spec_validate_public_inputs(system.constraints@, public_inputs@),
{
    if public_inputs.len() == 0 {
        return Err(ClaimError::NoPublicInputs);
    }
    if public_inputs[0] as usize != system.constraints.len() {
        return Err(ClaimError::PublicCountMismatch);
    }
    let mut i: usize = 0;
    while i < system.constraints.len()
        invariant
            i <= system.constraints.len(),
            public_inputs.len() >= 1,
            public_inputs[0] as usize == system.constraints.len(),
            spec_types_match(system.constraints@, public_inputs@, i as int),
        decreases system.constraints.len() - i,
    {
        let expected = type_id(system.constraints[i].constraint_type);
        if i + 1 >= public_inputs.len() || public_inputs[i + 1] != expected {
            proof {
                let all = system.constraints.len() as int;
                assert(!spec_type_matches(system.constraints@, public_inputs@, i as int));
                assert(!spec_types_match(system.constraints@, public_inputs@, i + 1));
                assert(!spec_types_match(system.constraints@, public_inputs@, all));
                assert(spec_first_mismatch(system.constraints@, public_inputs@, i as int));
                let index = choose|k: int|
                    spec_first_mismatch(system.constraints@, public_inputs@, k);
                lemma_first_mismatch(system.constraints@, public_inputs@, i as int, index);
            }
            if i + 1 < public_inputs.len() {
                return Err(
                    ClaimError::TypeMismatch { index: i, claimed: public_inputs[i + 1], expected },
                );
            }
            return Err(ClaimError::MissingType { index: i });
        }
        i = i + 1;
    }
    Ok(())
}

/// What the check of the claims of a proof gives: the number of constraints
/// that it names and the number of ratios that it lists must be that of the
/// constraints of the system.
pub open spec fn spec_validate_counts(
    constraints: Seq<MusicalConstraint>,
    constraint_count: usize,
    ratio_count: usize,
) -> Result<(), ClaimError> {
    if constraint_count != constraints.len() {
        Err(
            ClaimError::ConstraintCountMismatch {
                claimed_count: constraint_count,
                expected_count: constraints.len() as usize,
            },
        )
    } else if ratio_count != constraints.len() {
        Err(ClaimError::RatioCountMismatch)
    } else {
        Ok(())
    }
}

/// Checks the numbers that a proof names against the constraint system.
pub fn validate_counts(system: &ConstraintSystem, constraint_count: usize, ratio_count: usize) -> (r:
    Result<(), ClaimError>)
    ensures
        r == spec_validate_counts(system.constraints@, constraint_count, ratio_count),
{
    if constraint_count != system.constraints.len() {
        return Err(
            ClaimError::ConstraintCountMismatch {
                claimed_count: constraint_count,
                expected_count: system.constraints.len(),
            },
        );
    }
    if ratio_count != system.constraints.len() {
        return Err(ClaimError::RatioCountMismatch);
    }
    Ok(())
}

/// The public inputs of a system pass the check against that system,
/// whenever the number of its constraints fits 32 bits.
pub proof fn lemma_own_public_inputs_pass(constraints: Seq<MusicalConstraint>)
    requires
        constraints.len() <= u32::MAX,
        constraints.len() <= usize::MAX,
    ensures
        spec_validate_public_inputs(constraints, spec_public_inputs(constraints)) == Ok::<
            (),
            ClaimError,
        >(()),
{
    let inputs = spec_public_inputs(constraints);
    assert(inputs.len() == constraints.len() + 1);
    assert(inputs[0] == constraints.len() as u32);
    assert forall|i: int| 0 <= i < constraints.len() implies #[trigger] spec_type_matches(
        constraints,
        inputs,
        i,
    ) by {}
}

} // verus!
