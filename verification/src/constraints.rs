//! Polynomials that vanish on cosets.

use vstd::prelude::*;
use crate::circle::coset::Coset;
use crate::circle::index::CirclePointIndex;
use crate::circle::point::CirclePoint;
use crate::circle::secure_point::SecureCirclePoint;
use crate::fields::m31::M31;
use crate::fields::qm31::QM31;
use crate::poly::line::{secure_double_x, spec_secure_double_x};

verus! {

/// The first coordinate after `n` doublings.
pub open spec fn spec_repeated_double_x(x: M31, n: nat) -> M31
    decreases n,
{
    if n == 0 {
        x
    } else {
        spec_repeated_double_x(CirclePoint::spec_double_x(x), (n - 1) as nat)
    }
}

/// The first coordinate after `n` doublings, in the extension field.
pub open spec fn spec_secure_repeated_double_x(x: QM31, n: nat) -> QM31
    decreases n,
{
    if n == 0 {
        x
    } else {
        spec_secure_repeated_double_x(spec_secure_double_x(x), (n - 1) as nat)
    }
}

/// The index of the point that moves the coset onto the canonic coset of
/// its size: half its step less its first point.
pub open spec fn spec_shift_index(coset: Coset) -> CirclePointIndex {
    CirclePointIndex::of_nat(coset.spec_step_size()@ / 2).spec_sub(coset.spec_initial_index())
}

/// The value at `p` of the polynomial that vanishes on the coset: the point
/// is moved as the coset is moved onto the canonic coset of its size, and
/// its first coordinate is doubled until that coset is a pair of points on
/// the axis `x = 0`.
pub open spec fn spec_coset_vanishing(coset: Coset, p: CirclePoint) -> M31 {
    spec_repeated_double_x(
        p.spec_add(spec_shift_index(coset).spec_to_point()).x,
        (coset.spec_log_size() - 1) as nat,
    )
}

/// The value at a point of the circle over the extension field of the
/// polynomial that vanishes on the coset.
pub open spec fn spec_secure_coset_vanishing(coset: Coset, p: SecureCirclePoint) -> QM31 {
    spec_secure_repeated_double_x(
        p.spec_add(SecureCirclePoint::spec_from_base(spec_shift_index(coset).spec_to_point())).x,
        (coset.spec_log_size() - 1) as nat,
    )
}

/// The point that moves the coset onto the canonic coset of its size.
fn shift_point(coset: Coset) -> (r: CirclePoint)
    requires
        1 <= coset.spec_log_size() <= 30,
    ensures
        r == spec_shift_index(coset).spec_to_point(),
{
    coset.valid();
    let step = coset.step_size();
    proof {
        let l = coset.spec_log_size();
        vstd::arithmetic::power2::lemma2_to64();
        vstd::arithmetic::power2::lemma_pow2_unfold((31 - l) as nat);
        crate::utils::lemma_pow2_monotone((31 - l) as nat, 30);
        CirclePointIndex::lemma_of_nat_view(vstd::arithmetic::power2::pow2((31 - l) as nat));
        vstd::arithmetic::div_mod::lemma_small_mod(
            vstd::arithmetic::power2::pow2((31 - l) as nat),
            crate::circle::index::circle_order(),
        );
    }
    let half = step.half();
    proof {
        half.spec_to_point();
        CirclePointIndex::lemma_of_nat_view(step@ / 2);
        vstd::arithmetic::div_mod::lemma_small_mod(
            (step@ / 2) as nat,
            crate::circle::index::circle_order(),
        );
        CirclePointIndex::lemma_view_injective(half, CirclePointIndex::of_nat(step@ / 2));
    }
    half.sub(coset.initial_index()).to_point()
}

/// The value at `p` of the polynomial that vanishes on the coset.
pub fn coset_vanishing(coset: Coset, p: CirclePoint) -> (r: M31)
    requires
        1 <= coset.spec_log_size() <= 30,
    ensures
        r == spec_coset_vanishing(coset, p),
{
    let shifted = p.add(shift_point(coset));
    let mut x = shifted.x;
    let n = coset.log_size() - 1;
    let mut k: u32 = 0;
    while k < n
        invariant
            k <= n,
            spec_repeated_double_x(x, (n - k) as nat) == spec_repeated_double_x(
                shifted.x,
                n as nat,
            ),
        decreases n - k,
    {
        x = CirclePoint::double_x(x);
        k = k + 1;
    }
    x
}

/// The value at a point of the circle over the extension field of the
/// polynomial that vanishes on the coset.
pub fn secure_coset_vanishing(coset: Coset, p: SecureCirclePoint) -> (r: QM31)
    requires
        1 <= coset.spec_log_size() <= 30,
    ensures
        r == spec_secure_coset_vanishing(coset, p),
{
    let shifted = p.add(SecureCirclePoint::from_base(shift_point(coset)));
    let mut x = shifted.x;
    let n = coset.log_size() - 1;
    let mut k: u32 = 0;
    while k < n
        invariant
            k <= n,
            spec_secure_repeated_double_x(x, (n - k) as nat) == spec_secure_repeated_double_x(
                shifted.x,
                n as nat,
            ),
        decreases n - k,
    {
        x = secure_double_x(x);
        k = k + 1;
    }
    x
}

} // verus!
