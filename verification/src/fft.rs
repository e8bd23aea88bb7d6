//! The butterflies of the fast Fourier transforms.

use vstd::prelude::*;
use crate::fields::m31::M31;
use crate::fields::qm31::QM31;

verus! {

/// The forward butterfly: `(v0 + v1 * t, v0 - v1 * t)`.
pub open spec fn spec_butterfly(v0: QM31, v1: QM31, twid: M31) -> (QM31, QM31) {
    let tmp = v1.spec_mul_m31(twid);
    (v0.spec_add(tmp), v0.spec_sub(tmp))
}

/// The inverse butterfly: `(v0 + v1, (v0 - v1) * t)`.
pub open spec fn spec_ibutterfly(v0: QM31, v1: QM31, itwid: M31) -> (QM31, QM31) {
    (v0.spec_add(v1), v0.spec_sub(v1).spec_mul_m31(itwid))
}

/// The forward butterfly on the base field.
pub open spec fn spec_butterfly_base(v0: M31, v1: M31, twid: M31) -> (M31, M31) {
    let tmp = v1.spec_mul(twid);
    (v0.spec_add(tmp), v0.spec_sub(tmp))
}

/// The inverse butterfly on the base field.
pub open spec fn spec_ibutterfly_base(v0: M31, v1: M31, itwid: M31) -> (M31, M31) {
    (v0.spec_add(v1), v0.spec_sub(v1).spec_mul(itwid))
}

pub fn butterfly(v0: &mut QM31, v1: &mut QM31, twid: M31)
    ensures
        (*final(v0), *final(v1)) == spec_butterfly(*old(v0), *old(v1), twid),
{
    let tmp = v1.mul_m31(twid);
    *v1 = v0.sub(tmp);
    *v0 = v0.add(tmp);
}

pub fn ibutterfly(v0: &mut QM31, v1: &mut QM31, itwid: M31)
    ensures
        (*final(v0), *final(v1)) == spec_ibutterfly(*old(v0), *old(v1), itwid),
{
    let tmp = *v0;
    *v0 = tmp.add(*v1);
    *v1 = tmp.sub(*v1).mul_m31(itwid);
}

pub fn butterfly_base(v0: &mut M31, v1: &mut M31, twid: M31)
    ensures
        (*final(v0), *final(v1)) == spec_butterfly_base(*old(v0), *old(v1), twid),
{
    let tmp = v1.mul(twid);
    *v1 = v0.sub(tmp);
    *v0 = v0.add(tmp);
}

pub fn ibutterfly_base(v0: &mut M31, v1: &mut M31, itwid: M31)
    ensures
        (*final(v0), *final(v1)) == spec_ibutterfly_base(*old(v0), *old(v1), itwid),
{
    let tmp = *v0;
    *v0 = tmp.add(*v1);
    *v1 = tmp.sub(*v1).mul(itwid);
}

} // verus!
