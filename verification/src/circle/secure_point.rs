//! Points of the circle over the extension field, at which polynomials are
//! sampled out of their domain.

use vstd::prelude::*;
use crate::channel::Channel;
use crate::circle::point::CirclePoint;
use crate::fields::qm31::QM31;
use crate::poly::line::{secure_double_x, spec_secure_double_x};

verus! {

/// A point `(x, y)` with coordinates in the extension field.
#[derive(Copy, Clone, Debug, PartialEq, Eq, Structural, Hash)]
pub struct SecureCirclePoint {
    pub x: QM31,
    pub y: QM31,
}

impl SecureCirclePoint {
    /// The group law: `(x1 x2 - y1 y2, x1 y2 + y1 x2)`.
    pub open spec fn spec_add(self, rhs: SecureCirclePoint) -> SecureCirclePoint {
        SecureCirclePoint {
            x: self.x.spec_mul(rhs.x).spec_sub(self.y.spec_mul(rhs.y)),
            y: self.x.spec_mul(rhs.y).spec_add(self.y.spec_mul(rhs.x)),
        }
    }

    /// The point of the base field as a point of the extension field.
    pub open spec fn spec_from_base(p: CirclePoint) -> SecureCirclePoint {
        SecureCirclePoint { x: QM31::spec_from_m31(p.x), y: QM31::spec_from_m31(p.y) }
    }

    /// The generator of the circle group of the extension field.
    pub open spec fn spec_generator() -> SecureCirclePoint {
        SecureCirclePoint {
            x: QM31::of(((1, 0), (478637715, 513582971))),
            y: QM31::of(((992285211, 649143431), (740191619, 1186584352))),
        }
    }

    /// The point `((1 - t^2) / (1 + t^2), 2t / (1 + t^2))` of the parameter `t`.
    pub open spec fn spec_of_parameter(t: QM31) -> SecureCirclePoint {
        let t_square = t.spec_square();
        let one_plus_tsquared_inv = t_square.spec_add(QM31::spec_one()).spec_inverse();
        SecureCirclePoint {
            x: QM31::spec_one().spec_add(t_square.spec_neg()).spec_mul(one_plus_tsquared_inv),
            y: t.spec_double().spec_mul(one_plus_tsquared_inv),
        }
    }

    pub fn add(self, rhs: SecureCirclePoint) -> (r: SecureCirclePoint)
        ensures
            r == self.spec_add(rhs),
    {
        SecureCirclePoint {
            x: self.x.mul(rhs.x).sub(self.y.mul(rhs.y)),
            y: self.x.mul(rhs.y).add(self.y.mul(rhs.x)),
        }
    }

    pub fn double(self) -> (r: SecureCirclePoint)
        ensures
            r == self.spec_add(self),
    {
        self.add(self)
    }

    /// The doubling map on the first coordinate.
    pub fn double_x(x: QM31) -> (r: QM31)
        ensures
            r == spec_secure_double_x(x),
    {
        secure_double_x(x)
    }

    /// The inverse `(x, -y)` in the group.
    pub fn conjugate(self) -> (r: SecureCirclePoint)
        ensures
            r == (SecureCirclePoint { x: self.x, y: self.y.spec_neg() }),
    {
        SecureCirclePoint { x: self.x, y: self.y.neg() }
    }

    pub fn from_base(p: CirclePoint) -> (r: SecureCirclePoint)
        ensures
            r == SecureCirclePoint::spec_from_base(p),
    {
        SecureCirclePoint { x: QM31::from_base(p.x), y: QM31::from_base(p.y) }
    }

    pub fn generator() -> (r: SecureCirclePoint)
        ensures
            r == SecureCirclePoint::spec_generator(),
    {
        SecureCirclePoint {
            x: QM31::from_u32_unchecked(1, 0, 478637715, 513582971),
            y: QM31::from_u32_unchecked(992285211, 649143431, 740191619, 1186584352),
        }
    }

    /// A point drawn from the transcript: the point of a drawn parameter.
    pub fn get_random_point<C: Channel>(channel: &mut C) -> (r: SecureCirclePoint)
        ensures
            ({
                let (after, t) = old(channel).spec_draw_secure_felt();
                *final(channel) == after && r == SecureCirclePoint::spec_of_parameter(t)
            }),
    {
        let t = channel.draw_secure_felt();
        let t_square = t.square();
        let one_plus_tsquared_inv = t_square.add(QM31::one()).inverse_or_zero();
        let x = QM31::one().add(t_square.neg()).mul(one_plus_tsquared_inv);
        let y = t.double().mul(one_plus_tsquared_inv);
        SecureCirclePoint { x, y }
    }
}

} // verus!
