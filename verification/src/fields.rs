//! The base field `F_p`, `p = 2^31 - 1`, and its extensions of degree two and four.

pub mod batch_inverse;
pub mod cm31;
pub mod gauss;
pub mod m31;
pub mod qm31;
pub mod fermat;
