//! Circle polynomials and their evaluations on circle domains.

pub mod circle;
pub mod fft;
pub mod round_trip;
