//! Edwards448 ("Goldilocks") group arithmetic: extended projective points on
//! the untwisted Edwards curve `x^2 + y^2 = 1 + d*x^2*y^2` over
//! `GF(2^448 - 2^224 - 1)` with `d = -39081`, together with point
//! compression, scalar multiplication through the 4-isogenous twisted curve,
//! and the RFC 9380 hash-to-curve pipeline.

pub mod extended;
pub mod field;
pub mod hash;
pub mod laws;
pub mod limbs;
pub mod scalar;
pub mod twisted;

pub use field::FieldElement;
pub use scalar::Scalar;
pub use extended::{AffinePoint, CompressedEdwardsY, ExtendedPoint, MontgomeryPoint};
pub use twisted::TwistedExtendedPoint;
