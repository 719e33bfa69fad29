//! Exact geometric kernel for a ray tracer.
//!
//! Homogeneous-coordinate tuple algebra, 4x4 affine transforms, parametric
//! rays, a transformable unit sphere, and intersection/hit selection. All
//! arithmetic is exact rational arithmetic over bounded integer fractions, so
//! every algebraic contract is stated and proved exactly; square roots are
//! rational approximations carrying proved two-sided error bounds.

pub mod scalar;
pub mod detlaws;
pub mod matrix;
pub mod roots;
pub mod tup;
pub mod transform;
pub mod rays;
pub mod sphere;
pub mod intersection;

pub use scalar::Scalar;
