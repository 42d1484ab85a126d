//! Group arithmetic for points on a Short Weierstrass curve
//! (`y^2 = x^3 + a*x + b`) over a prime field, in Jacobian projective
//! coordinates.
//!
//! A projective triple `(x, y, z)` with `z != 0` stands for the affine point
//! `(x / z^2, y / z^3)`; the triple with `z == 0` is the group identity (the
//! point at infinity). Doubling and addition follow the published Jacobian
//! formulae and need no field inversion; one shared inversion converts a whole
//! batch of points back to affine coordinates.

pub mod field;
pub mod curve;
pub mod affine;
pub mod projective;
pub mod laws;
