//! The curve-parameter collaborator: modulus, Weierstrass coefficients,
//! generator coordinates and subgroup order for one Short Weierstrass curve
//! `y^2 = x^3 + a*x + b` over the prime field of `p` elements.

use vstd::prelude::*;
use crate::field::{fmul, mul_mod, prime_field};

verus! {

/// Parameters of one curve. All coordinate values are reduced modulo `p`.
pub struct Curve {
    /// The prime modulus of the base field.
    pub p: u64,
    /// The coefficient `a` of the curve equation.
    pub a: u64,
    /// The coefficient `b` of the curve equation.
    pub b: u64,
    /// Affine x coordinate of the chosen generator.
    pub gx: u64,
    /// Affine y coordinate of the chosen generator.
    pub gy: u64,
    /// Order of the prime-order subgroup generated by the generator.
    pub order: u64,
}

/// Mathematical model of a parameter set.
pub ghost struct CurveModel {
    pub p: int,
    pub a: int,
    pub b: int,
    pub gx: int,
    pub gy: int,
    pub order: nat,
}

impl View for Curve {
    type V = CurveModel;

    open spec fn view(&self) -> CurveModel {
        CurveModel {
            p: self.p as int,
            a: self.a as int,
            b: self.b as int,
            gx: self.gx as int,
            gy: self.gy as int,
            order: self.order as nat,
        }
    }
}

impl Curve {
    /// A usable parameter set: the modulus is an odd prime (stated as
    /// invertibility of nonzero elements) and all coordinates are reduced.
    pub open spec fn wf(&self) -> bool {
        &&& prime_field(self@.p)
        &&& self@.a < self@.p
        &&& self@.b < self@.p
        &&& self@.gx < self@.p
        &&& self@.gy < self@.p
    }

    /// The "multiply a field element by the curve constant `a`" hook that the
    /// general doubling formula goes through.
    pub fn mul_by_a(&self, t: u64) -> (r: u64)
        requires
            self.wf(),
        ensures
            r == fmul(self@.a, t as int, self@.p),
            r < self.p,
    {
        mul_mod(self.a, t, self.p)
    }
}

} // verus!
