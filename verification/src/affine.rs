//! The affine-point collaborator: a point as a coordinate pair `(x, y)`,
//! with a distinguished marker for the point at infinity.
//!
//! Affine points are the canonical form: two equal group elements have
//! memberwise-equal affine representations, so derived equality and hashing
//! are consistent with the group's notion of equality.

use vstd::prelude::*;
use crate::curve::{Curve, CurveModel};
use crate::field::{fadd, fmul, fneg, add_mod, mul_mod, neg_mod};

verus! {

/// A point in affine coordinates, or the point at infinity.
///
/// When `infinity` is set the coordinates carry no information and are held
/// at zero, so that the identity has exactly one representation.
#[derive(Clone, Copy, PartialEq, Eq, Structural, Hash, Debug)]
pub struct Affine {
    /// Affine x coordinate.
    pub x: u64,
    /// Affine y coordinate.
    pub y: u64,
    /// Whether this value is the point at infinity.
    pub infinity: bool,
}

/// Mathematical model of an affine point.
pub ghost struct Aff {
    pub x: int,
    pub y: int,
    pub infinity: bool,
}

impl View for Affine {
    type V = Aff;

    open spec fn view(&self) -> Aff {
        Aff { x: self.x as int, y: self.y as int, infinity: self.infinity }
    }
}

/// Reduced coordinates, and the canonical zero coordinates at infinity.
pub open spec fn aff_wf(q: Aff, c: CurveModel) -> bool {
    if q.infinity {
        q.x == 0 && q.y == 0
    } else {
        0 <= q.x < c.p && 0 <= q.y < c.p
    }
}

/// The affine point satisfies the curve equation `y^2 = x^3 + a*x + b`
/// (the point at infinity is on every curve).
pub open spec fn aff_on_curve(q: Aff, c: CurveModel) -> bool {
    ||| q.infinity
    ||| fmul(q.y, q.y, c.p) == fadd(
            fadd(fmul(fmul(q.x, q.x, c.p), q.x, c.p), fmul(c.a, q.x, c.p), c.p),
            c.b,
            c.p,
        )
}

/// The negation of an affine point: `(x, y)` becomes `(x, -y)`; the point at
/// infinity is its own negation.
pub open spec fn aff_neg(q: Aff, c: CurveModel) -> Aff {
    if q.infinity {
        q
    } else {
        Aff { x: q.x, y: fneg(q.y, c.p), infinity: false }
    }
}

impl Affine {
    /// The affine identity marker (the point at infinity).
    pub fn identity() -> (r: Self)
        ensures
            r@ == (Aff { x: 0, y: 0, infinity: true }),
    {
        Affine { x: 0, y: 0, infinity: true }
    }

    /// Builds an affine point from raw coordinates without any membership
    /// check.
    pub fn new_unchecked(x: u64, y: u64) -> (r: Self)
        ensures
            r@ == (Aff { x: x as int, y: y as int, infinity: false }),
    {
        Affine { x, y, infinity: false }
    }

    /// The coordinate pair, or nothing for the point at infinity.
    pub fn xy(&self) -> (r: Option<(u64, u64)>)
        ensures
            self@.infinity ==> r is None,
            !self@.infinity ==> r == Some((self.x, self.y)),
    {
        if self.infinity {
            None
        } else {
            Some((self.x, self.y))
        }
    }

    /// Whether this value is the point at infinity.
    pub fn is_identity(&self) -> (r: bool)
        ensures
            r == self@.infinity,
    {
        self.infinity
    }

    /// The curve-membership test used by the checked constructor.
    pub fn is_on_curve(&self, c: &Curve) -> (r: bool)
        requires
            c.wf(),
            aff_wf(self@, c@),
        ensures
            r == aff_on_curve(self@, c@),
    {
        if self.infinity {
            return true;
        }
        let y2: u64 = mul_mod(self.y, self.y, c.p);
        let x3: u64 = mul_mod(mul_mod(self.x, self.x, c.p), self.x, c.p);
        let rhs: u64 = add_mod(add_mod(x3, mul_mod(c.a, self.x, c.p), c.p), c.b, c.p);
        y2 == rhs
    }

    /// Negation: `(x, y)` becomes `(x, -y)`.
    pub fn neg(self, c: &Curve) -> (r: Self)
        requires
            c.wf(),
            aff_wf(self@, c@),
        ensures
            r@ == aff_neg(self@, c@),
            aff_wf(r@, c@),
    {
        if self.infinity {
            self
        } else {
            Affine { x: self.x, y: neg_mod(self.y, c.p), infinity: false }
        }
    }
}

} // verus!
