//! Jacobian coordinates for a point on an elliptic curve in short Weierstrass
//! form. A triple `(x, y, z)` with `z != 0` denotes the affine point
//! `(x / z^2, y / z^3)`; `z == 0` denotes the group identity. The arithmetic
//! follows the published Jacobian doubling and addition formulae, so no
//! operation needs a field inversion.

use vstd::prelude::*;
use crate::affine::{aff_neg, aff_on_curve, aff_wf, Aff, Affine};
use crate::curve::{Curve, CurveModel};
use crate::field::{
    add_mod, batch_invert, fadd, finv, fmul, fneg, fsub, inv_mod, mul_mod, neg_mod, sub_mod,
};

verus! {

/// A point in Jacobian projective coordinates.
#[derive(Clone, Copy, Debug)]
pub struct Projective {
    /// `X / Z^2` projection of the affine x coordinate.
    pub x: u64,
    /// `Y / Z^3` projection of the affine y coordinate.
    pub y: u64,
    /// Projective scaling factor; `0` exactly at the point at infinity.
    pub z: u64,
}

/// Mathematical model of a projective triple.
pub ghost struct Jac {
    pub x: int,
    pub y: int,
    pub z: int,
}

impl View for Projective {
    type V = Jac;

    open spec fn view(&self) -> Jac {
        Jac { x: self.x as int, y: self.y as int, z: self.z as int }
    }
}

/// All three coordinates are reduced modulo the field modulus.
pub open spec fn jac_wf(j: Jac, c: CurveModel) -> bool {
    &&& 0 <= j.x < c.p
    &&& 0 <= j.y < c.p
    &&& 0 <= j.z < c.p
}

/// The canonical representation of the group identity: `z = 0`, with both
/// other coordinates held at the field's one.
pub open spec fn identity_spec() -> Jac {
    Jac { x: 1, y: 1, z: 0 }
}

/// A triple denotes the identity exactly when `z = 0`.
pub open spec fn is_identity_spec(j: Jac) -> bool {
    j.z == 0
}

/// Negation: `(x, y, z)` becomes `(x, -y, z)`; a triple with `z = 0` still
/// has `z = 0`, so the identity stays the identity.
pub open spec fn neg_spec(j: Jac, c: CurveModel) -> Jac {
    Jac { x: j.x, y: fneg(j.y, c.p), z: j.z }
}

/// Projective equivalence: two nonzero triples denote the same group element
/// exactly when `x1*z2^2 == x2*z1^2` and `y1*z2^3 == y2*z1^3`; a zero triple
/// equals only zero triples.
pub open spec fn eq_spec(j1: Jac, j2: Jac, c: CurveModel) -> bool {
    if j1.z == 0 || j2.z == 0 {
        j1.z == 0 && j2.z == 0
    } else {
        let z1z1 = fmul(j1.z, j1.z, c.p);
        let z2z2 = fmul(j2.z, j2.z, c.p);
        &&& fmul(j1.x, z2z2, c.p) == fmul(j2.x, z1z1, c.p)
        &&& fmul(j1.y, fmul(z2z2, j2.z, c.p), c.p) == fmul(j2.y, fmul(z1z1, j1.z, c.p), c.p)
    }
}

/// Doubling of a nonzero point on a curve with `a = 0`
/// (formula dbl-2009-l, with `D = 4*X1*B`).
pub open spec fn double_a0_spec(j: Jac, p: int) -> Jac {
    let a = fmul(j.x, j.x, p);
    let b = fmul(j.y, j.y, p);
    let cc = fmul(b, b, p);
    let t = fmul(j.x, b, p);
    let t2 = fadd(t, t, p);
    let d = fadd(t2, t2, p);
    let e = fadd(a, fadd(a, a, p), p);
    let zy = fmul(j.z, j.y, p);
    let z3 = fadd(zy, zy, p);
    let x3 = fsub(fmul(e, e, p), fadd(d, d, p), p);
    let c2 = fadd(cc, cc, p);
    let c4 = fadd(c2, c2, p);
    let c8 = fadd(c4, c4, p);
    let y3 = fsub(fmul(fsub(d, x3, p), e, p), c8, p);
    Jac { x: x3, y: y3, z: z3 }
}

/// Doubling of a nonzero point for a general curve constant `a`
/// (formula dbl-2007-bl).
pub open spec fn double_general_spec(j: Jac, c: CurveModel) -> Jac {
    let p = c.p;
    let xx = fmul(j.x, j.x, p);
    let yy = fmul(j.y, j.y, p);
    let yyyy = fmul(yy, yy, p);
    let zz = fmul(j.z, j.z, p);
    let t1 = fadd(j.x, yy, p);
    let t2 = fsub(fsub(fmul(t1, t1, p), xx, p), yyyy, p);
    let s = fadd(t2, t2, p);
    let m = fadd(fadd(fadd(xx, xx, p), xx, p), fmul(c.a, fmul(zz, zz, p), p), p);
    let x3 = fsub(fmul(m, m, p), fadd(s, s, p), p);
    let zy = fmul(j.z, j.y, p);
    let z3 = fadd(zy, zy, p);
    let y4 = fadd(yyyy, yyyy, p);
    let y8 = fadd(fadd(y4, y4, p), fadd(y4, y4, p), p);
    let y3 = fsub(fmul(fsub(s, x3, p), m, p), y8, p);
    Jac { x: x3, y: y3, z: z3 }
}

/// Doubling: the identity doubles to itself; otherwise the formula for the
/// curve's `a` applies.
pub open spec fn double_spec(j: Jac, c: CurveModel) -> Jac {
    if j.z == 0 {
        j
    } else if c.a == 0 {
        double_a0_spec(j, c.p)
    } else {
        double_general_spec(j, c)
    }
}

/// Mixed addition (projective plus affine, formula madd-2007-bl), with the
/// three-way case split on equal, inverse and generic operands.
pub open spec fn add_mixed_spec(j: Jac, q: Aff, c: CurveModel) -> Jac {
    let p = c.p;
    if q.infinity {
        j
    } else if j.z == 0 {
        Jac { x: q.x, y: q.y, z: 1 }
    } else {
        let z1z1 = fmul(j.z, j.z, p);
        let u2 = fmul(q.x, z1z1, p);
        let s2 = fmul(fmul(j.z, q.y, p), z1z1, p);
        if j.x == u2 && j.y == s2 {
            double_spec(j, c)
        } else if j.x == u2 {
            identity_spec()
        } else {
            let h = fsub(u2, j.x, p);
            let hh = fmul(h, h, p);
            let i2 = fadd(hh, hh, p);
            let i = fadd(i2, i2, p);
            let jj = fmul(fneg(h, p), i, p);
            let rt = fsub(s2, j.y, p);
            let r = fadd(rt, rt, p);
            let v = fmul(j.x, i, p);
            let x3 = fsub(fadd(fmul(r, r, p), jj, p), fadd(v, v, p), p);
            let y3 = fadd(fmul(r, fsub(v, x3, p), p), fmul(fadd(j.y, j.y, p), jj, p), p);
            let zh = fmul(j.z, h, p);
            let z3 = fadd(zh, zh, p);
            Jac { x: x3, y: y3, z: z3 }
        }
    }
}

/// General addition (projective plus projective, formula add-2007-bl), with
/// identity short-circuits and the same three-way case split.
pub open spec fn add_spec(j1: Jac, j2: Jac, c: CurveModel) -> Jac {
    let p = c.p;
    if j1.z == 0 {
        j2
    } else if j2.z == 0 {
        j1
    } else {
        let z1z1 = fmul(j1.z, j1.z, p);
        let z2z2 = fmul(j2.z, j2.z, p);
        let u1 = fmul(j1.x, z2z2, p);
        let u2 = fmul(j2.x, z1z1, p);
        let s1 = fmul(fmul(j1.y, j2.z, p), z2z2, p);
        let s2 = fmul(fmul(j2.y, j1.z, p), z1z1, p);
        if u1 == u2 && s1 == s2 {
            double_spec(j1, c)
        } else if u1 == u2 {
            identity_spec()
        } else {
            let h = fsub(u2, u1, p);
            let h2 = fadd(h, h, p);
            let i = fmul(h2, h2, p);
            let jj = fmul(fneg(h, p), i, p);
            let rt = fsub(s2, s1, p);
            let r = fadd(rt, rt, p);
            let v = fmul(u1, i, p);
            let x3 = fsub(fadd(fmul(r, r, p), jj, p), fadd(v, v, p), p);
            let y3 = fadd(fmul(r, fsub(v, x3, p), p), fmul(fadd(s1, s1, p), jj, p), p);
            let zz12 = fmul(j1.z, j2.z, p);
            let z3 = fmul(fadd(zz12, zz12, p), h, p);
            Jac { x: x3, y: y3, z: z3 }
        }
    }
}

/// The projective lift of an affine point: `z = 1`, or the identity triple
/// for the point at infinity.
pub open spec fn lift_spec(q: Aff) -> Jac {
    if q.infinity {
        identity_spec()
    } else {
        Jac { x: q.x, y: q.y, z: 1 }
    }
}

/// The canonical affine representative: `(x/z^2, y/z^3)` via the inverse of
/// `z`, or the affine identity marker for the identity.
pub open spec fn to_affine_spec(j: Jac, c: CurveModel) -> Aff {
    if j.z == 0 {
        Aff { x: 0, y: 0, infinity: true }
    } else {
        let zi = finv(j.z, c.p);
        let zi2 = fmul(zi, zi, c.p);
        Aff {
            x: fmul(j.x, zi2, c.p),
            y: fmul(fmul(j.y, zi2, c.p), zi, c.p),
            infinity: false,
        }
    }
}

/// Scalar multiplication by a nonnegative integer, as binary double-and-add.
pub open spec fn scale_spec(j: Jac, k: nat, c: CurveModel) -> Jac
    decreases k,
{
    if k == 0 {
        identity_spec()
    } else {
        let h = double_spec(scale_spec(j, k / 2, c), c);
        if k % 2 == 1 {
            add_spec(h, j, c)
        } else {
            h
        }
    }
}

/// Membership in the subgroup of the curve's stated order: scaling by the
/// order reaches the identity.
pub open spec fn in_subgroup_spec(j: Jac, c: CurveModel) -> bool {
    is_identity_spec(scale_spec(j, c.order, c))
}

/// The sum of a sequence of affine points: repeated mixed addition starting
/// from the identity, in sequence order.
pub open spec fn sum_spec(s: Seq<Affine>, c: CurveModel) -> Jac
    decreases s.len(),
{
    if s.len() == 0 {
        identity_spec()
    } else {
        add_mixed_spec(sum_spec(s.drop_last(), c), s.last()@, c)
    }
}

impl Projective {
    /// All three coordinates are reduced modulo the curve's modulus.
    pub open spec fn wf(self, c: CurveModel) -> bool {
        jac_wf(self@, c)
    }

    /// Constructs a group element from raw coordinates, without checking
    /// whether they denote a point in the subgroup.
    pub fn new_unchecked(x: u64, y: u64, z: u64) -> (r: Self)
        ensures
            r@ == (Jac { x: x as int, y: y as int, z: z as int }),
    {
        Projective { x, y, z }
    }

    /// The point at infinity, which always has `z = 0`.
    pub fn zero() -> (r: Self)
        ensures
            r@ == identity_spec(),
    {
        Projective { x: 1, y: 1, z: 0 }
    }

    /// A point is the group identity exactly when `z = 0`; no other test is
    /// ever used.
    pub fn is_zero(&self) -> (r: bool)
        ensures
            r == is_identity_spec(self@),
    {
        self.z == 0
    }

    /// Clears all three coordinates, for points that held secret-derived
    /// data.
    pub fn zeroize(&mut self)
        ensures
            final(self)@ == (Jac { x: 0, y: 0, z: 0 }),
    {
        self.x = 0;
        self.y = 0;
        self.z = 0;
    }

    /// Negation: `(x, y, z)` becomes `(x, -y, z)`.
    pub fn neg(self, c: &Curve) -> (r: Self)
        requires
            c.wf(),
            self.wf(c@),
        ensures
            r@ == neg_spec(self@, c@),
            r.wf(c@),
    {
        Projective { x: self.x, y: neg_mod(self.y, c.p), z: self.z }
    }

    /// Projective equality: true exactly when the two triples denote the
    /// same group element (projective equivalence, no inversion needed).
    pub fn eq(&self, other: &Self, c: &Curve) -> (r: bool)
        requires
            c.wf(),
            self.wf(c@),
            other.wf(c@),
        ensures
            r == eq_spec(self@, other@, c@),
    {
        if self.is_zero() {
            return other.is_zero();
        }
        if other.is_zero() {
            return false;
        }
        let z1z1: u64 = mul_mod(self.z, self.z, c.p);
        let z2z2: u64 = mul_mod(other.z, other.z, c.p);
        if mul_mod(self.x, z2z2, c.p) == mul_mod(other.x, z1z1, c.p) {
            mul_mod(self.y, mul_mod(z2z2, other.z, c.p), c.p)
                == mul_mod(other.y, mul_mod(z1z1, self.z, c.p), c.p)
        } else {
            false
        }
    }

    /// Sets `self = 2 * self`, in place. Jacobian formulae are incomplete,
    /// so doubling is never computed as `self + self`; the specialized
    /// doubling formula for the curve's `a` applies instead. Doubling the
    /// identity leaves it unchanged.
    pub fn double_in_place(&mut self, c: &Curve)
        requires
            c.wf(),
            old(self).wf(c@),
        ensures
            final(self)@ == double_spec(old(self)@, c@),
            final(self).wf(c@),
    {
        if self.is_zero() {
            return;
        }
        let p: u64 = c.p;
        if c.a == 0 {
            let a: u64 = mul_mod(self.x, self.x, p);
            let b: u64 = mul_mod(self.y, self.y, p);
            let cc: u64 = mul_mod(b, b, p);
            let t: u64 = mul_mod(self.x, b, p);
            let t2: u64 = add_mod(t, t, p);
            let d: u64 = add_mod(t2, t2, p);
            let e: u64 = add_mod(a, add_mod(a, a, p), p);
            let zy: u64 = mul_mod(self.z, self.y, p);
            let z3: u64 = add_mod(zy, zy, p);
            let x3: u64 = sub_mod(mul_mod(e, e, p), add_mod(d, d, p), p);
            let c2: u64 = add_mod(cc, cc, p);
            let c4: u64 = add_mod(c2, c2, p);
            let c8: u64 = add_mod(c4, c4, p);
            let y3: u64 = sub_mod(mul_mod(sub_mod(d, x3, p), e, p), c8, p);
            self.x = x3;
            self.y = y3;
            self.z = z3;
        } else {
            let xx: u64 = mul_mod(self.x, self.x, p);
            let yy: u64 = mul_mod(self.y, self.y, p);
            let yyyy: u64 = mul_mod(yy, yy, p);
            let zz: u64 = mul_mod(self.z, self.z, p);
            let t1: u64 = add_mod(self.x, yy, p);
            let t2: u64 = sub_mod(sub_mod(mul_mod(t1, t1, p), xx, p), yyyy, p);
            let s: u64 = add_mod(t2, t2, p);
            let m: u64 = add_mod(add_mod(add_mod(xx, xx, p), xx, p), c.mul_by_a(mul_mod(zz, zz, p)), p);
            let x3: u64 = sub_mod(mul_mod(m, m, p), add_mod(s, s, p), p);
            let zy: u64 = mul_mod(self.z, self.y, p);
            let z3: u64 = add_mod(zy, zy, p);
            let y4: u64 = add_mod(yyyy, yyyy, p);
            let y8: u64 = add_mod(add_mod(y4, y4, p), add_mod(y4, y4, p), p);
            let y3: u64 = sub_mod(mul_mod(sub_mod(s, x3, p), m, p), y8, p);
            self.x = x3;
            self.y = y3;
            self.z = z3;
        }
    }

    /// Mixed addition: `self += other` for an affine `other`
    /// (formula madd-2007-bl). Cheaper than general addition because the
    /// affine operand's `z` is implicitly one.
    pub fn add_assign_affine(&mut self, other: &Affine, c: &Curve)
        requires
            c.wf(),
            old(self).wf(c@),
            aff_wf(other@, c@),
        ensures
            final(self)@ == add_mixed_spec(old(self)@, other@, c@),
            final(self).wf(c@),
    {
        if let Some((other_x, other_y)) = other.xy() {
            if self.is_zero() {
                self.x = other_x;
                self.y = other_y;
                self.z = 1;
                return;
            }
            let p: u64 = c.p;
            let z1z1: u64 = mul_mod(self.z, self.z, p);
            let u2: u64 = mul_mod(other_x, z1z1, p);
            let s2: u64 = mul_mod(mul_mod(self.z, other_y, p), z1z1, p);
            if self.x == u2 {
                if self.y == s2 {
                    // The two points are equal, so we double.
                    self.double_in_place(c);
                } else {
                    // The points are additive inverses of each other.
                    *self = Self::zero();
                }
            } else {
                let h: u64 = sub_mod(u2, self.x, p);
                let hh: u64 = mul_mod(h, h, p);
                let i2: u64 = add_mod(hh, hh, p);
                let i: u64 = add_mod(i2, i2, p);
                let jj: u64 = mul_mod(neg_mod(h, p), i, p);
                let rt: u64 = sub_mod(s2, self.y, p);
                let r: u64 = add_mod(rt, rt, p);
                let v: u64 = mul_mod(self.x, i, p);
                let x3: u64 = sub_mod(add_mod(mul_mod(r, r, p), jj, p), add_mod(v, v, p), p);
                let y3: u64 = add_mod(
                    mul_mod(r, sub_mod(v, x3, p), p),
                    mul_mod(add_mod(self.y, self.y, p), jj, p),
                    p,
                );
                let zh: u64 = mul_mod(self.z, h, p);
                let z3: u64 = add_mod(zh, zh, p);
                self.x = x3;
                self.y = y3;
                self.z = z3;
            }
        }
    }

    /// General addition: `self += other` for a projective `other`
    /// (formula add-2007-bl), which works for all curves. Adding the
    /// identity on either side returns the other operand unchanged.
    pub fn add_assign(&mut self, other: &Self, c: &Curve)
        requires
            c.wf(),
            old(self).wf(c@),
            other.wf(c@),
        ensures
            final(self)@ == add_spec(old(self)@, other@, c@),
            final(self).wf(c@),
    {
        if self.is_zero() {
            *self = *other;
            return;
        }
        if other.is_zero() {
            return;
        }
        let p: u64 = c.p;
        let z1z1: u64 = mul_mod(self.z, self.z, p);
        let z2z2: u64 = mul_mod(other.z, other.z, p);
        let u1: u64 = mul_mod(self.x, z2z2, p);
        let u2: u64 = mul_mod(other.x, z1z1, p);
        let s1: u64 = mul_mod(mul_mod(self.y, other.z, p), z2z2, p);
        let s2: u64 = mul_mod(mul_mod(other.y, self.z, p), z1z1, p);
        if u1 == u2 {
            if s1 == s2 {
                // The two points are equal, so we double.
                self.double_in_place(c);
            } else {
                // The points are additive inverses of each other.
                *self = Self::zero();
            }
        } else {
            let h: u64 = sub_mod(u2, u1, p);
            let h2: u64 = add_mod(h, h, p);
            let i: u64 = mul_mod(h2, h2, p);
            let jj: u64 = mul_mod(neg_mod(h, p), i, p);
            let rt: u64 = sub_mod(s2, s1, p);
            let r: u64 = add_mod(rt, rt, p);
            let v: u64 = mul_mod(u1, i, p);
            let x3: u64 = sub_mod(add_mod(mul_mod(r, r, p), jj, p), add_mod(v, v, p), p);
            let y3: u64 = add_mod(
                mul_mod(r, sub_mod(v, x3, p), p),
                mul_mod(add_mod(s1, s1, p), jj, p),
                p,
            );
            let zz12: u64 = mul_mod(self.z, other.z, p);
            let z3: u64 = mul_mod(add_mod(zz12, zz12, p), h, p);
            self.x = x3;
            self.y = y3;
            self.z = z3;
        }
    }

    /// `self + other` for projective operands.
    pub fn add(self, other: &Self, c: &Curve) -> (r: Self)
        requires
            c.wf(),
            self.wf(c@),
            other.wf(c@),
        ensures
            r@ == add_spec(self@, other@, c@),
            r.wf(c@),
    {
        let mut s: Projective = self;
        s.add_assign(other, c);
        s
    }

    /// `self + other` for an affine `other`.
    pub fn add_affine(self, other: &Affine, c: &Curve) -> (r: Self)
        requires
            c.wf(),
            self.wf(c@),
            aff_wf(other@, c@),
        ensures
            r@ == add_mixed_spec(self@, other@, c@),
            r.wf(c@),
    {
        let mut s: Projective = self;
        s.add_assign_affine(other, c);
        s
    }

    /// Subtraction is addition of the negation; there is no separate
    /// formula.
    pub fn sub_assign(&mut self, other: &Self, c: &Curve)
        requires
            c.wf(),
            old(self).wf(c@),
            other.wf(c@),
        ensures
            final(self)@ == add_spec(old(self)@, neg_spec(other@, c@), c@),
            final(self).wf(c@),
    {
        let n: Projective = (*other).neg(c);
        self.add_assign(&n, c);
    }

    /// `self - other` for projective operands.
    pub fn sub(self, other: &Self, c: &Curve) -> (r: Self)
        requires
            c.wf(),
            self.wf(c@),
            other.wf(c@),
        ensures
            r@ == add_spec(self@, neg_spec(other@, c@), c@),
            r.wf(c@),
    {
        let mut s: Projective = self;
        s.sub_assign(other, c);
        s
    }

    /// `self -= other` for an affine `other`: mixed addition of the negated
    /// operand.
    pub fn sub_assign_affine(&mut self, other: &Affine, c: &Curve)
        requires
            c.wf(),
            old(self).wf(c@),
            aff_wf(other@, c@),
        ensures
            final(self)@ == add_mixed_spec(old(self)@, aff_neg(other@, c@), c@),
            final(self).wf(c@),
    {
        let n: Affine = (*other).neg(c);
        self.add_assign_affine(&n, c);
    }

    /// `self - other` for an affine `other`.
    pub fn sub_affine(self, other: &Affine, c: &Curve) -> (r: Self)
        requires
            c.wf(),
            self.wf(c@),
            aff_wf(other@, c@),
        ensures
            r@ == add_mixed_spec(self@, aff_neg(other@, c@), c@),
            r.wf(c@),
    {
        let mut s: Projective = self;
        s.sub_assign_affine(other, c);
        s
    }

    /// Scalar multiplication: `k * self` by binary double-and-add over the
    /// bits of `k`. The group-law contracts of doubling and addition are the
    /// only facts this relies on, so a curve may substitute any equivalent
    /// strategy.
    pub fn mul_bigint(&self, k: u64, c: &Curve) -> (r: Self)
        requires
            c.wf(),
            self.wf(c@),
        ensures
            r@ == scale_spec(self@, k as nat, c@),
            r.wf(c@),
        decreases k,
    {
        if k == 0 {
            Self::zero()
        } else {
            let mut h: Projective = self.mul_bigint(k / 2, c);
            h.double_in_place(c);
            if k % 2 == 1 {
                h.add_assign(self, c);
            }
            h
        }
    }

    /// The canonical affine representative of this point, via one field
    /// inversion. Hashing a point goes through this canonical form, never
    /// through the raw triple, so that it can agree with equality.
    pub fn to_affine(&self, c: &Curve) -> (r: Affine)
        requires
            c.wf(),
            self.wf(c@),
        ensures
            r@ == to_affine_spec(self@, c@),
            aff_wf(r@, c@),
    {
        if self.is_zero() {
            return Affine::identity();
        }
        let zi: u64 = inv_mod(self.z, c.p);
        let zi2: u64 = mul_mod(zi, zi, c.p);
        let x: u64 = mul_mod(self.x, zi2, c.p);
        let y: u64 = mul_mod(mul_mod(self.y, zi2, c.p), zi, c.p);
        Affine::new_unchecked(x, y)
    }

    /// The projective lift of an affine point: `z = 1`, or the identity for
    /// the point at infinity.
    pub fn from_affine(q: &Affine) -> (r: Self)
        ensures
            r@ == lift_spec(q@),
    {
        if let Some((x, y)) = q.xy() {
            Projective { x, y, z: 1 }
        } else {
            Self::zero()
        }
    }

    /// Checked construction: the raw triple is normalized to affine form and
    /// admitted only if it satisfies the curve equation and lies in the
    /// subgroup of the curve's stated order; any other input is rejected, so
    /// an invalid-curve or small-subgroup point never enters the arithmetic.
    pub fn new(x: u64, y: u64, z: u64, c: &Curve) -> (r: Option<Self>)
        requires
            c.wf(),
            x < c.p,
            y < c.p,
            z < c.p,
        ensures
            ({
                let q = to_affine_spec(Jac { x: x as int, y: y as int, z: z as int }, c@);
                &&& (r is Some <==> aff_on_curve(q, c@) && in_subgroup_spec(lift_spec(q), c@))
                &&& (r matches Some(pt) ==> pt@ == lift_spec(q) && pt.wf(c@))
            }),
    {
        let pt: Projective = Self::new_unchecked(x, y, z);
        let q: Affine = pt.to_affine(c);
        if !q.is_on_curve(c) {
            return None;
        }
        let lifted: Projective = Self::from_affine(&q);
        let m: Projective = lifted.mul_bigint(c.order, c);
        if m.is_zero() {
            Some(lifted)
        } else {
            None
        }
    }

    /// Normalizes a whole sequence of projective points to affine form, in
    /// order, spending one shared field inversion over all nonzero `z`
    /// coordinates instead of one inversion per point. An identity input
    /// yields the affine identity marker at the same position.
    pub fn normalize_batch(v: &Vec<Projective>, c: &Curve) -> (r: Vec<Affine>)
        requires
            c.wf(),
            forall|i: int| 0 <= i < v@.len() ==> #[trigger] v@[i].wf(c@),
        ensures
            r@.len() == v@.len(),
            forall|i: int| 0 <= i < v@.len() ==> #[trigger] r@[i]@ == to_affine_spec(v@[i]@, c@),
    {
        let n: usize = v.len();
        let mut z_s: Vec<u64> = Vec::new();
        let mut idx: usize = 0;
        while idx < n
            invariant
                n == v@.len(),
                forall|i: int| 0 <= i < v@.len() ==> #[trigger] v@[i].wf(c@),
                0 <= idx <= n,
                z_s@.len() == idx,
                forall|i: int| 0 <= i < idx ==> #[trigger] z_s@[i] == v@[i].z,
            decreases n - idx,
        {
            z_s.push(v[idx].z);
            idx = idx + 1;
        }
        proof {
            assert forall|t: int| 0 <= t < z_s@.len() implies z_s@[t] < c.p by {
                assert(v@[t].wf(c@));
            }
        }
        let invs: Vec<u64> = batch_invert(&z_s, c.p);
        let mut out: Vec<Affine> = Vec::new();
        let mut i: usize = 0;
        while i < n
            invariant
                n == v@.len(),
                c.wf(),
                forall|t: int| 0 <= t < v@.len() ==> #[trigger] v@[t].wf(c@),
                z_s@.len() == n,
                invs@.len() == n,
                forall|t: int| 0 <= t < n ==> #[trigger] z_s@[t] == v@[t].z,
                forall|t: int| 0 <= t < n && z_s@[t] != 0 ==> invs@[t] < c.p
                    && invs@[t] == finv(z_s@[t] as int, c@.p),
                0 <= i <= n,
                out@.len() == i,
                forall|t: int| 0 <= t < i ==> #[trigger] out@[t]@ == to_affine_spec(v@[t]@, c@),
            decreases n - i,
        {
            let g: Projective = v[i];
            if g.is_zero() {
                out.push(Affine::identity());
            } else {
                let zi: u64 = invs[i];
                let z2: u64 = mul_mod(zi, zi, c.p);
                let x: u64 = mul_mod(g.x, z2, c.p);
                let y: u64 = mul_mod(mul_mod(g.y, z2, c.p), zi, c.p);
                out.push(Affine::new_unchecked(x, y));
            }
            i = i + 1;
        }
        out
    }

    /// The sum of a sequence of affine points: repeated mixed addition
    /// starting from the identity, in sequence order (the group is
    /// commutative, so any order denotes the same element).
    pub fn sum(points: &Vec<Affine>, c: &Curve) -> (r: Self)
        requires
            c.wf(),
            forall|i: int| 0 <= i < points@.len() ==> #[trigger] aff_wf(points@[i]@, c@),
        ensures
            r@ == sum_spec(points@, c@),
            r.wf(c@),
    {
        let n: usize = points.len();
        let mut acc: Projective = Self::zero();
        let mut i: usize = 0;
        while i < n
            invariant
                n == points@.len(),
                c.wf(),
                forall|t: int| 0 <= t < points@.len() ==> #[trigger] aff_wf(points@[t]@, c@),
                0 <= i <= n,
                acc@ == sum_spec(points@.take(i as int), c@),
                acc.wf(c@),
            decreases n - i,
        {
            proof {
                assert(points@.take(i as int + 1).drop_last() =~= points@.take(i as int));
                assert(points@.take(i as int + 1).last() == points@[i as int]);
            }
            acc.add_assign_affine(&points[i], c);
            i = i + 1;
        }
        proof {
            assert(points@.take(n as int) =~= points@);
        }
        acc
    }

    /// The curve's chosen generator, lifted to projective coordinates.
    pub fn generator(c: &Curve) -> (r: Self)
        requires
            c.wf(),
        ensures
            r@ == (Jac { x: c@.gx, y: c@.gy, z: 1 }),
            r.wf(c@),
    {
        Projective { x: c.gx, y: c.gy, z: 1 }
    }
}

impl Default for Projective {
    /// The default point is the group identity.
    fn default() -> (r: Self)
        ensures
            r@ == identity_spec(),
    {
        Projective { x: 1, y: 1, z: 0 }
    }
}

} // verus!
