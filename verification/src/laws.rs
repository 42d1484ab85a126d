//! The group laws that the Jacobian formulas satisfy, stated over the spec
//! functions of the point operations and proved once, for every curve and
//! every well-formed input.

use vstd::prelude::*;
use vstd::arithmetic::div_mod::{
    lemma_mod_add_multiples_vanish, lemma_mod_multiples_basic, lemma_mod_self_0, lemma_small_mod,
};
use crate::affine::{aff_wf, Aff};
use crate::curve::CurveModel;
use crate::field::{
    fadd, fmul, fneg, fsub, finv, prime_field, lemma_cancel, lemma_fadd_mods, lemma_fdbl_zero_iff,
    lemma_finv_works, lemma_fmul3,
    lemma_fmul_comm, lemma_fmul_mods, lemma_fmul_one, lemma_fmul_zero, lemma_fsub_antisym,
    lemma_fsub_is_mod, lemma_fsub_mods, lemma_inverse_unique, lemma_mod_eq_multiple,
    lemma_no_zero_divisors,
};
use crate::projective::{
    add_mixed_spec, add_spec, double_a0_spec, double_general_spec, double_spec, eq_spec,
    identity_spec, is_identity_spec, jac_wf, lift_spec, neg_spec, scale_spec, to_affine_spec, Jac,
};

verus! {

/// Identity laws: adding the identity on either side leaves the point
/// unchanged (exactly as a triple on the left, and up to group equality on
/// the right), the affine identity is a no-op for mixed addition, and the
/// identity doubles to itself.
pub proof fn lemma_identity_laws(j: Jac, c: CurveModel)
    requires
        prime_field(c.p),
        jac_wf(j, c),
    ensures
        add_spec(identity_spec(), j, c) == j,
        eq_spec(add_spec(j, identity_spec(), c), j, c),
        add_mixed_spec(j, Aff { x: 0, y: 0, infinity: true }, c) == j,
        double_spec(identity_spec(), c) == identity_spec(),
{
}

/// A point and its negation sum to the identity: either the inverse branch
/// fires, or, for a point that is its own negation (`y = 0`), the doubling
/// branch produces a zero `z`.
pub proof fn lemma_add_neg(j: Jac, c: CurveModel)
    requires
        prime_field(c.p),
        jac_wf(j, c),
    ensures
        is_identity_spec(add_spec(j, neg_spec(j, c), c)),
{
    let p = c.p;
    if j.z != 0 {
        let zz = fmul(j.z, j.z, p);
        let s1 = fmul(fmul(j.y, j.z, p), zz, p);
        let s2 = fmul(fmul(fneg(j.y, p), j.z, p), zz, p);
        if j.y == 0 {
            // the point is its own negation: the doubling branch fires and
            // its new z coordinate is 2*z*y == 0.
            lemma_mod_self_0(p);
            assert(fneg(0, p) == 0);
            lemma_fmul_zero(j.z, p);
            lemma_small_mod(0, p as nat);
            assert(is_identity_spec(double_spec(j, c)));
        } else {
            // s1 + s2 is a multiple of p, so s1 == s2 would force s1 == 0,
            // but s1 is a product of nonzero elements.
            lemma_small_mod((p - j.y) as nat, p as nat);
            assert(fneg(j.y, p) == p - j.y);
            lemma_fmul_mods(j.y * j.z, zz, p);
            lemma_fmul_mods((p - j.y) * j.z, zz, p);
            assert(s1 == (j.y * j.z * zz) % p);
            assert(s2 == ((p - j.y) * j.z * zz) % p);
            if s1 == s2 {
                lemma_fadd_mods(j.y * j.z * zz, (p - j.y) * j.z * zz, p);
                assert(j.y * j.z * zz + (p - j.y) * j.z * zz == (j.z * zz) * p)
                    by (nonlinear_arith);
                lemma_mod_multiples_basic(j.z * zz, p);
                lemma_fdbl_zero_iff(s1, p);
                // s1 == 0, yet every factor of s1 is nonzero
                lemma_no_zero_divisors(j.y, j.z, p);
                lemma_no_zero_divisors(j.z, j.z, p);
                lemma_no_zero_divisors(fmul(j.y, j.z, p), zz, p);
                assert(false);
            }
        }
    }
}

/// Doubling consistency: general addition of a point to itself always lands
/// in its doubling branch, so `P + P` and `double(P)` are the same triple,
/// even though a caller of doubling never goes through the addition formula.
pub proof fn lemma_double_is_self_add(j: Jac, c: CurveModel)
    ensures
        add_spec(j, j, c) == double_spec(j, c),
{
}

/// Scalar multiplication boundaries: scaling by zero gives the identity, by
/// one the point itself, by two its doubling.
pub proof fn lemma_scale_boundaries(j: Jac, c: CurveModel)
    ensures
        scale_spec(j, 0, c) == identity_spec(),
        scale_spec(j, 1, c) == j,
        scale_spec(j, 2, c) == double_spec(j, c),
{
    assert(scale_spec(j, 0, c) == identity_spec());
    assert(scale_spec(j, 1, c) == add_spec(double_spec(identity_spec(), c), j, c));
    assert(scale_spec(j, 2, c) == double_spec(scale_spec(j, 1, c), c));
}

/// Round trip: normalizing the projective lift of a well-formed affine point
/// returns exactly that point.
pub proof fn lemma_lift_round_trip(q: Aff, c: CurveModel)
    requires
        prime_field(c.p),
        aff_wf(q, c),
    ensures
        to_affine_spec(lift_spec(q), c) == q,
{
    let p = c.p;
    if !q.infinity {
        // z = 1 inverts to 1, and multiplying by 1 changes nothing.
        lemma_finv_works(1, p);
        lemma_fmul_one(finv(1, p), p);
        assert(finv(1, p) == 1);
        lemma_fmul_one(1, p);
        lemma_fmul_one(q.x, p);
        lemma_fmul_one(q.y, p);
    }
}

/// Scaling invariance of equality: multiplying a triple by `(k^2, k^3, k)`
/// for any nonzero field element `k` yields an equal group element, so
/// equality is a predicate on group elements, not on representations.
pub proof fn lemma_scaling_invariance(j: Jac, k: int, c: CurveModel)
    requires
        prime_field(c.p),
        jac_wf(j, c),
        0 < k < c.p,
    ensures
        ({
            let kk = fmul(k, k, c.p);
            let scaled = Jac {
                x: fmul(kk, j.x, c.p),
                y: fmul(fmul(kk, k, c.p), j.y, c.p),
                z: fmul(k, j.z, c.p),
            };
            eq_spec(scaled, j, c)
        }),
{
    let p = c.p;
    let kk = fmul(k, k, p);
    let kkk = fmul(kk, k, p);
    let scaled = Jac {
        x: fmul(kk, j.x, p),
        y: fmul(kkk, j.y, p),
        z: fmul(k, j.z, p),
    };
    if j.z == 0 {
        lemma_fmul_zero(k, p);
    } else {
        lemma_no_zero_divisors(k, j.z, p);
        let sz = fmul(k, j.z, p);
        // the x clause: (k^2 x) * z^2 == x * (k z)^2 modulo p
        lemma_fmul_mods(k * k, j.x, p);
        assert(scaled.x == ((k * k) * j.x) % p);
        lemma_fmul_mods(k * j.z, k * j.z, p);
        assert(fmul(sz, sz, p) == ((k * j.z) * (k * j.z)) % p);
        lemma_fmul_mods((k * k) * j.x, j.z * j.z, p);
        lemma_fmul_mods(j.x, (k * j.z) * (k * j.z), p);
        assert(((k * k) * j.x) * (j.z * j.z) == j.x * ((k * j.z) * (k * j.z)))
            by (nonlinear_arith);
        // the y clause: (k^3 y) * z^3 == y * (k z)^3 modulo p
        lemma_fmul_mods((k * k) * k, j.y, p);
        assert(kkk == ((k * k) * k) % p) by {
            lemma_fmul_mods(k * k, k, p);
        }
        lemma_fmul_mods(((k * k) * k) * j.y, (j.z * j.z) * j.z, p);
        assert(fmul(fmul(j.z, j.z, p), j.z, p) == ((j.z * j.z) * j.z) % p) by {
            lemma_fmul_mods(j.z * j.z, j.z, p);
        }
        assert(fmul(fmul(sz, sz, p), sz, p) == (((k * j.z) * (k * j.z)) * (k * j.z)) % p) by {
            lemma_fmul_mods((k * j.z) * (k * j.z), k * j.z, p);
        }
        lemma_fmul_mods(j.y, ((k * j.z) * (k * j.z)) * (k * j.z), p);
        assert((((k * k) * k) * j.y) * ((j.z * j.z) * j.z)
            == j.y * (((k * j.z) * (k * j.z)) * (k * j.z))) by (nonlinear_arith);
    }
}

/// Mixed addition agrees with general addition against the projective lift
/// (`z = 1`) of the affine operand, case for case.
pub proof fn lemma_mixed_matches_general(j: Jac, q: Aff, c: CurveModel)
    requires
        prime_field(c.p),
        jac_wf(j, c),
        aff_wf(q, c),
    ensures
        eq_spec(add_mixed_spec(j, q, c), add_spec(j, lift_spec(q), c), c),
{
    let p = c.p;
    if !q.infinity && j.z != 0 {
        let l = lift_spec(q);
        let z1z1 = fmul(j.z, j.z, p);
        // the lift's z is one, so its squares and the u1/s1 terms collapse
        lemma_fmul_one(1, p);
        assert(fmul(l.z, l.z, p) == 1);
        lemma_fmul_one(j.x, p);
        lemma_fmul_one(j.y, p);
        lemma_fmul_one(j.z, p);
        assert(fmul(j.x, fmul(l.z, l.z, p), p) == j.x);
        assert(fmul(fmul(j.y, l.z, p), fmul(l.z, l.z, p), p) == j.y);
        lemma_fmul_comm(j.z, q.y, p);
        let u2 = fmul(q.x, z1z1, p);
        let s2 = fmul(fmul(j.z, q.y, p), z1z1, p);
        if j.x == u2 && j.y == s2 {
            // both sides double the projective operand
        } else if j.x == u2 {
            // both sides return the identity
        } else {
            // generic case: every intermediate value coincides; the two
            // formulas only associate the doublings differently.
            let h = fsub(u2, j.x, p);
            let hh = fmul(h, h, p);
            let i2 = fadd(hh, hh, p);
            let im = fadd(i2, i2, p);
            let h2 = fadd(h, h, p);
            let ig = fmul(h2, h2, p);
            lemma_fadd_mods(h * h, h * h, p);
            lemma_fadd_mods(h * h + h * h, h * h + h * h, p);
            lemma_fmul_mods(h + h, h + h, p);
            assert((h * h + h * h) + (h * h + h * h) == (h + h) * (h + h)) by (nonlinear_arith);
            assert(im == ig);
            // the z coordinate: 2*(z*h) against (2*z)*h
            lemma_fadd_mods(j.z * h, j.z * h, p);
            lemma_fmul_mods(j.z + j.z, h, p);
            assert((j.z * h) + (j.z * h) == (j.z + j.z) * h) by (nonlinear_arith);
        }
    }
}

/// The doubling formula for curves with `a = 0`, flattened: each output
/// coordinate is the residue of one plain integer polynomial in
/// representatives of the inputs.
proof fn lemma_double_a0_flat(j: Jac, xr: int, yr: int, zr: int, p: int)
    requires
        0 < p,
        j.x == xr % p,
        j.y == yr % p,
        j.z == zr % p,
    ensures
        ({
            let aa = xr * xr;
            let bb = yr * yr;
            let t2 = (xr * bb) + (xr * bb);
            let dd = t2 + t2;
            let ee = aa + (aa + aa);
            let cc = bb * bb;
            let c4 = (cc + cc) + (cc + cc);
            let c8 = c4 + c4;
            let x3 = ee * ee - (dd + dd);
            &&& double_a0_spec(j, p).x == x3 % p
            &&& double_a0_spec(j, p).y == ((dd - x3) * ee - c8) % p
            &&& double_a0_spec(j, p).z == ((zr * yr) + (zr * yr)) % p
        }),
{
    let aa = xr * xr;
    let bb = yr * yr;
    let t2 = (xr * bb) + (xr * bb);
    let dd = t2 + t2;
    let ee = aa + (aa + aa);
    let cc = bb * bb;
    let c4 = (cc + cc) + (cc + cc);
    let c8 = c4 + c4;
    let x3 = ee * ee - (dd + dd);
    lemma_fmul_mods(xr, xr, p);
    lemma_fmul_mods(yr, yr, p);
    lemma_fmul_mods(bb, bb, p);
    lemma_fmul_mods(xr, bb, p);
    lemma_fadd_mods(xr * bb, xr * bb, p);
    lemma_fadd_mods(t2, t2, p);
    lemma_fadd_mods(aa, aa, p);
    lemma_fadd_mods(aa, aa + aa, p);
    lemma_fmul_mods(zr, yr, p);
    lemma_fadd_mods(zr * yr, zr * yr, p);
    lemma_fmul_mods(ee, ee, p);
    lemma_fadd_mods(dd, dd, p);
    lemma_fsub_mods(ee * ee, dd + dd, p);
    lemma_fadd_mods(cc, cc, p);
    lemma_fadd_mods(cc + cc, cc + cc, p);
    lemma_fadd_mods(c4, c4, p);
    lemma_fsub_mods(dd, x3, p);
    lemma_fmul_mods(dd - x3, ee, p);
    lemma_fsub_mods((dd - x3) * ee, c8, p);
}

/// The doubling formula for a general curve constant, flattened in the same
/// way (the constant `av` is already reduced).
proof fn lemma_double_gen_flat(j: Jac, xr: int, yr: int, zr: int, av: int, c: CurveModel)
    requires
        0 < c.p,
        c.a == av,
        j.x == xr % c.p,
        j.y == yr % c.p,
        j.z == zr % c.p,
    ensures
        ({
            let xx = xr * xr;
            let yy = yr * yr;
            let yyyy = yy * yy;
            let t1 = xr + yy;
            let t2 = t1 * t1 - xx - yyyy;
            let ss = t2 + t2;
            let mm = ((xx + xx) + xx) + av * ((zr * zr) * (zr * zr));
            let x3 = mm * mm - (ss + ss);
            let y4 = yyyy + yyyy;
            let y8 = (y4 + y4) + (y4 + y4);
            &&& double_general_spec(j, c).x == x3 % c.p
            &&& double_general_spec(j, c).y == ((ss - x3) * mm - y8) % c.p
            &&& double_general_spec(j, c).z == ((zr * yr) + (zr * yr)) % c.p
        }),
{
    let p = c.p;
    let xx = xr * xr;
    let yy = yr * yr;
    let yyyy = yy * yy;
    let t1 = xr + yy;
    let t2 = t1 * t1 - xx - yyyy;
    let ss = t2 + t2;
    let mm = ((xx + xx) + xx) + av * ((zr * zr) * (zr * zr));
    let x3 = mm * mm - (ss + ss);
    let y4 = yyyy + yyyy;
    let y8 = (y4 + y4) + (y4 + y4);
    lemma_fmul_mods(xr, xr, p);
    lemma_fmul_mods(yr, yr, p);
    lemma_fmul_mods(yy, yy, p);
    lemma_fmul_mods(zr, zr, p);
    lemma_fadd_mods(xr, yy, p);
    lemma_fmul_mods(t1, t1, p);
    lemma_fsub_mods(t1 * t1, xx, p);
    lemma_fsub_mods(t1 * t1 - xx, yyyy, p);
    lemma_fadd_mods(t2, t2, p);
    lemma_fadd_mods(xx, xx, p);
    lemma_fadd_mods(xx + xx, xx, p);
    lemma_fmul_mods(zr * zr, zr * zr, p);
    lemma_fmul_mods(av, (zr * zr) * (zr * zr), p);
    lemma_fadd_mods((xx + xx) + xx, av * ((zr * zr) * (zr * zr)), p);
    lemma_fmul_mods(mm, mm, p);
    lemma_fadd_mods(ss, ss, p);
    lemma_fsub_mods(mm * mm, ss + ss, p);
    lemma_fmul_mods(zr, yr, p);
    lemma_fadd_mods(zr * yr, zr * yr, p);
    lemma_fadd_mods(yyyy, yyyy, p);
    lemma_fadd_mods(y4, y4, p);
    lemma_fadd_mods(y4 + y4, y4 + y4, p);
    lemma_fsub_mods(ss, x3, p);
    lemma_fmul_mods(ss - x3, mm, p);
    lemma_fsub_mods((ss - x3) * mm, y8, p);
}

/// Two triples whose coordinates are residues of `(x, y, z)` and of
/// `(k^8 x, k^12 y, k^4 z)` for an invertible `k^4` compare equal under
/// projective equivalence.
proof fn lemma_scaled_double_eq(
    d1: Jac,
    d2: Jac,
    xp: int,
    yp: int,
    zp: int,
    k4: int,
    k8: int,
    k12: int,
    k4r: int,
    c: CurveModel,
)
    requires
        prime_field(c.p),
        d1.x == xp % c.p,
        d1.y == yp % c.p,
        d1.z == zp % c.p,
        d2.x == (k8 * xp) % c.p,
        d2.y == (k12 * yp) % c.p,
        d2.z == (k4 * zp) % c.p,
        k4r == k4 % c.p,
        0 < k4r < c.p,
        k8 == k4 * k4,
        k12 == k8 * k4,
    ensures
        eq_spec(d1, d2, c),
{
    let p = c.p;
    lemma_fmul_mods(k4, zp, p);
    assert(d2.z == fmul(k4r, d1.z, p));
    if d1.z == 0 {
        lemma_fmul_zero(k4r, p);
    } else {
        if d2.z == 0 {
            lemma_no_zero_divisors(k4r, d1.z, p);
        }
        lemma_fmul_mods(k4 * zp, k4 * zp, p);
        lemma_fmul_mods(zp, zp, p);
        lemma_fmul_mods(xp, (k4 * zp) * (k4 * zp), p);
        lemma_fmul_mods(k8 * xp, zp * zp, p);
        assert(xp * ((k4 * zp) * (k4 * zp)) == (k8 * xp) * (zp * zp)) by (nonlinear_arith)
            requires
                k8 == k4 * k4,
        ;
        assert(fmul(d1.x, fmul(d2.z, d2.z, p), p) == fmul(d2.x, fmul(d1.z, d1.z, p), p));
        lemma_fmul_mods((k4 * zp) * (k4 * zp), k4 * zp, p);
        lemma_fmul_mods(zp * zp, zp, p);
        lemma_fmul_mods(yp, ((k4 * zp) * (k4 * zp)) * (k4 * zp), p);
        lemma_fmul_mods(k12 * yp, (zp * zp) * zp, p);
        assert(yp * (((k4 * zp) * (k4 * zp)) * (k4 * zp)) == (k12 * yp) * ((zp * zp) * zp))
            by (nonlinear_arith)
            requires
                k8 == k4 * k4,
                k12 == k8 * k4,
        ;
        assert(fmul(d1.y, fmul(fmul(d2.z, d2.z, p), d2.z, p), p)
            == fmul(d2.y, fmul(fmul(d1.z, d1.z, p), d1.z, p), p));
    }
}

/// Doubling is well defined on group elements: two projective
/// representations of one group element double to representations of one
/// group element, on either doubling formula.
pub proof fn lemma_double_respects_eq(j1: Jac, j2: Jac, c: CurveModel)
    requires
        prime_field(c.p),
        jac_wf(j1, c),
        jac_wf(j2, c),
        eq_spec(j1, j2, c),
    ensures
        eq_spec(double_spec(j1, c), double_spec(j2, c), c),
{
    let p = c.p;
    if j1.z != 0 && j2.z != 0 {
        let x1 = j1.x;
        let y1 = j1.y;
        let z1 = j1.z;
        // the scaling factor k = z2 / z1 between the representations
        lemma_finv_works(z1, p);
        let w = finv(z1, p);
        if w == 0 {
            lemma_fmul_zero(z1, p);
        }
        let k = fmul(j2.z, w, p);
        lemma_no_zero_divisors(j2.z, w, p);
        lemma_fmul3(j2.z, w, z1, p);
        lemma_fmul_comm(w, z1, p);
        lemma_fmul_one(j2.z, p);
        assert(fmul(k, z1, p) == j2.z);
        let kk = fmul(k, k, p);
        let kkk = fmul(kk, k, p);
        lemma_no_zero_divisors(k, k, p);
        lemma_no_zero_divisors(kk, k, p);
        let z1z1 = fmul(z1, z1, p);
        let z2z2 = fmul(j2.z, j2.z, p);
        lemma_no_zero_divisors(z1, z1, p);
        // the second z squares and cubes to kk and kkk times the first's
        lemma_fmul_mods(k * z1, k * z1, p);
        lemma_fmul_mods(k * k, z1 * z1, p);
        assert((k * z1) * (k * z1) == (k * k) * (z1 * z1)) by (nonlinear_arith);
        assert(z2z2 == fmul(kk, z1z1, p));
        // cancel z1^2 in the x clause of the equality hypothesis
        lemma_fmul3(x1, kk, z1z1, p);
        lemma_fmul3(kk, x1, z1z1, p);
        assert(x1 * kk * z1z1 == kk * x1 * z1z1) by (nonlinear_arith);
        lemma_cancel(j2.x, fmul(kk, x1, p), z1z1, p);
        // cancel z1^3 in the y clause
        let z1c = fmul(z1z1, z1, p);
        lemma_no_zero_divisors(z1z1, z1, p);
        lemma_fmul_mods(k * k, k, p);
        lemma_fmul_mods(z1 * z1, z1, p);
        lemma_fmul_mods((k * k) * (z1 * z1), k * z1, p);
        lemma_fmul_mods((k * k) * k, (z1 * z1) * z1, p);
        assert(((k * k) * (z1 * z1)) * (k * z1) == ((k * k) * k) * ((z1 * z1) * z1))
            by (nonlinear_arith);
        assert(fmul(z2z2, j2.z, p) == fmul(kkk, z1c, p));
        lemma_fmul3(y1, kkk, z1c, p);
        lemma_fmul3(kkk, y1, z1c, p);
        assert(y1 * kkk * z1c == kkk * y1 * z1c) by (nonlinear_arith);
        lemma_cancel(j2.y, fmul(kkk, y1, p), z1c, p);
        // integer representatives of the second triple and of the powers of k
        let xi: int = (k * k) * x1;
        let yi: int = ((k * k) * k) * y1;
        let zi: int = k * z1;
        lemma_fmul_mods(k * k, x1, p);
        lemma_fmul_mods((k * k) * k, y1, p);
        assert(j2.x == xi % p);
        assert(j2.y == yi % p);
        assert(j2.z == zi % p);
        lemma_small_mod(x1 as nat, p as nat);
        lemma_small_mod(y1 as nat, p as nat);
        lemma_small_mod(z1 as nat, p as nat);
        let k4: int = (k * k) * (k * k);
        let k6: int = k4 * (k * k);
        let k8: int = k4 * k4;
        let k12: int = k8 * k4;
        let k4r = fmul(kk, kk, p);
        lemma_fmul_mods(k * k, k * k, p);
        assert(k4r == k4 % p);
        lemma_no_zero_divisors(kk, kk, p);
        // shared power facts
        assert(xi * xi == k4 * (x1 * x1)) by (nonlinear_arith)
            requires
                xi == (k * k) * x1,
                k4 == (k * k) * (k * k),
        ;
        assert(yi * yi == k6 * (y1 * y1)) by (nonlinear_arith)
            requires
                yi == ((k * k) * k) * y1,
                k6 == ((k * k) * (k * k)) * (k * k),
        ;
        assert((yi * yi) * (yi * yi) == k12 * ((y1 * y1) * (y1 * y1))) by (nonlinear_arith)
            requires
                yi * yi == k6 * (y1 * y1),
                k6 == k4 * (k * k),
                k4 == (k * k) * (k * k),
                k8 == k4 * k4,
                k12 == k8 * k4,
        ;
        assert((zi * yi) + (zi * yi) == k4 * ((z1 * y1) + (z1 * y1))) by (nonlinear_arith)
            requires
                zi == k * z1,
                yi == ((k * k) * k) * y1,
                k4 == (k * k) * (k * k),
        ;
        if c.a == 0 {
            lemma_double_a0_flat(j1, x1, y1, z1, p);
            lemma_double_a0_flat(j2, xi, yi, zi, p);
            let bb1 = y1 * y1;
            let t21 = (x1 * bb1) + (x1 * bb1);
            let dd1 = t21 + t21;
            let ee1 = (x1 * x1) + ((x1 * x1) + (x1 * x1));
            let cc1 = bb1 * bb1;
            let c81 = ((cc1 + cc1) + (cc1 + cc1)) + ((cc1 + cc1) + (cc1 + cc1));
            let x31 = ee1 * ee1 - (dd1 + dd1);
            let y31 = (dd1 - x31) * ee1 - c81;
            let z31 = (z1 * y1) + (z1 * y1);
            let bb2 = yi * yi;
            let t22 = (xi * bb2) + (xi * bb2);
            let dd2 = t22 + t22;
            let ee2 = (xi * xi) + ((xi * xi) + (xi * xi));
            let cc2 = bb2 * bb2;
            let c82 = ((cc2 + cc2) + (cc2 + cc2)) + ((cc2 + cc2) + (cc2 + cc2));
            let x32 = ee2 * ee2 - (dd2 + dd2);
            let y32 = (dd2 - x32) * ee2 - c82;
            let z32 = (zi * yi) + (zi * yi);
            assert(dd2 == k8 * dd1) by (nonlinear_arith)
                requires
                    xi == (k * k) * x1,
                    bb2 == k6 * bb1,
                    k6 == k4 * (k * k),
                    k4 == (k * k) * (k * k),
                    k8 == k4 * k4,
                    dd1 == ((x1 * bb1) + (x1 * bb1)) + ((x1 * bb1) + (x1 * bb1)),
                    dd2 == ((xi * bb2) + (xi * bb2)) + ((xi * bb2) + (xi * bb2)),
            ;
            assert(ee2 == k4 * ee1) by (nonlinear_arith)
                requires
                    xi * xi == k4 * (x1 * x1),
                    ee1 == (x1 * x1) + ((x1 * x1) + (x1 * x1)),
                    ee2 == (xi * xi) + ((xi * xi) + (xi * xi)),
            ;
            assert(c82 == k12 * c81) by (nonlinear_arith)
                requires
                    cc2 == k12 * cc1,
                    c81 == ((cc1 + cc1) + (cc1 + cc1)) + ((cc1 + cc1) + (cc1 + cc1)),
                    c82 == ((cc2 + cc2) + (cc2 + cc2)) + ((cc2 + cc2) + (cc2 + cc2)),
            ;
            assert(x32 == k8 * x31) by (nonlinear_arith)
                requires
                    ee2 == k4 * ee1,
                    dd2 == k8 * dd1,
                    k8 == k4 * k4,
                    x31 == ee1 * ee1 - (dd1 + dd1),
                    x32 == ee2 * ee2 - (dd2 + dd2),
            ;
            assert(y32 == k12 * y31) by (nonlinear_arith)
                requires
                    dd2 == k8 * dd1,
                    x32 == k8 * x31,
                    ee2 == k4 * ee1,
                    c82 == k12 * c81,
                    k8 == k4 * k4,
                    k12 == k8 * k4,
                    y31 == (dd1 - x31) * ee1 - c81,
                    y32 == (dd2 - x32) * ee2 - c82,
            ;
            lemma_scaled_double_eq(
                double_spec(j1, c),
                double_spec(j2, c),
                x31,
                y31,
                z31,
                k4,
                k8,
                k12,
                k4r,
                c,
            );
        } else {
            lemma_double_gen_flat(j1, x1, y1, z1, c.a, c);
            lemma_double_gen_flat(j2, xi, yi, zi, c.a, c);
            let av = c.a;
            let xx1 = x1 * x1;
            let yy1 = y1 * y1;
            let yyyy1 = yy1 * yy1;
            let t21 = (x1 + yy1) * (x1 + yy1) - xx1 - yyyy1;
            let ss1 = t21 + t21;
            let mm1 = ((xx1 + xx1) + xx1) + av * ((z1 * z1) * (z1 * z1));
            let x31 = mm1 * mm1 - (ss1 + ss1);
            let y41 = yyyy1 + yyyy1;
            let y81 = (y41 + y41) + (y41 + y41);
            let y31 = (ss1 - x31) * mm1 - y81;
            let z31 = (z1 * y1) + (z1 * y1);
            let xx2 = xi * xi;
            let yy2 = yi * yi;
            let yyyy2 = yy2 * yy2;
            let t22 = (xi + yy2) * (xi + yy2) - xx2 - yyyy2;
            let ss2 = t22 + t22;
            let mm2 = ((xx2 + xx2) + xx2) + av * ((zi * zi) * (zi * zi));
            let x32 = mm2 * mm2 - (ss2 + ss2);
            let y42 = yyyy2 + yyyy2;
            let y82 = (y42 + y42) + (y42 + y42);
            let y32 = (ss2 - x32) * mm2 - y82;
            let z32 = (zi * yi) + (zi * yi);
            assert((zi * zi) * (zi * zi) == k4 * ((z1 * z1) * (z1 * z1))) by (nonlinear_arith)
                requires
                    zi == k * z1,
                    k4 == (k * k) * (k * k),
            ;
            assert(mm2 == k4 * mm1) by (nonlinear_arith)
                requires
                    xx2 == k4 * xx1,
                    (zi * zi) * (zi * zi) == k4 * ((z1 * z1) * (z1 * z1)),
                    mm1 == ((xx1 + xx1) + xx1) + av * ((z1 * z1) * (z1 * z1)),
                    mm2 == ((xx2 + xx2) + xx2) + av * ((zi * zi) * (zi * zi)),
            ;
            assert((xi + yy2) * (xi + yy2) - (xi * xi) - (yy2 * yy2) == (xi * yy2) + (xi * yy2))
                by (nonlinear_arith);
            assert((x1 + yy1) * (x1 + yy1) - (x1 * x1) - (yy1 * yy1) == (x1 * yy1) + (x1 * yy1))
                by (nonlinear_arith);
            assert(xi * yy2 == k8 * (x1 * yy1)) by (nonlinear_arith)
                requires
                    xi == (k * k) * x1,
                    yy2 == k6 * yy1,
                    k6 == k4 * (k * k),
                    k4 == (k * k) * (k * k),
                    k8 == k4 * k4,
            ;
            assert(t22 == k8 * t21) by (nonlinear_arith)
                requires
                    t21 == (x1 + yy1) * (x1 + yy1) - xx1 - yyyy1,
                    xx1 == x1 * x1,
                    yyyy1 == yy1 * yy1,
                    t22 == (xi + yy2) * (xi + yy2) - xx2 - yyyy2,
                    xx2 == xi * xi,
                    yyyy2 == yy2 * yy2,
                    (xi + yy2) * (xi + yy2) - (xi * xi) - (yy2 * yy2) == (xi * yy2) + (xi * yy2),
                    (x1 + yy1) * (x1 + yy1) - (x1 * x1) - (yy1 * yy1) == (x1 * yy1) + (x1 * yy1),
                    xi * yy2 == k8 * (x1 * yy1),
            ;
            assert(ss2 == k8 * ss1) by (nonlinear_arith)
                requires
                    t22 == k8 * t21,
                    ss1 == t21 + t21,
                    ss2 == t22 + t22,
            ;
            assert(x32 == k8 * x31) by (nonlinear_arith)
                requires
                    mm2 == k4 * mm1,
                    ss2 == k8 * ss1,
                    k8 == k4 * k4,
                    x31 == mm1 * mm1 - (ss1 + ss1),
                    x32 == mm2 * mm2 - (ss2 + ss2),
            ;
            assert(y82 == k12 * y81) by (nonlinear_arith)
                requires
                    yyyy2 == k12 * yyyy1,
                    y81 == ((yyyy1 + yyyy1) + (yyyy1 + yyyy1)) + ((yyyy1 + yyyy1) + (yyyy1
                        + yyyy1)),
                    y82 == ((yyyy2 + yyyy2) + (yyyy2 + yyyy2)) + ((yyyy2 + yyyy2) + (yyyy2
                        + yyyy2)),
            ;
            assert(y32 == k12 * y31) by (nonlinear_arith)
                requires
                    ss2 == k8 * ss1,
                    x32 == k8 * x31,
                    mm2 == k4 * mm1,
                    y82 == k12 * y81,
                    k8 == k4 * k4,
                    k12 == k8 * k4,
                    y31 == (ss1 - x31) * mm1 - y81,
                    y32 == (ss2 - x32) * mm2 - y82,
            ;
            lemma_scaled_double_eq(
                double_spec(j1, c),
                double_spec(j2, c),
                x31,
                y31,
                z31,
                k4,
                k8,
                k12,
                k4r,
                c,
            );
        }
    }
}

/// Commutativity: adding two points in either order yields equal group
/// elements. Equal operands send both orders into the doubling branch, on
/// the two representatives, whose results agree by the well-definedness of
/// doubling; otherwise swapping the operands negates the intermediate
/// difference terms, which yields an equal group element.
pub proof fn lemma_add_comm(j1: Jac, j2: Jac, c: CurveModel)
    requires
        prime_field(c.p),
        jac_wf(j1, c),
        jac_wf(j2, c),
    ensures
        eq_spec(add_spec(j1, j2, c), add_spec(j2, j1, c), c),
{
    let p = c.p;
    if j1.z != 0 && j2.z != 0 {
        let z1z1 = fmul(j1.z, j1.z, p);
        let z2z2 = fmul(j2.z, j2.z, p);
        let u1 = fmul(j1.x, z2z2, p);
        let u2 = fmul(j2.x, z1z1, p);
        let s1 = fmul(fmul(j1.y, j2.z, p), z2z2, p);
        let s2 = fmul(fmul(j2.y, j1.z, p), z1z1, p);
        if u1 == u2 && s1 == s2 {
            // the operands denote one group element: the u and s values are
            // exactly the cross products that projective equality compares,
            // so both orders double one element and the doublings agree.
            lemma_fmul_mods(j1.y * j2.z, z2z2, p);
            lemma_fmul_mods(j1.y, z2z2 * j2.z, p);
            assert((j1.y * j2.z) * z2z2 == j1.y * (z2z2 * j2.z)) by (nonlinear_arith);
            lemma_fmul_mods(j2.y * j1.z, z1z1, p);
            lemma_fmul_mods(j2.y, z1z1 * j1.z, p);
            assert((j2.y * j1.z) * z1z1 == j2.y * (z1z1 * j1.z)) by (nonlinear_arith);
            assert(eq_spec(j1, j2, c));
            lemma_double_respects_eq(j1, j2, c);
        } else if u1 == u2 {
            // additive inverses: both orders give the identity
        } else {
            // generic case: swapping the operands negates h, r and the
            // resulting y and z while leaving x unchanged, which is an equal
            // group element.
            let h = fsub(u2, u1, p);
            let hb = fsub(u1, u2, p);
            lemma_fsub_antisym(u2, u1, p);
            assert(hb == p - h);
            lemma_small_mod((p - h) as nat, p as nat);
            lemma_small_mod(h as nat, p as nat);
            assert(fneg(h, p) == hb);
            assert(fneg(hb, p) == h);
            // the squared doubled difference is the same on both sides
            let ii: int = (h + h) * (h + h);
            lemma_fmul_mods(h + h, h + h, p);
            lemma_fmul_mods(hb + hb, hb + hb, p);
            assert((hb + hb) * (hb + hb) == ii + p * (4 * p - 8 * h)) by (nonlinear_arith)
                requires
                    hb == p - h,
                    ii == (h + h) * (h + h),
            ;
            lemma_mod_eq_multiple((hb + hb) * (hb + hb), ii, 4 * p - 8 * h, p);
            let ia = fmul(fadd(h, h, p), fadd(h, h, p), p);
            assert(ia == ii % p);
            assert(fmul(fadd(hb, hb, p), fadd(hb, hb, p), p) == ia);
            // flattened integer representatives of every intermediate value
            lemma_fmul_mods(hb, ii, p);
            lemma_fmul_mods(h, ii, p);
            assert(fmul(fneg(h, p), ia, p) == (hb * ii) % p);
            assert(fmul(fneg(hb, p), ia, p) == (h * ii) % p);
            let rr: int = (s2 - s1) + (s2 - s1);
            lemma_fsub_is_mod(s2, s1, p);
            lemma_fsub_is_mod(s1, s2, p);
            lemma_fadd_mods(s2 - s1, s2 - s1, p);
            lemma_fadd_mods(s1 - s2, s1 - s2, p);
            let ra = fadd(fsub(s2, s1, p), fsub(s2, s1, p), p);
            let rb = fadd(fsub(s1, s2, p), fsub(s1, s2, p), p);
            assert(ra == rr % p);
            assert(rb == (-rr) % p);
            lemma_fmul_mods(u1, ii, p);
            lemma_fmul_mods(u2, ii, p);
            let va = fmul(u1, ia, p);
            let vb = fmul(u2, ia, p);
            assert(va == (u1 * ii) % p);
            assert(vb == (u2 * ii) % p);
            // x coordinate of the two results
            let xa_int: int = rr * rr + hb * ii - (u1 * ii + u1 * ii);
            let xb_int: int = (-rr) * (-rr) + h * ii - (u2 * ii + u2 * ii);
            lemma_fmul_mods(rr, rr, p);
            lemma_fmul_mods(-rr, -rr, p);
            lemma_fadd_mods(rr * rr, hb * ii, p);
            lemma_fadd_mods((-rr) * (-rr), h * ii, p);
            lemma_fadd_mods(u1 * ii, u1 * ii, p);
            lemma_fadd_mods(u2 * ii, u2 * ii, p);
            lemma_fsub_mods(rr * rr + hb * ii, u1 * ii + u1 * ii, p);
            lemma_fsub_mods((-rr) * (-rr) + h * ii, u2 * ii + u2 * ii, p);
            let xa = fsub(fadd(fmul(ra, ra, p), fmul(fneg(h, p), ia, p), p), fadd(va, va, p), p);
            let xb = fsub(fadd(fmul(rb, rb, p), fmul(fneg(hb, p), ia, p), p), fadd(vb, vb, p), p);
            assert(xa == xa_int % p);
            assert(xb == xb_int % p);
            // the difference of the operands' u values is h up to a multiple
            // of the modulus
            lemma_fsub_is_mod(u2, u1, p);
            let e: int = u2 - u1 - h;
            if u2 > u1 {
                lemma_small_mod((u2 - u1) as nat, p as nat);
                assert(e == 0);
            } else {
                lemma_mod_add_multiples_vanish(u2 - u1, p);
                lemma_small_mod((u2 - u1 + p) as nat, p as nat);
                assert(e == -p);
            }
            let kx: int = if e == 0 { -ii } else { ii };
            assert(xb_int == xa_int + p * kx) by (nonlinear_arith)
                requires
                    hb == p - h,
                    u2 == u1 + h + e,
                    e == 0 || e == -p,
                    kx == (if e == 0 { -ii } else { ii }),
                    xa_int == rr * rr + hb * ii - (u1 * ii + u1 * ii),
                    xb_int == (-rr) * (-rr) + h * ii - (u2 * ii + u2 * ii),
            ;
            lemma_mod_eq_multiple(xb_int, xa_int, kx, p);
            assert(xa == xb);
            // y coordinate: the two results are negations of each other
            let ya_int: int = rr * (u1 * ii - xa_int) + (s1 + s1) * (hb * ii);
            let yb_int: int = (-rr) * (u2 * ii - xb_int) + (s2 + s2) * (h * ii);
            lemma_fsub_mods(u1 * ii, xa_int, p);
            lemma_fsub_mods(u2 * ii, xb_int, p);
            lemma_fmul_mods(rr, u1 * ii - xa_int, p);
            lemma_fmul_mods(-rr, u2 * ii - xb_int, p);
            lemma_fmul_mods(s1 + s1, hb * ii, p);
            lemma_fmul_mods(s2 + s2, h * ii, p);
            lemma_fadd_mods(rr * (u1 * ii - xa_int), (s1 + s1) * (hb * ii), p);
            lemma_fadd_mods((-rr) * (u2 * ii - xb_int), (s2 + s2) * (h * ii), p);
            let ya = fadd(
                fmul(ra, fsub(va, xa, p), p),
                fmul(fadd(s1, s1, p), fmul(fneg(h, p), ia, p), p),
                p,
            );
            let yb = fadd(
                fmul(rb, fsub(vb, xb, p), p),
                fmul(fadd(s2, s2, p), fmul(fneg(hb, p), ia, p), p),
                p,
            );
            assert(ya == ya_int % p);
            assert(yb == yb_int % p);
            let ky: int = if e == 0 { rr * kx + 2 * ii * s1 } else {
                rr * kx + 2 * ii * s1 + rr * ii
            };
            assert(rr * (u1 * ii - xa_int) == rr * (u1 * ii) - rr * xa_int) by (nonlinear_arith);
            assert((s1 + s1) * (hb * ii) == 2 * ii * (s1 * hb)) by (nonlinear_arith);
            assert((-rr) * (u2 * ii - xb_int) == rr * xb_int - rr * (u2 * ii))
                by (nonlinear_arith);
            assert((s2 + s2) * (h * ii) == 2 * ii * (s2 * h)) by (nonlinear_arith);
            assert(rr * (u1 * ii) - rr * (u2 * ii) == rr * ii * (u1 - u2)) by (nonlinear_arith);
            assert(rr * xb_int - rr * xa_int == rr * (xb_int - xa_int)) by (nonlinear_arith);
            assert(2 * ii * (s1 * hb) + 2 * ii * (s2 * h) == 2 * ii * (s1 * hb + s2 * h))
                by (nonlinear_arith);
            assert(ya_int + yb_int
                == rr * ii * (u1 - u2) + rr * (xb_int - xa_int) + 2 * ii * (s1 * hb + s2 * h));
            assert(2 * ii * (s1 * hb + s2 * h) == p * (2 * ii * s1) + ii * h * rr)
                by (nonlinear_arith)
                requires
                    hb == p - h,
                    rr == (s2 - s1) + (s2 - s1),
            ;
            assert(rr * ii * (u1 - u2) == -(ii * h * rr) - rr * ii * e) by (nonlinear_arith)
                requires
                    u2 == u1 + h + e,
            ;
            assert(rr * (xb_int - xa_int) == p * (rr * kx)) by (nonlinear_arith)
                requires
                    xb_int == xa_int + p * kx,
            ;
            assert(yb_int == -ya_int + p * ky) by (nonlinear_arith)
                requires
                    ya_int + yb_int == rr * ii * (u1 - u2) + rr * (xb_int - xa_int) + 2 * ii * (
                    s1 * hb + s2 * h),
                    2 * ii * (s1 * hb + s2 * h) == p * (2 * ii * s1) + ii * h * rr,
                    rr * ii * (u1 - u2) == -(ii * h * rr) - rr * ii * e,
                    rr * (xb_int - xa_int) == p * (rr * kx),
                    e == 0 || e == -p,
                    ky == (if e == 0 { rr * kx + 2 * ii * s1 } else {
                        rr * kx + 2 * ii * s1 + rr * ii
                    }),
            ;
            lemma_mod_eq_multiple(yb_int, -ya_int, ky, p);
            assert(yb == (-ya_int) % p);
            // z coordinate: likewise negated
            let zz12 = fmul(j1.z, j2.z, p);
            lemma_fmul_comm(j1.z, j2.z, p);
            let zq: int = (zz12 + zz12) * h;
            lemma_fmul_mods(zz12 + zz12, h, p);
            lemma_fmul_mods(zz12 + zz12, hb, p);
            let za = fmul(fadd(zz12, zz12, p), h, p);
            let zb = fmul(fadd(zz12, zz12, p), hb, p);
            assert(za == zq % p);
            assert((zz12 + zz12) * hb == -zq + p * (zz12 + zz12)) by (nonlinear_arith)
                requires
                    hb == p - h,
                    zq == (zz12 + zz12) * h,
            ;
            lemma_mod_eq_multiple((zz12 + zz12) * hb, -zq, zz12 + zz12, p);
            assert(zb == (-zq) % p);
            // both z results are nonzero
            lemma_no_zero_divisors(j1.z, j2.z, p);
            lemma_fdbl_zero_iff(zz12, p);
            lemma_no_zero_divisors(fadd(zz12, zz12, p), h, p);
            lemma_no_zero_divisors(fadd(zz12, zz12, p), hb, p);
            // the results compare equal under projective equivalence:
            // equal x, negated y against negated z
            let resa = add_spec(j1, j2, c);
            let resb = add_spec(j2, j1, c);
            assert(resa == Jac { x: xa, y: ya, z: za });
            assert(resb == Jac { x: xb, y: yb, z: zb });
            lemma_fmul_mods(zq, zq, p);
            lemma_fmul_mods(-zq, -zq, p);
            assert((-zq) * (-zq) == zq * zq) by (nonlinear_arith);
            assert(fmul(za, za, p) == (zq * zq) % p);
            assert(fmul(zb, zb, p) == (zq * zq) % p);
            lemma_fmul_mods(zq * zq, -zq, p);
            lemma_fmul_mods(zq * zq, zq, p);
            lemma_fmul_mods(ya_int, (zq * zq) * (-zq), p);
            lemma_fmul_mods(-ya_int, (zq * zq) * zq, p);
            assert(ya_int * ((zq * zq) * (-zq)) == (-ya_int) * ((zq * zq) * zq))
                by (nonlinear_arith);
            assert(fmul(ya, fmul(fmul(zb, zb, p), zb, p), p)
                == fmul(yb, fmul(fmul(za, za, p), za, p), p));
        }
    }
}

} // verus!
