//! Group-law tests on a toy curve: y^2 = x^3 + 2x + 2 over the field of 17
//! elements. The full group has prime order 19 with generator (5, 1), so the
//! small multiples of the generator are known exactly:
//! G = (5,1), 2G = (6,3), 3G = (10,6), 4G = (3,1), 5G = (9,16).

use sw_projective::affine::Affine;
use sw_projective::curve::Curve;
use sw_projective::projective::Projective;

fn toy_curve() -> Curve {
    Curve { p: 17, a: 2, b: 2, gx: 5, gy: 1, order: 19 }
}

fn g1() -> Affine {
    Affine::new_unchecked(5, 1)
}

fn g2() -> Affine {
    Affine::new_unchecked(6, 3)
}

fn g3() -> Affine {
    Affine::new_unchecked(10, 6)
}

fn g5() -> Affine {
    Affine::new_unchecked(9, 16)
}

fn lift(a: &Affine) -> Projective {
    Projective::from_affine(a)
}

#[test]
fn add_identity_is_noop() {
    let c = toy_curve();
    let p = lift(&g1());
    let z = Projective::zero();
    assert!(p.add(&z, &c).eq(&p, &c));
    assert!(z.add(&p, &c).eq(&p, &c));
    let mut d = Projective::zero();
    d.double_in_place(&c);
    assert!(d.is_zero());
}

#[test]
fn add_affine_identity_is_noop() {
    let c = toy_curve();
    let p = lift(&g2());
    let r = p.add_affine(&Affine::identity(), &c);
    assert!(r.eq(&p, &c));
}

#[test]
fn add_negation_gives_identity() {
    let c = toy_curve();
    let p = lift(&g3());
    let n = p.neg(&c);
    assert!(p.add(&n, &c).is_zero());
}

#[test]
fn addition_commutes() {
    let c = toy_curve();
    let p = lift(&g1());
    let q = lift(&g2());
    assert!(p.add(&q, &c).eq(&q.add(&p, &c), &c));
}

#[test]
fn addition_associates() {
    let c = toy_curve();
    let p = lift(&g1());
    let q = lift(&g2());
    let r = lift(&g3());
    let left = p.add(&q, &c).add(&r, &c);
    let right = p.add(&q.add(&r, &c), &c);
    assert!(left.eq(&right, &c));
}

#[test]
fn double_matches_self_addition() {
    let c = toy_curve();
    let p = lift(&g2());
    let mut d = p;
    d.double_in_place(&c);
    assert!(d.eq(&p.add(&p, &c), &c));
}

#[test]
fn double_on_nonzero_a_branch() {
    // the toy curve has a != 0, so doubling G must land on 2G
    let c = toy_curve();
    let mut d = lift(&g1());
    d.double_in_place(&c);
    assert!(d.eq(&lift(&g2()), &c));
}

#[test]
fn double_on_zero_a_branch() {
    // y^2 = x^3 + 7 over the field of 13 elements exercises the cheaper
    // doubling formula for a = 0. The point (7, 5) is on the curve
    // (25 = 350 = 12 mod 13), and the tangent law gives its double by hand:
    // lambda = 3*49 / (2*5) = 4 * 4 = 3, x' = 9 - 14 = 8 (mod 13),
    // y' = 3*(7 - 8) - 5 = 5 (mod 13).
    let c = Curve { p: 13, a: 0, b: 7, gx: 7, gy: 5, order: 7 };
    let mut d = lift(&Affine::new_unchecked(7, 5));
    d.double_in_place(&c);
    assert!(d.eq(&lift(&Affine::new_unchecked(8, 5)), &c));
}

#[test]
fn mixed_addition_matches_general() {
    let c = toy_curve();
    let p = lift(&g1());
    let a = g2();
    let mixed = p.add_affine(&a, &c);
    let general = p.add(&lift(&a), &c);
    assert!(mixed.eq(&general, &c));
}

#[test]
fn scaled_representation_is_equal() {
    // multiply the triple for 2G by (k^2, k^3, k) with k = 3:
    // x: 6*9 = 54 = 3, y: 3*27 = 81 = 13, z: 3 (mod 17)
    let c = toy_curve();
    let p = lift(&g2());
    let scaled = Projective::new_unchecked(3, 13, 3);
    assert!(scaled.eq(&p, &c));
    assert!(p.eq(&scaled, &c));
    // and the canonical affine form is unaffected by the scaling
    assert_eq!(scaled.to_affine(&c), g2());
}

#[test]
fn unequal_points_compare_unequal() {
    let c = toy_curve();
    assert!(!lift(&g1()).eq(&lift(&g2()), &c));
    assert!(!lift(&g1()).eq(&Projective::zero(), &c));
    assert!(!Projective::zero().eq(&lift(&g1()), &c));
    assert!(Projective::zero().eq(&Projective::zero(), &c));
}

#[test]
fn batch_normalization_matches_single() {
    let c = toy_curve();
    let pts = vec![
        lift(&g1()),
        Projective::zero(),
        Projective::new_unchecked(3, 13, 3),
        Projective::zero(),
        lift(&g3()),
    ];
    let affs = Projective::normalize_batch(&pts, &c);
    assert_eq!(affs.len(), pts.len());
    for (p, a) in pts.iter().zip(affs.iter()) {
        assert_eq!(*a, p.to_affine(&c));
    }
    assert_eq!(affs[0], g1());
    assert_eq!(affs[1], Affine::identity());
    assert_eq!(affs[2], g2());
    assert_eq!(affs[3], Affine::identity());
    assert_eq!(affs[4], g3());
}

#[test]
fn batch_normalization_of_empty_input() {
    let c = toy_curve();
    let pts: Vec<Projective> = Vec::new();
    let affs = Projective::normalize_batch(&pts, &c);
    assert!(affs.is_empty());
}

#[test]
fn lift_round_trips_through_normalization() {
    let c = toy_curve();
    let affs = Projective::normalize_batch(&vec![lift(&g1())], &c);
    assert_eq!(affs, vec![g1()]);
    let ids = Projective::normalize_batch(&vec![Projective::zero()], &c);
    assert_eq!(ids, vec![Affine::identity()]);
}

#[test]
fn scale_boundaries() {
    let c = toy_curve();
    let p = lift(&g1());
    assert!(p.mul_bigint(0, &c).is_zero());
    assert!(p.mul_bigint(1, &c).eq(&p, &c));
    let mut d = p;
    d.double_in_place(&c);
    assert!(p.mul_bigint(2, &c).eq(&d, &c));
}

#[test]
fn scale_known_multiples() {
    let c = toy_curve();
    let p = lift(&g1());
    assert!(p.mul_bigint(3, &c).eq(&lift(&g3()), &c));
    assert!(p.mul_bigint(5, &c).eq(&lift(&g5()), &c));
    // 19 is the group order, so scaling by it reaches the identity
    assert!(p.mul_bigint(19, &c).is_zero());
    assert!(p.mul_bigint(20, &c).eq(&p, &c));
}

#[test]
fn concrete_sum_and_double() {
    // A + B = C and 2A are known by hand on the toy curve
    let c = toy_curve();
    let a = g1();
    let b = g2();
    let sum = lift(&a).add(&lift(&b), &c);
    assert!(sum.eq(&lift(&g3()), &c));
    let mut twice_a = lift(&a);
    twice_a.double_in_place(&c);
    assert!(twice_a.eq(&lift(&g2()), &c));
}

#[test]
fn subtraction_is_addition_of_negation() {
    let c = toy_curve();
    let diff = lift(&g3()).sub(&lift(&g2()), &c);
    assert!(diff.eq(&lift(&g1()), &c));
    let diff_affine = lift(&g3()).sub_affine(&g1(), &c);
    assert!(diff_affine.eq(&lift(&g2()), &c));
}

#[test]
fn checked_constructor_accepts_group_points() {
    let c = toy_curve();
    let p = Projective::new(5, 1, 1, &c).unwrap();
    assert!(p.eq(&lift(&g1()), &c));
    // a scaled representation of 2G is normalized on admission
    let q = Projective::new(3, 13, 3, &c).unwrap();
    assert!(q.eq(&lift(&g2()), &c));
    // any triple with z = 0 is the identity, which is always admitted
    let z = Projective::new(4, 9, 0, &c).unwrap();
    assert!(z.is_zero());
}

#[test]
fn checked_constructor_rejects_off_curve_points() {
    let c = toy_curve();
    // (1, 1) fails the curve equation: 1 != 1 + 2 + 2 (mod 17)
    assert!(Projective::new(1, 1, 1, &c).is_none());
}

#[test]
fn sum_of_affine_points() {
    let c = toy_curve();
    let total = Projective::sum(&vec![g1(), g2()], &c);
    assert!(total.eq(&lift(&g3()), &c));
    let empty = Projective::sum(&Vec::new(), &c);
    assert!(empty.is_zero());
    let with_identity = Projective::sum(&vec![g1(), Affine::identity(), g2()], &c);
    assert!(with_identity.eq(&lift(&g3()), &c));
}

#[test]
fn generator_and_default() {
    let c = toy_curve();
    let g = Projective::generator(&c);
    assert!(g.eq(&lift(&g1()), &c));
    let d = Projective::default();
    assert!(d.is_zero());
}

#[test]
fn zeroize_clears_coordinates() {
    let c = toy_curve();
    let mut p = lift(&g1());
    let _ = &c;
    p.zeroize();
    assert_eq!(p.x, 0);
    assert_eq!(p.y, 0);
    assert_eq!(p.z, 0);
}

#[test]
fn negation_of_identity_is_identity() {
    let c = toy_curve();
    let n = Projective::zero().neg(&c);
    assert!(n.is_zero());
    assert!(n.eq(&Projective::zero(), &c));
}

#[test]
fn affine_accessors() {
    let c = toy_curve();
    let a = g1();
    assert_eq!(a.xy(), Some((5, 1)));
    assert!(!a.is_identity());
    assert!(a.is_on_curve(&c));
    assert!(!Affine::new_unchecked(1, 1).is_on_curve(&c));
    let id = Affine::identity();
    assert_eq!(id.xy(), None);
    assert!(id.is_identity());
    assert!(id.is_on_curve(&c));
    assert_eq!(a.neg(&c), Affine::new_unchecked(5, 16));
}
