use skelly::geom::{Iso3, Quat, Vec3};
use skelly::num::{Fx, FX_ONE};

fn fxi(n: i64) -> Fx {
    Fx::from_int(n)
}

fn fxr(raw: i64) -> Fx {
    Fx { raw }
}

#[test]
fn from_int_scales_by_one() {
    assert_eq!(fxi(0).raw, 0);
    assert_eq!(fxi(1).raw, 65536);
    assert_eq!(fxi(-3).raw, -3 * 65536);
    assert_eq!(FX_ONE, 65536);
}

#[test]
fn from_int_saturates() {
    assert_eq!(Fx::from_int(i64::MAX).raw, i64::MAX);
    assert_eq!(Fx::from_int(i64::MIN).raw, i64::MIN);
}

#[test]
fn add_and_sub_are_exact_in_range() {
    assert_eq!(fxi(2).add(fxi(3)).raw, 5 * 65536);
    assert_eq!(fxi(2).sub(fxi(3)).raw, -65536);
}

#[test]
fn add_saturates_at_the_i64_range() {
    assert_eq!(fxr(i64::MAX).add(fxr(1)).raw, i64::MAX);
    assert_eq!(fxr(i64::MIN).sub(fxr(1)).raw, i64::MIN);
    assert_eq!(fxr(i64::MIN).neg().raw, i64::MAX);
}

#[test]
fn mul_truncates_toward_zero() {
    // 1.5 * 3 == 4.5
    assert_eq!(fxr(3 * 65536 / 2).mul(fxi(3)).raw, 4 * 65536 + 65536 / 2);
    // (1/3) * 3 stays just below 1 because of truncation.
    let third = fxi(1).div(fxi(3));
    assert_eq!(third.raw, 21845);
    assert_eq!(third.mul(fxi(3)).raw, 65535);
    // Negative products truncate toward zero, not toward minus infinity.
    assert_eq!(fxr(-1).mul(fxr(1)).raw, 0);
}

#[test]
fn div_by_zero_is_zero() {
    assert_eq!(fxi(5).div(fxi(0)).raw, 0);
}

#[test]
fn div_count_averages() {
    assert_eq!(fxi(5).div_count(2).raw, 5 * 65536 / 2);
    assert_eq!(fxr(-3).div_count(2).raw, -1);
}

#[test]
fn sqrt_exact_squares() {
    assert_eq!(fxi(4).sqrt().raw, 2 * 65536);
    assert_eq!(fxi(9).sqrt().raw, 3 * 65536);
    assert_eq!(fxi(0).sqrt().raw, 0);
    assert_eq!(fxi(-4).sqrt().raw, 0);
}

#[test]
fn sqrt_two_rounds_down() {
    // sqrt(2) = 1.41421356... -> floor(sqrt(2) * 65536) == 92681
    assert_eq!(fxi(2).sqrt().raw, 92681);
}

#[test]
fn vector_norm_and_dist() {
    let a = Vec3::new(fxi(3), fxi(4), fxi(0));
    assert_eq!(a.norm().raw, 5 * 65536);
    let b = Vec3::new(fxi(0), fxi(0), fxi(0));
    assert_eq!(a.dist(b).raw, 5 * 65536);
    assert_eq!(a.dot(a).raw, 25 * 65536);
}

#[test]
fn cross_of_axes() {
    let x = Vec3::new(fxi(1), fxi(0), fxi(0));
    let y = Vec3::new(fxi(0), fxi(1), fxi(0));
    let z = x.cross(y);
    assert_eq!(z, Vec3::new(fxi(0), fxi(0), fxi(1)));
}

#[test]
fn quarter_turn_rotates_x_to_y() {
    // A 90-degree turn about +z: w = cos(45deg), z = sin(45deg).
    let s = fxr(46341);
    let q = Quat { x: fxr(0), y: fxr(0), z: s, w: s };
    let v = q.rotate(Vec3::new(fxi(1), fxi(0), fxi(0)));
    assert!(v.x.raw.abs() < 64, "x = {}", v.x.raw);
    assert!((v.y.raw - 65536).abs() < 64, "y = {}", v.y.raw);
    assert_eq!(v.z.raw, 0);
}

#[test]
fn rotation_between_matches_direct_rotation() {
    let a = Vec3::new(fxi(0), fxi(0), fxi(1));
    let b = Vec3::new(fxi(0), fxi(1), fxi(0));
    let q = Quat::rotation_between(a, b).expect("not degenerate");
    let r = q.rotate(a);
    assert!(r.x.raw.abs() < 64);
    assert!((r.y.raw - 65536).abs() < 64, "y = {}", r.y.raw);
    assert!(r.z.raw.abs() < 64);
}

#[test]
fn rotation_between_degenerate_pairs() {
    let zero = Vec3::new(fxi(0), fxi(0), fxi(0));
    let x = Vec3::new(fxi(1), fxi(0), fxi(0));
    assert!(Quat::rotation_between(zero, x).is_none());
    // Anti-parallel vectors have no shortest arc.
    assert!(Quat::rotation_between(x, x.neg()).is_none());
}

#[test]
fn isometry_compose_and_inverse_transform() {
    let t = Iso3 {
        rotation: Quat::identity(),
        translation: Vec3::new(fxi(1), fxi(2), fxi(3)),
    };
    let p = Vec3::new(fxi(1), fxi(0), fxi(0));
    let moved = t.transform(p);
    assert_eq!(moved, Vec3::new(fxi(2), fxi(2), fxi(3)));
    let back = t.inv_transform(moved);
    assert_eq!(back, p);
    let c = t.compose(t);
    assert_eq!(c.translation, Vec3::new(fxi(2), fxi(4), fxi(6)));
}
