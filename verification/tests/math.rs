use rasterizer::fixed::{floor_div, isqrt_u128, lerp_raw, quotient_raw, ONE};
use rasterizer::math::{Vec2, Vec3f, Vec3i, COORD_MAX};

#[test]
fn pairs_and_triples_hold_what_they_are_given() {
    let v = Vec2::new(3u8, 4u8);
    assert_eq!((v.x, v.y), (3, 4));
    let w = Vec3i::new(-1, 2, 3);
    assert_eq!((w.x, w.y, w.z), (-1, 2, 3));
    let f = Vec3f::new(ONE, -ONE, 0);
    assert_eq!((f.x, f.y, f.z), (65536, -65536, 0));
    assert_eq!(COORD_MAX, (1 << 30) - 1);
}

#[test]
fn pair_arithmetic() {
    let s = Vec2::new(1i32, 2) + Vec2::new(30, 40);
    assert_eq!((s.x, s.y), (31, 42));
    let d = Vec2::new(1i64, 2) - Vec2::new(30, 40);
    assert_eq!((d.x, d.y), (-29, -38));
    let m = Vec2::new(3u32, 4) * 5;
    assert_eq!((m.x, m.y), (15, 20));
}

#[test]
fn triple_arithmetic() {
    let a = Vec3f::new(ONE, 2 * ONE, 3 * ONE);
    let b = Vec3f::new(ONE / 2, -ONE, 4 * ONE);
    assert_eq!(a + b, Vec3f::new(3 * ONE / 2, ONE, 7 * ONE));
    assert_eq!(a - b, Vec3f::new(ONE / 2, 3 * ONE, -ONE));
    assert_eq!(a * (ONE / 2), Vec3f::new(ONE / 2, ONE, 3 * ONE / 2));
    assert_eq!(a * (-ONE), Vec3f::new(-ONE, -2 * ONE, -3 * ONE));
    assert_eq!(a / (2 * ONE), Vec3f::new(ONE / 2, ONE, 3 * ONE / 2));
    assert_eq!(a / (-ONE / 2), Vec3f::new(-2 * ONE, -4 * ONE, -6 * ONE));
    // 0.5 - 2 + 12
    assert_eq!(a * b, (21 * ONE / 2) as i64);
}

#[test]
fn products_round_down_and_quotients_toward_zero() {
    // One raw unit times a half is half a raw unit.
    assert_eq!(Vec3f::new(1, -1, 3) * (ONE / 2), Vec3f::new(0, -1, 1));
    assert_eq!(Vec3f::new(1, -1, 7) / (2 * ONE), Vec3f::new(0, 0, 3));
    assert_eq!(Vec3f::new(-7, 7, -7) / (2 * ONE), Vec3f::new(-3, 3, -3));
    assert_eq!(Vec3f::new(1, 0, 0) * Vec3f::new(-1, 0, 0), -1);
}

#[test]
fn cross_product() {
    let x = Vec3f::new(ONE, 0, 0);
    let y = Vec3f::new(0, ONE, 0);
    let z = Vec3f::new(0, 0, ONE);
    assert_eq!(x ^ y, z);
    assert_eq!(y ^ x, Vec3f::new(0, 0, -ONE));
    assert_eq!(y ^ z, x);
    let a = Vec3f::new(2 * ONE, 3 * ONE, 4 * ONE);
    let b = Vec3f::new(5 * ONE, 6 * ONE, 7 * ONE);
    assert_eq!(a ^ b, Vec3f::new(-3 * ONE, 6 * ONE, -3 * ONE));
}

#[test]
fn unit_vector_along_a_cross_product() {
    let x = Vec3f::new(ONE, 0, 0);
    let y = Vec3f::new(0, ONE, 0);
    assert_eq!(x.cross_unit(y), Vec3f::new(0, 0, ONE));
    // Vectors of a few raw units still have an exact direction.
    assert_eq!(Vec3f::new(3, 0, 0).cross_unit(Vec3f::new(0, 5, 0)), Vec3f::new(0, 0, ONE));
    assert_eq!(Vec3f::new(0, 0, 2).cross_unit(Vec3f::new(7, 0, 0)), Vec3f::new(0, ONE, 0));
    assert_eq!(x.cross_unit(x), Vec3f::new(0, 0, 0));
    // The largest components there are: the direction is (-1, -1, 0) to
    // within one part in a billion.
    let far = Vec3f::new(i32::MIN, i32::MAX, 0);
    assert_eq!(
        far.cross_unit(Vec3f::new(i32::MAX, i32::MIN, i32::MIN)),
        Vec3f::new(-46340, -46340, 0)
    );
}

#[test]
fn normalize_scales_to_length_one() {
    let mut v = Vec3f::new(3 * ONE, 4 * ONE, 0);
    let r = v.normalize();
    // 0.6 and 0.8, rounded toward zero.
    assert_eq!(r, Vec3f::new(39321, 52428, 0));
    assert_eq!(v, r);

    let mut n = Vec3f::new(0, 0, -1);
    assert_eq!(n.normalize(), Vec3f::new(0, 0, -ONE));

    let mut d = Vec3f::new(-ONE, -ONE, -ONE);
    // The length is rounded down to 113511 raw units.
    assert_eq!(d.normalize(), Vec3f::new(-37837, -37837, -37837));

    let mut zero = Vec3f::new(0, 0, 0);
    assert_eq!(zero.normalize(), Vec3f::new(0, 0, 0));

    let mut big = Vec3f::new(i32::MIN, 0, 0);
    assert_eq!(big.normalize(), Vec3f::new(-ONE, 0, 0));
}

#[test]
fn division_helpers() {
    assert_eq!(floor_div(7, 2), 3);
    assert_eq!(floor_div(-7, 2), -4);
    assert_eq!(floor_div(-8, 2), -4);
    assert_eq!(floor_div(0, 5), 0);
    assert_eq!(quotient_raw(7, 2), 3);
    assert_eq!(quotient_raw(-7, 2), -3);
    assert_eq!(quotient_raw(7, -2), -3);
    assert_eq!(quotient_raw(-7, -2), 3);
}

#[test]
fn interpolation() {
    assert_eq!(lerp_raw(0, 10, 0, 3), 0);
    assert_eq!(lerp_raw(0, 10, 1, 3), 3);
    assert_eq!(lerp_raw(0, 10, 2, 3), 6);
    assert_eq!(lerp_raw(0, 10, 3, 3), 10);
    assert_eq!(lerp_raw(10, 0, 1, 3), 6);
    assert_eq!(lerp_raw(10, 0, 2, 3), 3);
    assert_eq!(lerp_raw(-5, -5, 1, 2), -5);
    assert_eq!(lerp_raw(1 << 62, -(1 << 62), 1, 2), 0);
}

#[test]
fn integer_square_root() {
    assert_eq!(isqrt_u128(0), 0);
    assert_eq!(isqrt_u128(1), 1);
    assert_eq!(isqrt_u128(15), 3);
    assert_eq!(isqrt_u128(16), 4);
    assert_eq!(isqrt_u128(17), 4);
    assert_eq!(isqrt_u128(1 << 64), 1 << 32);
    assert_eq!(isqrt_u128(u128::MAX), u64::MAX);
}
