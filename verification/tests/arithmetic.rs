use thrust::fx::{Fx, FX_LIMIT, FX_SCALE};
use thrust::vec2::Vec2;

#[test]
fn from_int_scales() {
    assert_eq!(Fx::from_int(10).bits, 10 * FX_SCALE);
    assert_eq!(Fx::from_int(-3).bits, -3 * FX_SCALE);
    assert_eq!(Fx::zero().bits, 0);
    assert_eq!(Fx::one().bits, FX_SCALE);
}

#[test]
fn mul_rounds_toward_zero() {
    // 1.5 * 2.5 = 3.75
    let a = Fx { bits: 150000 };
    let b = Fx { bits: 250000 };
    assert_eq!(a.mul(b).bits, 375000);
    // (-1.5) * 2.5 = -3.75 (truncation is symmetric)
    assert_eq!(a.neg().mul(b).bits, -375000);
    // 0.00001 * 0.00001 truncates to zero
    let tiny = Fx { bits: 1 };
    assert_eq!(tiny.mul(tiny).bits, 0);
    assert_eq!(tiny.neg().mul(tiny).bits, 0);
}

#[test]
fn div_by_zero_is_zero() {
    let a = Fx::from_int(7);
    assert_eq!(a.div(Fx::zero()).bits, 0);
    assert_eq!(Fx::from_int(1).div(Fx::from_int(3)).bits, 33333);
    assert_eq!(Fx::from_int(-1).div(Fx::from_int(3)).bits, -33333);
}

#[test]
fn addition_saturates() {
    let big = Fx { bits: FX_LIMIT };
    assert_eq!(big.add(big).bits, FX_LIMIT);
    assert_eq!(big.neg().sub(big).bits, -FX_LIMIT);
    assert_eq!(Fx::from_raw(i64::MAX).bits, FX_LIMIT);
}

#[test]
fn length_of_3_4_5_triangle() {
    let v = Vec2::from_ints(30, 40);
    assert_eq!(v.length().bits, 50 * FX_SCALE);
    assert_eq!(Vec2::from_ints(0, 0).length().bits, 0);
}

#[test]
fn normalise_gives_unit_direction() {
    let v = Vec2::from_ints(30, 40);
    let n = v.normalise();
    assert_eq!(n.x.bits, 60000);
    assert_eq!(n.y.bits, 80000);
    // the zero vector normalises to itself
    let z = Vec2::from_ints(0, 0).normalise();
    assert_eq!((z.x.bits, z.y.bits), (0, 0));
}

#[test]
fn normal_is_left_perpendicular() {
    let v = Vec2::from_ints(3, 4);
    let n = v.normal();
    assert_eq!((n.x.bits, n.y.bits), (-4 * FX_SCALE, 3 * FX_SCALE));
}

#[test]
fn dot_product() {
    let a = Vec2::from_ints(2, 3);
    let b = Vec2::from_ints(4, -5);
    assert_eq!(a.dot(b).bits, (8 - 15) * FX_SCALE);
}
