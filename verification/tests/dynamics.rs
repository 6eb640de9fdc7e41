use thrust::fx::{Fx, FX_SCALE};
use thrust::manifold::Manifold;
use thrust::rigidbody::{Material, Rgb, RigidBody};
use thrust::shape::Shape;
use thrust::vec2::Vec2;

fn fxi(v: i64) -> Fx {
    Fx::from_int(v)
}

fn vi(x: i64, y: i64) -> Vec2 {
    Vec2::from_ints(x, y)
}

fn grey() -> Rgb {
    Rgb { r: 128, g: 128, b: 128 }
}

/// A 20 by 20 box of mass exactly one (density 0.0025 times area 400).
fn unit_box(restitution_bits: i64, pos: Vec2) -> RigidBody {
    let m = Material::new(Fx { bits: 250 }, Fx { bits: restitution_bits }, grey());
    RigidBody::new(pos, Shape::new_rect(fxi(20), fxi(20)), m)
}

fn to_f(bits: i64) -> f64 {
    bits as f64 / FX_SCALE as f64
}

#[test]
fn unit_box_has_inverse_mass_one() {
    let b = unit_box(FX_SCALE, vi(0, 0));
    assert_eq!(b.get_inv_mass().bits, FX_SCALE);
}

#[test]
fn static_material_gives_zero_inverse_mass() {
    let m = Material::static_material();
    let b = RigidBody::new(vi(0, 0), Shape::new_rect(fxi(200), fxi(20)), m);
    assert_eq!(b.get_inv_mass().bits, 0);
}

#[test]
fn integrate_advances_semi_implicitly() {
    let mut b = unit_box(FX_SCALE, vi(0, 0));
    b.add_acc(vi(0, 10));
    b.integrate(fxi(2));
    // velocity first: v = 0 + 10*2 = 20; then position: p = 0 + 20*2 = 40
    assert_eq!(b.vel.y.bits, 20 * FX_SCALE);
    assert_eq!(b.transform.pos.y.bits, 40 * FX_SCALE);
    assert_eq!(b.acc.y.bits, 0);
    assert_eq!(b.transform.prev_pos.y.bits, 0);
}

#[test]
fn integrate_zero_dt_is_identity_on_motion() {
    let mut b = unit_box(FX_SCALE, vi(7, 9));
    b.add_acc(vi(3, 4));
    let mut moved = b.clone();
    moved.integrate(Fx::zero());
    assert_eq!(moved.transform.pos, b.transform.pos);
    assert_eq!(moved.vel, b.vel);
    // but the accumulated acceleration is cleared
    assert_eq!((moved.acc.x.bits, moved.acc.y.bits), (0, 0));
}

#[test]
fn add_force_scales_by_inverse_mass() {
    let mut b = unit_box(FX_SCALE, vi(0, 0));
    b.add_force(vi(5, 0));
    assert_eq!(b.acc.x.bits, 5 * FX_SCALE);
    // a static body absorbs forces to no effect
    let m = Material::static_material();
    let mut s = RigidBody::new(vi(0, 0), Shape::new_rect(fxi(200), fxi(20)), m);
    s.add_force(vi(1000, 1000));
    assert_eq!((s.acc.x.bits, s.acc.y.bits), (0, 0));
}

/// Head-on, perfectly elastic, equal masses: the velocities swap and the
/// penetration is split equally at 80%.
#[test]
fn head_on_elastic_collision() {
    let mut a = unit_box(FX_SCALE, vi(0, 0));
    let mut b = unit_box(FX_SCALE, vi(19, 0));
    a.vel = vi(1, 0);
    b.vel = vi(-1, 0);
    let m = Manifold::new(&a, &b).unwrap();
    assert_eq!(m.depth.bits, FX_SCALE);
    assert_eq!((m.normal_vector.x.bits, m.normal_vector.y.bits), (FX_SCALE, 0));
    m.resolve(&mut a, &mut b);
    assert_eq!((a.vel.x.bits, a.vel.y.bits), (-FX_SCALE, 0));
    assert_eq!((b.vel.x.bits, b.vel.y.bits), (FX_SCALE, 0));
    assert_eq!(a.transform.pos.x.bits, -40000); // -0.4
    assert_eq!(b.transform.pos.x.bits, 19 * FX_SCALE + 40000); // 19.4
}

/// A moving box against a static wall: restitution 0.5 reverses half the
/// approach speed and the correction moves only the box.
#[test]
fn moving_box_static_wall() {
    let mut a = unit_box(50000, vi(100, 100));
    a.vel = vi(0, 5);
    let wall_mat = Material::new(Fx::zero(), Fx { bits: 50000 }, grey());
    let mut wall = RigidBody::new(vi(100, 110), Shape::new_rect(fxi(200), fxi(20)), wall_mat);
    let m = Manifold::new(&a, &wall).unwrap();
    assert_eq!(m.depth.bits, 10 * FX_SCALE);
    assert_eq!((m.normal_vector.x.bits, m.normal_vector.y.bits), (0, FX_SCALE));
    m.resolve(&mut a, &mut wall);
    // -(1 + 0.5) * 5 / (1 + 0) = -7.5 change: 5 - 7.5 = -2.5
    assert_eq!(a.vel.y.bits, -250000);
    // corrected by 0.8 * 10: 100 - 8 = 92
    assert_eq!(a.transform.pos.y.bits, 92 * FX_SCALE);
    // the wall never moves
    assert_eq!(wall.transform.pos.y.bits, 110 * FX_SCALE);
    assert_eq!((wall.vel.x.bits, wall.vel.y.bits), (0, 0));
}

/// Momentum is conserved across a resolve, within rounding tolerance.
#[test]
fn momentum_conserved_in_resolve() {
    let mut a = unit_box(30000, vi(0, 3));
    let mut b = unit_box(70000, vi(18, 0));
    a.vel = vi(3, 1);
    b.vel = vi(-2, 0);
    let before = to_f(a.vel.x.bits) + to_f(b.vel.x.bits);
    let before_y = to_f(a.vel.y.bits) + to_f(b.vel.y.bits);
    let m = Manifold::new(&a, &b).unwrap();
    m.resolve(&mut a, &mut b);
    let after = to_f(a.vel.x.bits) + to_f(b.vel.x.bits);
    let after_y = to_f(a.vel.y.bits) + to_f(b.vel.y.bits);
    assert!((before - after).abs() < 1e-3, "x momentum drifted: {before} vs {after}");
    assert!((before_y - after_y).abs() < 1e-3, "y momentum drifted: {before_y} vs {after_y}");
}

/// For a perfectly elastic contact the kinetic energy does not grow, and for
/// a partially elastic one it strictly shrinks.
#[test]
fn energy_never_grows_in_resolve() {
    for (rest, strict) in [(FX_SCALE, false), (30000, true)] {
        let mut a = unit_box(rest, vi(0, 0));
        let mut b = unit_box(rest, vi(19, 0));
        a.vel = vi(2, 0);
        b.vel = vi(-3, 0);
        let ke = |x: &thrust::rigidbody::RigidBody| {
            let vx = to_f(x.vel.x.bits);
            let vy = to_f(x.vel.y.bits);
            0.5 * (vx * vx + vy * vy)
        };
        let before = ke(&a) + ke(&b);
        let m = Manifold::new(&a, &b).unwrap();
        m.resolve(&mut a, &mut b);
        let after = ke(&a) + ke(&b);
        assert!(after <= before + 1e-3, "energy grew: {before} -> {after}");
        if strict {
            assert!(after < before - 1e-3, "energy did not shrink: {before} -> {after}");
        }
    }
}

/// After a resolve with depth > 0 between movable bodies, the remaining
/// overlap is at most a fifth of the original depth (plus rounding).
#[test]
fn resolve_separates_most_of_the_overlap() {
    let mut a = unit_box(10000, vi(0, 0));
    let mut b = unit_box(10000, vi(15, 0));
    let before = Manifold::new(&a, &b).unwrap();
    assert_eq!(before.depth.bits, 5 * FX_SCALE);
    before.resolve(&mut a, &mut b);
    let after = Manifold::new(&a, &b).unwrap();
    assert!(
        to_f(after.depth.bits) <= 0.2 * to_f(before.depth.bits) + 1e-3,
        "residual overlap too large: {}",
        to_f(after.depth.bits)
    );
}

/// A static body keeps position and velocity through repeated resolves.
#[test]
fn static_body_is_immovable() {
    let wall_mat = Material::new(Fx::zero(), Fx { bits: 40000 }, grey());
    let mut wall = RigidBody::new(vi(0, 10), Shape::new_rect(fxi(100), fxi(20)), wall_mat);
    let mut ball = RigidBody::new(vi(0, -4), Shape::new_circle(fxi(5)), Material::bouncy_ball());
    ball.vel = vi(0, 12);
    for _ in 0..50 {
        if let Some(m) = Manifold::new(&ball, &wall) {
            m.resolve(&mut ball, &mut wall);
        }
    }
    assert_eq!((wall.transform.pos.x.bits, wall.transform.pos.y.bits), (0, 10 * FX_SCALE));
    assert_eq!((wall.vel.x.bits, wall.vel.y.bits), (0, 0));
}

#[test]
fn interpolated_transform_lerps_between_frames() {
    let mut b = unit_box(FX_SCALE, vi(0, 0));
    b.vel = vi(10, 0);
    b.integrate(fxi(1));
    // previous position 0, current 10; halfway renders at 5
    let (p, _rot) = b.interpolated_transform(Fx { bits: 50000 });
    assert_eq!(p.x.bits, 5 * FX_SCALE);
    let (p0, _) = b.interpolated_transform(Fx::zero());
    assert_eq!(p0.x.bits, 0);
    let (p1, _) = b.interpolated_transform(Fx::one());
    assert_eq!(p1.x.bits, 10 * FX_SCALE);
}

#[test]
fn body_intersects_and_point_inside() {
    let a = unit_box(FX_SCALE, vi(0, 0));
    let b = unit_box(FX_SCALE, vi(15, 0));
    let c = unit_box(FX_SCALE, vi(50, 0));
    assert!(a.intersects(&b));
    assert!(!a.intersects(&c));
    assert!(a.point_inside(&vi(5, 5)));
    assert!(!a.point_inside(&vi(30, 0)));
}
