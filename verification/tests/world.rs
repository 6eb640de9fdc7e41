use thrust::fx::{Fx, FX_SCALE};
use thrust::physics::PhysicsManager;
use thrust::rigidbody::{Material, Rgb, RigidBody};
use thrust::shape::{PhysicsError, Shape};
use thrust::vec2::Vec2;

fn fxi(v: i64) -> Fx {
    Fx::from_int(v)
}

fn vi(x: i64, y: i64) -> Vec2 {
    Vec2::from_ints(x, y)
}

fn grey() -> Rgb {
    Rgb { r: 128, g: 128, b: 128 }
}

fn unit_box(restitution_bits: i64, pos: Vec2) -> RigidBody {
    let m = Material::new(Fx { bits: 250 }, Fx { bits: restitution_bits }, grey());
    RigidBody::new(pos, Shape::new_rect(fxi(20), fxi(20)), m)
}

fn floor_at(pos: Vec2) -> RigidBody {
    let m = Material::new(Fx::zero(), Fx { bits: 10000 }, grey());
    RigidBody::new(pos, Shape::new_rect(fxi(2000), fxi(100)), m)
}

#[test]
fn ids_are_monotone_and_stable() {
    let mut w = PhysicsManager::new();
    let a = w.add_body(unit_box(FX_SCALE, vi(0, 0)));
    let b = w.add_body(unit_box(FX_SCALE, vi(100, 0)));
    let c = w.add_body(unit_box(FX_SCALE, vi(200, 0)));
    assert_eq!((a, b, c), (0, 1, 2));
    assert_eq!(w.get_body_count(), 3);
    assert!(w.delete_body(b).is_ok());
    assert_eq!(w.get_body_count(), 2);
    // a deleted identifier stays invalid, the others stay reachable
    assert_eq!(w.delete_body(b).unwrap_err(), PhysicsError::NotFound);
    assert!(w.get_body_position(a).is_some());
    assert!(w.get_body_position(b).is_none());
    assert!(w.get_body_position(c).is_some());
    // and is never reissued
    let d = w.add_body(unit_box(FX_SCALE, vi(300, 0)));
    assert_eq!(d, 3);
}

#[test]
fn position_and_velocity_mutators() {
    let mut w = PhysicsManager::new();
    let a = w.add_body(unit_box(FX_SCALE, vi(0, 0)));
    assert!(w.set_body_position(a, vi(42, 7)).is_ok());
    let p = w.get_body_position(a).unwrap();
    assert_eq!((p.x.bits, p.y.bits), (42 * FX_SCALE, 7 * FX_SCALE));
    assert!(w.set_body_velocity(a, vi(-3, 2)).is_ok());
    let b = w.get_body(a).unwrap();
    assert_eq!((b.vel.x.bits, b.vel.y.bits), (-3 * FX_SCALE, 2 * FX_SCALE));
    assert_eq!(w.set_body_position(99, vi(0, 0)).unwrap_err(), PhysicsError::NotFound);
    assert_eq!(w.set_body_velocity(99, vi(0, 0)).unwrap_err(), PhysicsError::NotFound);
}

/// Two overlapping bodies: picking returns one of them; after deleting it,
/// picking returns the other.
#[test]
fn pick_disambiguates_overlapping_bodies() {
    let mut w = PhysicsManager::new();
    let ball = |pos| RigidBody::new(pos, Shape::new_circle(fxi(10)), Material::bouncy_ball());
    let a = w.add_body(ball(vi(50, 50)));
    let b = w.add_body(ball(vi(50, 50)));
    let first = w.get_body_at(&vi(50, 50)).unwrap();
    assert!(first == a || first == b);
    w.delete_body(first).unwrap();
    let second = w.get_body_at(&vi(50, 50)).unwrap();
    assert!(second != first && (second == a || second == b));
    w.delete_body(second).unwrap();
    assert!(w.get_body_at(&vi(50, 50)).is_none());
}

/// One tick applies gravity, integrates and resolves; a lone dynamic body
/// just falls.
#[test]
fn step_applies_gravity_and_integrates() {
    let mut w = PhysicsManager::new();
    w.set_gravity(vi(0, 1200));
    let a = w.add_body(unit_box(FX_SCALE, vi(0, 0)));
    let dt = fxi(1).div(fxi(120));
    w.update(dt);
    let b = w.get_body(a).unwrap();
    // dt is 0.00833 stored as 833; v = 1200 * 0.00833 = 9.996
    assert_eq!(b.vel.y.bits, 999600);
    assert!(b.transform.pos.y.bits > 0);
}

/// A static body is never moved by stepping, even while others collide with
/// it.
#[test]
fn step_leaves_static_bodies_alone() {
    let mut w = PhysicsManager::new();
    let f = w.add_body(floor_at(vi(0, 100)));
    let a = w.add_body(unit_box(10000, vi(0, 20)));
    let dt = fxi(1).div(fxi(120));
    for _ in 0..240 {
        w.update(dt);
    }
    let floor = w.get_body(f).unwrap();
    assert_eq!((floor.transform.pos.x.bits, floor.transform.pos.y.bits), (0, 100 * FX_SCALE));
    assert_eq!((floor.vel.x.bits, floor.vel.y.bits), (0, 0));
    // the box is resting somewhere above the floor's top, not inside it
    let body = w.get_body(a).unwrap();
    assert!(body.transform.pos.y.bits <= 40 * FX_SCALE + FX_SCALE);
}

/// Five boxes dropped onto a static floor under gravity of 9.8 units per
/// second squared settle: after five simulated seconds every vertical speed
/// is below one unit per second. The stack is inserted top-down with the
/// floor last, so each tick's contact chain is resolved downward into the
/// floor (resolution order follows pair order).
#[test]
fn stacked_boxes_reach_rest() {
    let mut w = PhysicsManager::new();
    w.set_gravity(Vec2::new(Fx::zero(), Fx::from_raw(980000)));
    let mut ids = Vec::new();
    for k in 0..5i64 {
        ids.push(w.add_body(unit_box(10000, vi(800, 705 + 21 * k))));
    }
    w.add_body(floor_at(vi(800, 850)));
    let dt = fxi(1).div(fxi(120));
    for _ in 0..600 {
        w.update(dt);
    }
    let state: Vec<(u128, f64, f64)> = ids
        .iter()
        .map(|&id| {
            let b = w.get_body(id).unwrap();
            (
                id,
                b.transform.pos.y.bits as f64 / FX_SCALE as f64,
                b.vel.y.bits as f64 / FX_SCALE as f64,
            )
        })
        .collect();
    for (id, y, vy) in &state {
        assert!(
            vy.abs() < 1.0,
            "body {id} at y={y} still moving at {vy} units/s; all: {state:?}"
        );
    }
}

/// Two identically initialised worlds stepped identically stay bit-identical.
#[test]
fn stepping_is_deterministic() {
    let build = || {
        let mut w = PhysicsManager::new();
        w.add_body(floor_at(vi(800, 850)));
        w.add_body(unit_box(80000, vi(790, 700)));
        w.add_body(unit_box(30000, vi(805, 650)));
        w.add_body(RigidBody::new(
            vi(820, 600),
            Shape::new_circle(fxi(12)),
            Material::super_ball(),
        ));
        w
    };
    let mut w1 = build();
    let mut w2 = build();
    let dt = fxi(1).div(fxi(120));
    for _ in 0..240 {
        w1.update(dt);
        w2.update(dt);
        for id in w1.body_ids() {
            let b1 = w1.get_body(id).unwrap();
            let b2 = w2.get_body(id).unwrap();
            assert_eq!(b1.transform.pos, b2.transform.pos);
            assert_eq!(b1.vel, b2.vel);
        }
    }
}
