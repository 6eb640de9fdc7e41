use thrust::fx::{Fx, FX_SCALE};
use thrust::shape::{PhysicsError, Shape, AABB};
use thrust::vec2::Vec2;

fn fxi(v: i64) -> Fx {
    Fx::from_int(v)
}

fn vi(x: i64, y: i64) -> Vec2 {
    Vec2::from_ints(x, y)
}

#[test]
fn circle_area_is_pi_r_squared() {
    let c = Shape::new_circle(fxi(10));
    // pi (314159 stored units) times 100
    assert_eq!(c.area().bits, 31415900);
}

#[test]
fn rect_area() {
    let r = Shape::new_rect(fxi(20), fxi(20));
    assert_eq!(r.area().bits, 400 * FX_SCALE);
    let r2 = Shape::new_rect(fxi(200), fxi(20));
    assert_eq!(r2.area().bits, 4000 * FX_SCALE);
}

#[test]
fn poly_construction_validates_winding() {
    // clockwise (y-down) triangle is accepted
    let cw = Shape::new_poly(vec![vi(0, 0), vi(40, 0), vi(10, 70)]);
    assert!(cw.is_ok());
    // the same triangle in counter-clockwise order is refused
    let ccw = Shape::new_poly(vec![vi(0, 0), vi(10, 70), vi(40, 0)]);
    assert_eq!(ccw.unwrap_err(), PhysicsError::InvalidShape);
    // doubling back (collinear turn) is refused
    let flat = Shape::new_poly(vec![vi(0, 0), vi(10, 0), vi(20, 0), vi(10, 10)]);
    assert_eq!(flat.unwrap_err(), PhysicsError::InvalidShape);
    // fewer than three vertices is refused
    let degenerate = Shape::new_poly(vec![vi(0, 0), vi(10, 0)]);
    assert_eq!(degenerate.unwrap_err(), PhysicsError::InvalidShape);
}

#[test]
fn circle_aabb() {
    let c = Shape::new_circle(fxi(10));
    let b = c.get_aabb(vi(100, 50), Fx::zero());
    assert_eq!((b.min.x.bits, b.min.y.bits), (90 * FX_SCALE, 40 * FX_SCALE));
    assert_eq!((b.max.x.bits, b.max.y.bits), (110 * FX_SCALE, 60 * FX_SCALE));
}

#[test]
fn rect_aabb() {
    let r = Shape::new_rect(fxi(20), fxi(40));
    let b = r.get_aabb(vi(5, 5), Fx::zero());
    assert_eq!((b.min.x.bits, b.min.y.bits), (-5 * FX_SCALE, -15 * FX_SCALE));
    assert_eq!((b.max.x.bits, b.max.y.bits), (15 * FX_SCALE, 25 * FX_SCALE));
}

#[test]
fn aabb_overlap_checks_both_axes() {
    let a = AABB { min: vi(0, 0), max: vi(10, 10) };
    let b = AABB { min: vi(5, 5), max: vi(15, 15) };
    assert!(AABB::intersects(&a, &b));
    // separated along y only: must not overlap
    let c = AABB { min: vi(0, 20), max: vi(10, 30) };
    assert!(!AABB::intersects(&a, &c));
    // separated along x only
    let d = AABB { min: vi(20, 0), max: vi(30, 10) };
    assert!(!AABB::intersects(&a, &d));
}

#[test]
fn point_inside_circle() {
    let c = Shape::new_circle(fxi(10));
    let pos = vi(100, 100);
    assert!(c.point_inside(&pos, &vi(105, 105)));
    assert!(!c.point_inside(&pos, &vi(111, 100)));
    // the boundary is not strictly inside
    assert!(!c.point_inside(&pos, &vi(110, 100)));
}

#[test]
fn point_inside_polygon() {
    let r = Shape::new_rect(fxi(20), fxi(20));
    let pos = vi(0, 0);
    assert!(r.point_inside(&pos, &vi(0, 0)));
    assert!(r.point_inside(&pos, &vi(9, -9)));
    assert!(!r.point_inside(&pos, &vi(11, 0)));
    assert!(!r.point_inside(&pos, &vi(0, -11)));
}

#[test]
fn rectangle_intersection() {
    let shape1 = Shape::new_rect(fxi(20), fxi(30));
    let shape2 = Shape::new_rect(fxi(50), fxi(10));
    assert!(Shape::intersects(&shape1, &vi(100, 100), &shape2, &vi(130, 110)));
    assert!(Shape::intersects(&shape1, &vi(100, 100), &shape2, &vi(135, 115)));
    assert!(!Shape::intersects(&shape1, &vi(100, 100), &shape2, &vi(150, 130)));
}

#[test]
fn circle_intersection() {
    let shape1 = Shape::new_circle(fxi(30));
    let shape2 = Shape::new_circle(fxi(20));
    assert!(Shape::intersects(&shape1, &vi(100, 100), &shape2, &vi(130, 100)));
    assert!(Shape::intersects(&shape1, &vi(100, 100), &shape2, &vi(130, 140)));
    assert!(!Shape::intersects(&shape1, &vi(100, 100), &shape2, &vi(160, 100)));
}

#[test]
fn rectangle_circle_intersection() {
    let rect = Shape::new_rect(fxi(30), fxi(50));
    let circle = Shape::new_circle(fxi(30));
    assert!(Shape::intersects(&rect, &vi(100, 100), &circle, &vi(140, 140)));
    assert!(!Shape::intersects(&rect, &vi(50, 600), &circle, &vi(140, 140)));
    // and the mirrored dispatch agrees
    assert!(Shape::intersects(&circle, &vi(140, 140), &rect, &vi(100, 100)));
}

#[test]
fn circle_circle_collision_data() {
    let shape1 = Shape::new_circle(fxi(40));
    let shape2 = Shape::new_circle(fxi(40));
    let cd = Shape::collision_data(&shape1, &vi(0, 0), &shape2, &vi(30, 40)).unwrap();
    assert_eq!(cd.depth.bits, 30 * FX_SCALE);
    assert_eq!((cd.normal_vector.x.bits, cd.normal_vector.y.bits), (60000, 80000));
    assert_eq!(
        (cd.collision_point.x.bits, cd.collision_point.y.bits),
        (33 * FX_SCALE, 44 * FX_SCALE)
    );
    // far apart: no contact
    assert!(Shape::collision_data(&shape1, &vi(0, 0), &shape2, &vi(100, 0)).is_none());
}

#[test]
fn rect_rect_collision_data() {
    let shape1 = Shape::new_rect(fxi(50), fxi(40));
    let shape2 = Shape::new_rect(fxi(40), fxi(60));
    let cd = Shape::collision_data(&shape1, &vi(100, 100), &shape2, &vi(100, 140)).unwrap();
    assert_eq!(cd.depth.bits, 10 * FX_SCALE);
    assert_eq!((cd.normal_vector.x.bits, cd.normal_vector.y.bits), (0, FX_SCALE));
    // the contact sits half the depth past the deepest vertex of shape2
    assert_eq!(cd.collision_point.y.bits, 115 * FX_SCALE);
    assert_eq!(cd.collision_point.x.bits, 80 * FX_SCALE);
}

#[test]
fn rect_circle_collision_data_vertical_outside() {
    let rect = Shape::new_rect(fxi(200), fxi(50));
    let circle = Shape::new_circle(fxi(20));
    let cd = Shape::collision_data(&rect, &vi(0, 0), &circle, &vi(0, 40)).unwrap();
    assert_eq!(cd.depth.bits, 5 * FX_SCALE);
    assert_eq!((cd.normal_vector.x.bits, cd.normal_vector.y.bits), (0, FX_SCALE));
    assert_eq!((cd.collision_point.x.bits, cd.collision_point.y.bits), (0, 2250000));
}

#[test]
fn rect_circle_collision_data_vertical_inside() {
    let rect = Shape::new_rect(fxi(200), fxi(50));
    let circle = Shape::new_circle(fxi(20));
    let cd = Shape::collision_data(&rect, &vi(0, 0), &circle, &vi(0, 20)).unwrap();
    assert_eq!(cd.depth.bits, 25 * FX_SCALE);
    assert_eq!((cd.normal_vector.x.bits, cd.normal_vector.y.bits), (0, FX_SCALE));
    assert_eq!((cd.collision_point.x.bits, cd.collision_point.y.bits), (0, 1250000));
}

#[test]
fn rect_circle_collision_data_horizontal_outside() {
    let rect = Shape::new_rect(fxi(50), fxi(200));
    let circle = Shape::new_circle(fxi(20));
    let cd = Shape::collision_data(&rect, &vi(0, 0), &circle, &vi(40, 0)).unwrap();
    assert_eq!(cd.depth.bits, 5 * FX_SCALE);
    assert_eq!((cd.normal_vector.x.bits, cd.normal_vector.y.bits), (FX_SCALE, 0));
    assert_eq!((cd.collision_point.x.bits, cd.collision_point.y.bits), (2250000, 0));
}

#[test]
fn mirrored_dispatch_negates_normal() {
    let rect = Shape::new_rect(fxi(200), fxi(50));
    let circle = Shape::new_circle(fxi(20));
    let pc = Shape::collision_data(&rect, &vi(0, 0), &circle, &vi(0, 40)).unwrap();
    let cp = Shape::collision_data(&circle, &vi(0, 40), &rect, &vi(0, 0)).unwrap();
    assert_eq!(cp.normal_vector.x.bits, -pc.normal_vector.x.bits);
    assert_eq!(cp.normal_vector.y.bits, -pc.normal_vector.y.bits);
    assert_eq!(cp.depth.bits, pc.depth.bits);
    assert_eq!(cp.collision_point, pc.collision_point);
}

#[test]
fn coincident_circles_take_unit_x_normal() {
    let c = Shape::new_circle(fxi(10));
    let cd = Shape::collision_data(&c, &vi(50, 50), &c, &vi(50, 50)).unwrap();
    assert_eq!((cd.normal_vector.x.bits, cd.normal_vector.y.bits), (FX_SCALE, 0));
    assert_eq!(cd.depth.bits, 20 * FX_SCALE);
}

#[test]
fn contact_implies_aabb_overlap() {
    let shapes = [
        (Shape::new_circle(fxi(15)), Shape::new_circle(fxi(12))),
        (Shape::new_rect(fxi(20), fxi(30)), Shape::new_circle(fxi(12))),
        (Shape::new_rect(fxi(20), fxi(30)), Shape::new_rect(fxi(25), fxi(10))),
    ];
    for (s1, s2) in shapes.iter() {
        for dx in [-20i64, -10, 0, 10, 20] {
            for dy in [-20i64, -10, 0, 10, 20] {
                let p1 = vi(100, 100);
                let p2 = vi(100 + dx, 100 + dy);
                if Shape::collision_data(s1, &p1, s2, &p2).is_some() {
                    let b1 = s1.get_aabb(p1, Fx::zero());
                    let b2 = s2.get_aabb(p2, Fx::zero());
                    assert!(AABB::intersects(&b1, &b2));
                }
            }
        }
    }
}
