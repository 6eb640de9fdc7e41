//! Geometric primitives: circles and convex clockwise polygons, their areas,
//! bounding boxes and point-containment tests.
//!
//! A polygon is stored as its local-space vertices, ordered clockwise in a
//! y-down screen frame; construction validates convexity and winding by
//! requiring every consecutive edge turn to have a strictly positive 2D cross
//! product, the exact form of "turn angle in (0, pi)".

use vstd::prelude::*;

use crate::fx::{clip, fx_add, fx_div, fx_mul, fx_sub, iabs, lemma_fx_mul_nonneg, tdiv, Fx,
    FX_LIMIT, FX_SCALE};
use crate::vec2::{v2, v2_add, v2_ok, Vec2};

verus! {

/// Fixed-point bits of the circle constant pi.
pub const PI_BITS: i64 = 314159;

/// How a world or shape operation can fail.
#[derive(Clone, Copy, Debug, PartialEq, Eq, Structural)]
pub enum PhysicsError {
    /// A polygon had fewer than three vertices, or was not convex and
    /// clockwise in the y-down frame.
    InvalidShape,
    /// An identifier named no live body.
    NotFound,
}

/// A closed convex primitive.
#[derive(Clone, Debug, PartialEq, Eq)]
pub enum Shape {
    Circle { r: Fx },
    Polygon { points: Vec<Vec2> },
}

/// An axis-aligned bounding box: `min` componentwise below `max`.
#[derive(Clone, Copy, Debug, PartialEq, Eq, Structural)]
pub struct AABB {
    pub min: Vec2,
    pub max: Vec2,
}

/// One contact: where two shapes touch, the unit direction from the first
/// shape toward the second, and how deeply they overlap.
#[derive(Clone, Copy, Debug, PartialEq, Eq, Structural)]
pub struct CollisionData {
    pub collision_point: Vec2,
    pub normal_vector: Vec2,
    pub depth: Fx,
}

/// The local vertices of a polygon (empty for a circle).
pub open spec fn shape_pts(s: Shape) -> Seq<Vec2> {
    match s {
        Shape::Polygon { points } => points@,
        Shape::Circle { .. } => Seq::empty(),
    }
}

/// Index `i` wrapped once around a cycle of length `n`.
pub open spec fn wrap_idx(i: int, n: int) -> int
    recommends
        0 <= i < 2 * n,
{
    if i < n {
        i
    } else {
        i - n
    }
}

/// Exact cross product of the edge into vertex `i+1` with the edge out of it.
/// Positive at every vertex exactly when the polygon is convex and wound
/// clockwise in the y-down frame.
pub open spec fn turn_cross(pts: Seq<Vec2>, i: int) -> int
    recommends
        pts.len() >= 2,
        0 <= i < pts.len(),
{
    let n = pts.len() as int;
    let a = pts[i];
    let b = pts[wrap_idx(i + 1, n)];
    let c = pts[wrap_idx(i + 2, n)];
    (b.x@ - a.x@) * (c.y@ - b.y@) - (b.y@ - a.y@) * (c.x@ - b.x@)
}

pub open spec fn poly_convex_cw(pts: Seq<Vec2>) -> bool {
    forall|i: int| 0 <= i < pts.len() ==> #[trigger] turn_cross(pts, i) > 0
}

/// Every stored coordinate of the shape is within the fixed-point range, a
/// circle has positive radius, and a polygon is convex, clockwise and has at
/// least three vertices.
pub open spec fn shape_ok(s: Shape) -> bool {
    match s {
        Shape::Circle { r } => 0 < r@ <= FX_LIMIT as int,
        Shape::Polygon { points } => {
            &&& points@.len() >= 3
            &&& forall|i: int| 0 <= i < points@.len() ==> v2_ok(#[trigger] points@[i])
            &&& poly_convex_cw(points@)
        },
    }
}

/// The vertices of `pts` translated by `pos` (with saturating adds, like the
/// executable translation).
pub open spec fn tr_pts(pts: Seq<Vec2>, pos: Vec2) -> Seq<Vec2> {
    Seq::new(pts.len(), |i: int| v2_add(pts[i], pos))
}

/// Area bits of the fan triangle `(pts[0], pts[k], pts[k+1])`: half the
/// absolute exact cross product, brought back to scalar scale.
pub open spec fn tri_area(pts: Seq<Vec2>, k: int) -> int
    recommends
        1 <= k,
        k + 1 < pts.len(),
{
    let a = pts[0];
    let b = pts[k];
    let c = pts[k + 1];
    let cr = (b.x@ - a.x@) * (c.y@ - a.y@) - (b.y@ - a.y@) * (c.x@ - a.x@);
    clip(tdiv(iabs(cr), 2 * FX_SCALE))
}

/// Saturating sum of the first `m` fan triangles, added in fan order.
pub open spec fn poly_area_upto(pts: Seq<Vec2>, m: int) -> int
    decreases m,
{
    if m <= 0 {
        0
    } else {
        fx_add(poly_area_upto(pts, m - 1), tri_area(pts, m))
    }
}

/// Exact area bits of a shape: `pi * r * r` for a circle, the fan-triangle
/// sum for a polygon.
pub open spec fn area_spec(s: Shape) -> int {
    match s {
        Shape::Circle { r } => fx_mul(PI_BITS as int, fx_mul(r@, r@)),
        Shape::Polygon { points } => poly_area_upto(points@, points@.len() - 2),
    }
}

/// Componentwise minimum x over the first `k+1` vertices.
pub open spec fn pts_min_x(pts: Seq<Vec2>, k: int) -> int
    decreases k,
{
    if k <= 0 {
        pts[0].x@
    } else if pts[k].x@ < pts_min_x(pts, k - 1) {
        pts[k].x@
    } else {
        pts_min_x(pts, k - 1)
    }
}

pub open spec fn pts_min_y(pts: Seq<Vec2>, k: int) -> int
    decreases k,
{
    if k <= 0 {
        pts[0].y@
    } else if pts[k].y@ < pts_min_y(pts, k - 1) {
        pts[k].y@
    } else {
        pts_min_y(pts, k - 1)
    }
}

pub open spec fn pts_max_x(pts: Seq<Vec2>, k: int) -> int
    decreases k,
{
    if k <= 0 {
        pts[0].x@
    } else if pts[k].x@ > pts_max_x(pts, k - 1) {
        pts[k].x@
    } else {
        pts_max_x(pts, k - 1)
    }
}

pub open spec fn pts_max_y(pts: Seq<Vec2>, k: int) -> int
    decreases k,
{
    if k <= 0 {
        pts[0].y@
    } else if pts[k].y@ > pts_max_y(pts, k - 1) {
        pts[k].y@
    } else {
        pts_max_y(pts, k - 1)
    }
}

/// The axis-aligned bounding box of a shape placed at `pos`: the circle's
/// centre plus and minus its radius, or the componentwise extremes of the
/// translated polygon vertices.
pub open spec fn aabb_spec(s: Shape, pos: Vec2) -> AABB {
    match s {
        Shape::Circle { r } => AABB {
            min: v2(fx_sub(pos.x@, r@), fx_sub(pos.y@, r@)),
            max: v2(fx_add(pos.x@, r@), fx_add(pos.y@, r@)),
        },
        Shape::Polygon { points } => {
            let ts = tr_pts(points@, pos);
            let k = ts.len() - 1;
            AABB {
                min: v2(pts_min_x(ts, k), pts_min_y(ts, k)),
                max: v2(pts_max_x(ts, k), pts_max_y(ts, k)),
            }
        },
    }
}

/// Two boxes overlap when neither lies strictly beyond the other on either axis.
pub open spec fn aabb_overlap(a: AABB, b: AABB) -> bool {
    &&& a.max.x@ >= b.min.x@
    &&& a.max.y@ >= b.min.y@
    &&& b.max.x@ >= a.min.x@
    &&& b.max.y@ >= a.min.y@
}

impl AABB {
    /// Whether two boxes overlap, on both axes at once.
    pub fn intersects(box1: &AABB, box2: &AABB) -> (r: bool)
        ensures
            r == aabb_overlap(*box1, *box2),
    {
        box1.max.x.bits >= box2.min.x.bits && box1.max.y.bits >= box2.min.y.bits
            && box2.max.x.bits >= box1.min.x.bits && box2.max.y.bits >= box1.min.y.bits
    }
}

/// The query point lies strictly inside the circle of radius `r` at `pos`.
pub open spec fn circle_contains(r: int, pos: Vec2, q: Vec2) -> bool {
    let dx = pos.x@ - q.x@;
    let dy = pos.y@ - q.y@;
    dx * dx + dy * dy < r * r
}

/// The query point is on the inner side of translated edge `i`: the turn from
/// the edge direction to the vector from the query to the edge start lies in
/// `[0, pi]`, i.e. the exact cross product is non-negative.
pub open spec fn edge_inside(ts: Seq<Vec2>, i: int, q: Vec2) -> bool
    recommends
        ts.len() > 0,
        0 <= i < ts.len(),
{
    let n = ts.len() as int;
    let a = ts[i];
    let b = ts[wrap_idx(i + 1, n)];
    let ex = b.x@ - a.x@;
    let ey = b.y@ - a.y@;
    let wx = a.x@ - q.x@;
    let wy = a.y@ - q.y@;
    wx * ey - wy * ex >= 0
}

/// The query point is inside the translated polygon: on the inner side of
/// every edge.
pub open spec fn poly_contains(ts: Seq<Vec2>, q: Vec2) -> bool {
    forall|i: int| 0 <= i < ts.len() ==> #[trigger] edge_inside(ts, i, q)
}

/// Containment for a whole shape placed at `pos`.
pub open spec fn point_inside_spec(s: Shape, pos: Vec2, q: Vec2) -> bool {
    match s {
        Shape::Circle { r } => circle_contains(r@, pos, q),
        Shape::Polygon { points } => poly_contains(tr_pts(points@, pos), q),
    }
}

/// Positive times positive is positive.
proof fn lemma_pos_mul(a: int, b: int)
    by (nonlinear_arith)
    requires
        a > 0,
        b > 0,
    ensures
        a * b > 0,
{
}

/// The four edge turns of a rectangle with positive half-extents are all
/// strictly positive, in the exact product shapes the corner coordinates give.
proof fn lemma_rect_turns(hw: int, hh: int, nw: int, nh: int)
    by (nonlinear_arith)
    requires
        hw >= 1,
        hh >= 1,
        nw == -hw,
        nh == -hh,
    ensures
        (hw - nw) * (hh - nh) - (nh - nh) * (hw - hw) > 0,
        (hw - hw) * (hh - hh) - (hh - nh) * (nw - hw) > 0,
        (nw - hw) * (nh - hh) - (hh - hh) * (nw - nw) > 0,
        (nw - nw) * (nh - nh) - (nh - hh) * (hw - nw) > 0,
{
}

/// Translate every vertex by `pos` (saturating adds).
pub fn translate(pts: &Vec<Vec2>, pos: Vec2) -> (ts: Vec<Vec2>)
    ensures
        ts@ == tr_pts(pts@, pos),
{
    let mut ts: Vec<Vec2> = Vec::new();
    let mut i: usize = 0;
    while i < pts.len()
        invariant
            i <= pts@.len(),
            ts@.len() == i,
            forall|k: int| 0 <= k < i ==> ts@[k] == v2_add(pts@[k], pos),
        decreases pts@.len() - i,
    {
        ts.push(pts[i].add(pos));
        i = i + 1;
    }
    proof {
        assert(ts@ =~= tr_pts(pts@, pos));
    }
    ts
}

/// Exact cross product of the turn at vertex `i+1`, computed in 128 bits.
fn turn_cross_exec(pts: &Vec<Vec2>, i: usize) -> (c: i128)
    requires
        pts@.len() >= 2,
        i < pts@.len(),
        forall|k: int| 0 <= k < pts@.len() ==> v2_ok(#[trigger] pts@[k]),
    ensures
        c as int == turn_cross(pts@, i as int),
{
    let n = pts.len();
    let i1 = if i + 1 < n {
        i + 1
    } else {
        0
    };
    let i2 = if i1 + 1 < n {
        i1 + 1
    } else {
        0
    };
    let a = pts[i];
    let b = pts[i1];
    let c = pts[i2];
    let e1x = (b.x.bits as i128) - (a.x.bits as i128);
    let e1y = (b.y.bits as i128) - (a.y.bits as i128);
    let e2x = (c.x.bits as i128) - (b.x.bits as i128);
    let e2y = (c.y.bits as i128) - (b.y.bits as i128);
    proof {
        assert(i1 as int == wrap_idx(i as int + 1, pts@.len() as int));
        assert(i2 as int == wrap_idx(i as int + 2, pts@.len() as int));
        crate::fx::lemma_prod_bound(e1x as int, e2y as int, 0x4000_0000_0000_0000);
        crate::fx::lemma_prod_bound(e1y as int, e2x as int, 0x4000_0000_0000_0000);
    }
    e1x * e2y - e1y * e2x
}

impl Shape {
    /// Build a polygon after validating that the vertices form a convex
    /// polygon wound clockwise in the y-down frame; anything else is refused.
    pub fn new_poly(ps: Vec<Vec2>) -> (r: Result<Shape, PhysicsError>)
        requires
            forall|i: int| 0 <= i < ps@.len() ==> v2_ok(#[trigger] ps@[i]),
        ensures
            r is Ok <==> ps@.len() >= 3 && poly_convex_cw(ps@),
            r is Ok ==> r->Ok_0 == (Shape::Polygon { points: ps }),
            r is Ok ==> shape_ok(r->Ok_0),
            r is Err ==> r->Err_0 == PhysicsError::InvalidShape,
    {
        if ps.len() < 3 {
            return Err(PhysicsError::InvalidShape);
        }
        let mut i: usize = 0;
        while i < ps.len()
            invariant
                ps@.len() >= 3,
                i <= ps@.len(),
                forall|k: int| 0 <= k < ps@.len() ==> v2_ok(#[trigger] ps@[k]),
                forall|k: int| 0 <= k < i ==> #[trigger] turn_cross(ps@, k) > 0,
            decreases ps@.len() - i,
        {
            let c = turn_cross_exec(&ps, i);
            if c <= 0 {
                return Err(PhysicsError::InvalidShape);
            }
            i = i + 1;
        }
        Ok(Shape::Polygon { points: ps })
    }

    /// An axis-aligned rectangle of width `w` and height `h` centred on the
    /// body position: four clockwise corners at half-extents.
    pub fn new_rect(w: Fx, h: Fx) -> (r: Shape)
        requires
            2 <= w@,
            2 <= h@,
        ensures
            shape_ok(r),
            r is Polygon,
            shape_pts(r) == seq![
                v2(-fx_div(w@, 2 * FX_SCALE), -fx_div(h@, 2 * FX_SCALE)),
                v2(fx_div(w@, 2 * FX_SCALE), -fx_div(h@, 2 * FX_SCALE)),
                v2(fx_div(w@, 2 * FX_SCALE), fx_div(h@, 2 * FX_SCALE)),
                v2(-fx_div(w@, 2 * FX_SCALE), fx_div(h@, 2 * FX_SCALE)),
            ],
    {
        let two = Fx::from_int(2);
        let hw = w.div(two);
        let hh = h.div(two);
        let nw = hw.neg();
        let nh = hh.neg();
        let points: Vec<Vec2> = vec![
            Vec2::new(nw, nh),
            Vec2::new(hw, nh),
            Vec2::new(hw, hh),
            Vec2::new(nw, hh),
        ];
        proof {
            let pts = points@;
            assert(w@ * FX_SCALE == w@ * 100000);
            assert((w@ * 100000) / 200000 >= 1);
            assert(h@ * FX_SCALE == h@ * 100000);
            assert((h@ * 100000) / 200000 >= 1);
            assert(hw@ >= 1 && hh@ >= 1);
            assert(nw@ == -hw@ && nh@ == -hh@);
            assert(pts.len() == 4);
            lemma_rect_turns(hw@, hh@, nw@, nh@);
            assert(turn_cross(pts, 0) == (hw@ - nw@) * (hh@ - nh@) - (nh@ - nh@) * (hw@ - hw@));
            assert(turn_cross(pts, 1) == (hw@ - hw@) * (hh@ - hh@) - (hh@ - nh@) * (nw@ - hw@));
            assert(turn_cross(pts, 2) == (nw@ - hw@) * (nh@ - hh@) - (hh@ - hh@) * (nw@ - nw@));
            assert(turn_cross(pts, 3) == (nw@ - nw@) * (nh@ - nh@) - (nh@ - hh@) * (hw@ - nw@));
            assert(forall|i: int| 0 <= i < 4 ==> #[trigger] turn_cross(pts, i) > 0);
        }
        Shape::Polygon { points }
    }

    /// A circle of radius `r`.
    pub fn new_circle(r: Fx) -> (s: Shape)
        requires
            0 < r@ <= FX_LIMIT as int,
        ensures
            s == (Shape::Circle { r }),
            shape_ok(s),
    {
        Shape::Circle { r }
    }

    /// Enclosed area: `pi * r * r` for a circle, the sum of fan triangles for
    /// a polygon. Never negative.
    pub fn area(&self) -> (a: Fx)
        requires
            shape_ok(*self),
        ensures
            a@ == area_spec(*self),
            a@ >= 0,
    {
        match self {
            Shape::Circle { r } => {
                let pi = Fx { bits: PI_BITS };
                let r2 = r.mul(*r);
                proof {
                    lemma_fx_mul_nonneg(r@, r@);
                    lemma_fx_mul_nonneg(PI_BITS as int, r2@);
                }
                pi.mul(r2)
            },
            Shape::Polygon { points } => {
                let n = points.len();
                let mut acc = Fx { bits: 0 };
                let mut k: usize = 1;
                while k < n - 1
                    invariant
                        3 <= n == points@.len(),
                        1 <= k <= n - 1,
                        forall|m: int| 0 <= m < points@.len() ==> v2_ok(#[trigger] points@[m]),
                        acc@ == poly_area_upto(points@, k - 1),
                        acc@ >= 0,
                    decreases n - k,
                {
                    let a = points[0];
                    let b = points[k];
                    let c = points[k + 1];
                    let bax = (b.x.bits as i128) - (a.x.bits as i128);
                    let bay = (b.y.bits as i128) - (a.y.bits as i128);
                    let cax = (c.x.bits as i128) - (a.x.bits as i128);
                    let cay = (c.y.bits as i128) - (a.y.bits as i128);
                    proof {
                        crate::fx::lemma_prod_bound(bax as int, cay as int, 0x4000_0000_0000_0000);
                        crate::fx::lemma_prod_bound(bay as int, cax as int, 0x4000_0000_0000_0000);
                    }
                    let cr: i128 = bax * cay - bay * cax;
                    let m: u128 = if cr >= 0 {
                        cr as u128
                    } else {
                        (-cr) as u128
                    };
                    let q: u128 = m / (2 * FX_SCALE as u128);
                    let t: i64 = if q > FX_LIMIT as u128 {
                        FX_LIMIT
                    } else {
                        q as i64
                    };
                    proof {
                        assert(t as int == tri_area(points@, k as int));
                    }
                    acc = acc.add(Fx { bits: t });
                    k = k + 1;
                }
                acc
            },
        }
    }

    /// The bounding box of this shape placed at `pos`. Rotation is stored by
    /// bodies but not yet applied to geometry, so `_rot` is ignored.
    pub fn get_aabb(&self, pos: Vec2, _rot: Fx) -> (b: AABB)
        requires
            shape_ok(*self),
        ensures
            b == aabb_spec(*self, pos),
    {
        match self {
            Shape::Circle { r } => {
                let rv = Vec2::new(*r, *r);
                AABB { min: pos.sub(rv), max: pos.add(rv) }
            },
            Shape::Polygon { points } => {
                let ts = translate(points, pos);
                let mut min_x = ts[0].x;
                let mut min_y = ts[0].y;
                let mut max_x = ts[0].x;
                let mut max_y = ts[0].y;
                let mut k: usize = 1;
                while k < ts.len()
                    invariant
                        ts@.len() == points@.len() >= 3,
                        ts@ == tr_pts(points@, pos),
                        1 <= k <= ts@.len(),
                        min_x@ == pts_min_x(ts@, k - 1),
                        min_y@ == pts_min_y(ts@, k - 1),
                        max_x@ == pts_max_x(ts@, k - 1),
                        max_y@ == pts_max_y(ts@, k - 1),
                    decreases ts@.len() - k,
                {
                    let p = ts[k];
                    if p.x.bits < min_x.bits {
                        min_x = p.x;
                    }
                    if p.y.bits < min_y.bits {
                        min_y = p.y;
                    }
                    if p.x.bits > max_x.bits {
                        max_x = p.x;
                    }
                    if p.y.bits > max_y.bits {
                        max_y = p.y;
                    }
                    k = k + 1;
                }
                AABB { min: Vec2::new(min_x, min_y), max: Vec2::new(max_x, max_y) }
            },
        }
    }

    /// Whether `point` lies inside this shape placed at `pos`: strictly within
    /// a circle's radius, or on the inner side of every polygon edge.
    pub fn point_inside(&self, pos: &Vec2, point: &Vec2) -> (r: bool)
        requires
            shape_ok(*self),
            v2_ok(*pos),
            v2_ok(*point),
        ensures
            r == point_inside_spec(*self, *pos, *point),
    {
        match self {
            Shape::Circle { r } => {
                let dx = (pos.x.bits as i128) - (point.x.bits as i128);
                let dy = (pos.y.bits as i128) - (point.y.bits as i128);
                proof {
                    crate::fx::lemma_prod_bound(dx as int, dx as int, 0x4000_0000_0000_0000);
                    crate::fx::lemma_prod_bound(dy as int, dy as int, 0x4000_0000_0000_0000);
                    crate::fx::lemma_prod_bound(r@, r@, 0x4000_0000_0000_0000);
                }
                dx * dx + dy * dy < (r.bits as i128) * (r.bits as i128)
            },
            Shape::Polygon { points } => {
                let ts = translate(points, *pos);
                let n = ts.len();
                let mut i: usize = 0;
                while i < n
                    invariant
                        n == ts@.len() == points@.len() >= 3,
                        ts@ == tr_pts(points@, *pos),
                        point_inside_spec(*self, *pos, *point) == poly_contains(ts@, *point),
                        i <= n,
                        v2_ok(*point),
                        forall|m: int| 0 <= m < points@.len() ==> v2_ok(#[trigger] points@[m]),
                        forall|k: int| 0 <= k < i ==> #[trigger] edge_inside(ts@, k, *point),
                    decreases n - i,
                {
                    let i1 = if i + 1 < n {
                        i + 1
                    } else {
                        0
                    };
                    let a = ts[i];
                    let b = ts[i1];
                    let ex = (b.x.bits as i128) - (a.x.bits as i128);
                    let ey = (b.y.bits as i128) - (a.y.bits as i128);
                    let wx = (a.x.bits as i128) - (point.x.bits as i128);
                    let wy = (a.y.bits as i128) - (point.y.bits as i128);
                    proof {
                        assert(i1 as int == wrap_idx(i as int + 1, n as int));
                        crate::fx::lemma_prod_bound(wx as int, ey as int, 0x4000_0000_0000_0000);
                        crate::fx::lemma_prod_bound(wy as int, ex as int, 0x4000_0000_0000_0000);
                    }
                    if wx * ey - wy * ex < 0 {
                        proof {
                            assert(!edge_inside(ts@, i as int, *point));
                        }
                        return false;
                    }
                    i = i + 1;
                }
                true
            },
        }
    }
}

} // verus!
