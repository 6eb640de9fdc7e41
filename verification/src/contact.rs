//! Pairwise shape intersection tests and contact-manifold generation.
//!
//! Intersection of circles and of polygon pairs is decided exactly, on
//! 128-bit products of the stored coordinates (the separating-axis test needs
//! only signs, never a normalised length). Contact data comes from a
//! deepest-point separating-axis scan for polygons and an edge-slab plus
//! vertex-region scan for polygon/circle; each contract states the exact
//! fixed-point value of every field through the candidate specs below.
//!
//! Conventions: the contact normal is a unit vector from the first shape
//! toward the second; depth is non-negative whenever a contact is returned;
//! the pair (circle, polygon) is answered by mirroring (polygon, circle) and
//! negating the normal. Among equally deep candidates the earliest scanned
//! wins: the first shape's edges are scanned before the second's, and edges
//! before vertex regions.

use vstd::prelude::*;

use crate::fx::{fx_add, fx_div, fx_neg, fx_ok, fx_sub, lemma_prod_bound, Fx, FX_SCALE};
use crate::vec2::{dot_exact, v2, v2_add, v2_divide, v2_dot, v2_len, v2_neg, v2_normalize, v2_ok,
    v2_perp, v2_scale, v2_sub, Vec2};
use crate::shape::{shape_ok, tr_pts, translate, wrap_idx, CollisionData, Shape};

verus! {

/// Exact squared-distance test: circles overlap when the distance between
/// centres is at most the sum of the radii.
pub open spec fn cc_intersects(r1: int, p1: Vec2, r2: int, p2: Vec2) -> bool {
    let dx = p1.x@ - p2.x@;
    let dy = p1.y@ - p2.y@;
    dx * dx + dy * dy <= (r1 + r2) * (r1 + r2)
}

/// Exact inward-normal dot of translated edge `i` of `ta` against vertex `j`
/// of `tb`; positive for every `j` means the edge's line separates the two.
pub open spec fn sep_dot(ta: Seq<Vec2>, i: int, tb: Seq<Vec2>, j: int) -> int
    recommends
        0 <= i < ta.len(),
        0 <= j < tb.len(),
{
    let p = ta[i];
    let q = ta[wrap_idx(i + 1, ta.len() as int)];
    let nx = p.y@ - q.y@;
    let ny = q.x@ - p.x@;
    nx * (p.x@ - tb[j].x@) + ny * (p.y@ - tb[j].y@)
}

pub open spec fn edge_separates(ta: Seq<Vec2>, i: int, tb: Seq<Vec2>) -> bool {
    forall|j: int| 0 <= j < tb.len() ==> #[trigger] sep_dot(ta, i, tb, j) > 0
}

pub open spec fn poly_separated(ta: Seq<Vec2>, tb: Seq<Vec2>) -> bool {
    exists|i: int| 0 <= i < ta.len() && #[trigger] edge_separates(ta, i, tb)
}

/// Exact separating-axis test over the edges of both translated polygons.
pub open spec fn pp_intersects(ta: Seq<Vec2>, tb: Seq<Vec2>) -> bool {
    !poly_separated(ta, tb) && !poly_separated(tb, ta)
}

/// Distance of the circle centre beyond translated edge `i`, as the
/// executable code computes it: along the normalised outward edge normal.
pub open spec fn pc_edge_dist(ts: Seq<Vec2>, i: int, c: Vec2) -> int
    recommends
        0 <= i < ts.len(),
{
    let p = ts[i];
    let q = ts[wrap_idx(i + 1, ts.len() as int)];
    let nh = v2_normalize(v2(fx_sub(p.y@, q.y@), fx_sub(q.x@, p.x@)));
    v2_dot(nh, v2_sub(p, c))
}

/// Support of the polygon along the direction from the centre to vertex `i`,
/// over the first `k+1` vertices, as the executable code computes it.
pub open spec fn pc_vert_dot(ts: Seq<Vec2>, i: int, c: Vec2, j: int) -> int
    recommends
        0 <= i < ts.len(),
        0 <= j < ts.len(),
{
    let nh = v2_normalize(v2_sub(ts[i], c));
    v2_dot(nh, v2_sub(ts[j], c))
}

pub open spec fn pc_vert_min(ts: Seq<Vec2>, i: int, c: Vec2, k: int) -> int
    decreases k,
{
    if k <= 0 {
        pc_vert_dot(ts, i, c, 0)
    } else {
        let prev = pc_vert_min(ts, i, c, k - 1);
        let d = pc_vert_dot(ts, i, c, k);
        if d < prev {
            d
        } else {
            prev
        }
    }
}

/// The circle reaches past no edge slab and past no vertex direction.
pub open spec fn pc_intersects(ts: Seq<Vec2>, c: Vec2, r: int) -> bool {
    &&& forall|i: int| 0 <= i < ts.len() ==> #[trigger] pc_edge_dist(ts, i, c) <= r
    &&& forall|i: int| 0 <= i < ts.len() ==> #[trigger] pc_vert_min(ts, i, c, ts.len() - 1) <= r
}

/// Whether two placed shapes overlap.
pub open spec fn intersects_spec(s1: Shape, p1: Vec2, s2: Shape, p2: Vec2) -> bool {
    match (s1, s2) {
        (Shape::Circle { r: r1 }, Shape::Circle { r: r2 }) => cc_intersects(r1@, p1, r2@, p2),
        (Shape::Polygon { points: a }, Shape::Polygon { points: b }) => pp_intersects(
            tr_pts(a@, p1),
            tr_pts(b@, p2),
        ),
        (Shape::Polygon { points: a }, Shape::Circle { r }) => pc_intersects(
            tr_pts(a@, p1),
            p2,
            r@,
        ),
        (Shape::Circle { r }, Shape::Polygon { points: b }) => pc_intersects(
            tr_pts(b@, p2),
            p1,
            r@,
        ),
    }
}

/// Keep the shallower of two optional candidates; an earlier candidate wins
/// a tie.
pub open spec fn sel_better(acc: Option<CollisionData>, c: Option<CollisionData>) -> Option<
    CollisionData,
> {
    match c {
        Option::None => acc,
        Option::Some(cd) => match acc {
            Option::None => Option::Some(cd),
            Option::Some(b) => if cd.depth@ < b.depth@ {
                Option::Some(cd)
            } else {
                Option::Some(b)
            },
        },
    }
}

/// The shallowest of the first `k` candidates, earliest first on ties.
pub open spec fn sel_fold(cands: Seq<Option<CollisionData>>, k: int) -> Option<CollisionData>
    decreases k,
{
    if k <= 0 {
        Option::None
    } else {
        sel_better(sel_fold(cands, k - 1), cands[k - 1])
    }
}

/// Index of the vertex of `tb` deepest along `-nh`, over the first `k+1`
/// vertices; the exact dot products are compared, and the earliest deepest
/// vertex is kept.
pub open spec fn deep_idx(nh: Vec2, tb: Seq<Vec2>, k: int) -> int
    decreases k,
{
    if k <= 0 {
        0
    } else {
        let prev = deep_idx(nh, tb, k - 1);
        if dot_exact(nh, tb[k]) < dot_exact(nh, tb[prev]) {
            k
        } else {
            prev
        }
    }
}

/// The contact candidate of translated edge `i` of `ta` against polygon `tb`:
/// depth of `tb`'s deepest vertex behind the edge, measured along the
/// normalised outward edge normal; the point sits half the depth out from
/// that vertex. `flip` negates the reported normal (used for the second
/// polygon's edges so the normal still points from the first shape to the
/// second).
pub open spec fn pp_edge_cand(ta: Seq<Vec2>, tb: Seq<Vec2>, i: int, flip: bool) -> CollisionData
    recommends
        0 <= i < ta.len(),
        tb.len() >= 1,
{
    let p = ta[i];
    let q = ta[wrap_idx(i + 1, ta.len() as int)];
    let nh = v2_normalize(v2_perp(v2_sub(p, q)));
    let v = tb[deep_idx(nh, tb, tb.len() - 1)];
    let d = fx_neg(v2_dot(nh, v2_sub(v, p)));
    CollisionData {
        collision_point: v2_add(v, v2_divide(v2_scale(nh, d), 200000)),
        normal_vector: if flip {
            v2_neg(nh)
        } else {
            nh
        },
        depth: Fx { bits: d as i64 },
    }
}

/// All polygon/polygon candidates: the first polygon's edges, then the
/// second's with flipped normals.
pub open spec fn pp_cands(ta: Seq<Vec2>, tb: Seq<Vec2>) -> Seq<Option<CollisionData>> {
    Seq::new(
        ta.len() + tb.len(),
        |k: int| if k < ta.len() {
            Option::Some(pp_edge_cand(ta, tb, k, false))
        } else {
            Option::Some(pp_edge_cand(tb, ta, k - ta.len(), true))
        },
    )
}

/// Polygon/polygon contact: the minimum-depth candidate; a negative minimum
/// means a separating edge exists and the polygons are disjoint.
pub open spec fn pp_collision(ta: Seq<Vec2>, tb: Seq<Vec2>) -> Option<CollisionData> {
    match sel_fold(pp_cands(ta, tb), ta.len() + tb.len() as int) {
        Option::None => Option::None,
        Option::Some(c) => if c.depth@ < 0 {
            Option::None
        } else {
            Option::Some(c)
        },
    }
}

/// The edge-slab candidate of translated edge `i` against the circle: the
/// circle's deepest point is its centre moved back one radius along the
/// normalised outward edge normal.
pub open spec fn pc_edge_cand(ts: Seq<Vec2>, i: int, c: Vec2, r: int) -> CollisionData
    recommends
        0 <= i < ts.len(),
{
    let p = ts[i];
    let q = ts[wrap_idx(i + 1, ts.len() as int)];
    let nh = v2_normalize(v2_perp(v2_sub(p, q)));
    let deep = v2_sub(c, v2_scale(nh, r));
    let d = fx_neg(v2_dot(nh, v2_sub(deep, p)));
    CollisionData {
        collision_point: v2_add(deep, v2_divide(v2_scale(nh, d), 200000)),
        normal_vector: nh,
        depth: Fx { bits: d as i64 },
    }
}

/// The vertex-region candidate of translated vertex `i+1`: taken only when
/// the centre projects beyond the end of the edge into the vertex and before
/// the start of the edge out of it (the vertex's exterior Voronoi region),
/// with positive depth `r - |centre - vertex|`.
pub open spec fn pc_vert_cand(ts: Seq<Vec2>, i: int, c: Vec2, r: int) -> Option<CollisionData>
    recommends
        0 <= i < ts.len(),
{
    let n = ts.len() as int;
    let p0 = ts[i];
    let p1 = ts[wrap_idx(i + 1, n)];
    let p2 = ts[wrap_idx(i + 2, n)];
    let s0x = p1.x@ - p0.x@;
    let s0y = p1.y@ - p0.y@;
    let s1x = p2.x@ - p1.x@;
    let s1y = p2.y@ - p1.y@;
    let beyond_s0 = s0x * (c.x@ - p0.x@) + s0y * (c.y@ - p0.y@) >= s0x * s0x + s0y * s0y;
    let before_s1 = s1x * (c.x@ - p1.x@) + s1y * (c.y@ - p1.y@) <= 0;
    let d = fx_sub(r, v2_len(v2_sub(c, p1)));
    let nn = v2_normalize(v2_sub(c, p1));
    if beyond_s0 && before_s1 && d > 0 {
        Option::Some(
            CollisionData {
                collision_point: v2_add(p1, v2_divide(v2_scale(v2_neg(nn), d), 200000)),
                normal_vector: nn,
                depth: Fx { bits: d as i64 },
            },
        )
    } else {
        Option::None
    }
}

/// All polygon/circle candidates: every edge slab, then every vertex region.
pub open spec fn pc_cands(ts: Seq<Vec2>, c: Vec2, r: int) -> Seq<Option<CollisionData>> {
    Seq::new(
        ts.len() + ts.len(),
        |k: int| if k < ts.len() {
            Option::Some(pc_edge_cand(ts, k, c, r))
        } else {
            pc_vert_cand(ts, k - ts.len(), c, r)
        },
    )
}

/// Polygon/circle contact: the minimum-depth candidate; a negative minimum
/// means the circle lies strictly outside some edge slab.
pub open spec fn pc_collision(ts: Seq<Vec2>, c: Vec2, r: int) -> Option<CollisionData> {
    match sel_fold(pc_cands(ts, c, r), ts.len() + ts.len() as int) {
        Option::None => Option::None,
        Option::Some(cd) => if cd.depth@ < 0 {
            Option::None
        } else {
            Option::Some(cd)
        },
    }
}

/// Circle/circle contact: exact disjointness test on squared distances; on
/// overlap, the normal follows the centre difference, the depth is the radius
/// sum less the centre distance, and the point sits depth/2 past the first
/// circle's surface. Coincident centres take the unit x direction.
pub open spec fn cc_collision(r1: int, p1: Vec2, r2: int, p2: Vec2) -> Option<CollisionData> {
    if !cc_intersects(r1, p1, r2, p2) {
        Option::None
    } else {
        let diff = v2_sub(p2, p1);
        let rsum = fx_add(r1, r2);
        if diff.x@ == 0 && diff.y@ == 0 {
            let nh = v2(FX_SCALE as int, 0);
            Option::Some(
                CollisionData {
                    collision_point: v2_add(
                        p1,
                        v2_scale(nh, fx_add(fx_div(rsum, 200000), r1)),
                    ),
                    normal_vector: nh,
                    depth: Fx { bits: rsum as i64 },
                },
            )
        } else {
            let d = fx_sub(rsum, v2_len(diff));
            let nh = v2_normalize(diff);
            Option::Some(
                CollisionData {
                    collision_point: v2_add(p1, v2_scale(nh, fx_add(fx_div(d, 200000), r1))),
                    normal_vector: nh,
                    depth: Fx { bits: d as i64 },
                },
            )
        }
    }
}

/// Negate the normal of a contact, for mirrored dispatch.
pub open spec fn flip_normal(o: Option<CollisionData>) -> Option<CollisionData> {
    match o {
        Option::None => Option::None,
        Option::Some(c) => Option::Some(
            CollisionData {
                collision_point: c.collision_point,
                normal_vector: v2_neg(c.normal_vector),
                depth: c.depth,
            },
        ),
    }
}

/// The contact between two placed shapes, if they touch. The normal points
/// from the first shape toward the second; the unlisted pair (circle,
/// polygon) mirrors (polygon, circle) and negates the normal.
pub open spec fn collision_spec(s1: Shape, p1: Vec2, s2: Shape, p2: Vec2) -> Option<
    CollisionData,
> {
    match (s1, s2) {
        (Shape::Circle { r: r1 }, Shape::Circle { r: r2 }) => cc_collision(r1@, p1, r2@, p2),
        (Shape::Polygon { points: a }, Shape::Polygon { points: b }) => pp_collision(
            tr_pts(a@, p1),
            tr_pts(b@, p2),
        ),
        (Shape::Polygon { points: a }, Shape::Circle { r }) => pc_collision(
            tr_pts(a@, p1),
            p2,
            r@,
        ),
        (Shape::Circle { r }, Shape::Polygon { points: b }) => flip_normal(
            pc_collision(tr_pts(b@, p2), p1, r@),
        ),
    }
}

/// Translated vertices stay within the fixed-point range (translation
/// saturates).
pub proof fn lemma_tr_ok(pts: Seq<Vec2>, pos: Vec2)
    ensures
        forall|k: int| 0 <= k < tr_pts(pts, pos).len() ==> v2_ok(#[trigger] tr_pts(pts, pos)[k]),
{
}

/// Exact dot product, evaluated in 128 bits.
fn dot_exact_exec(a: Vec2, b: Vec2) -> (d: i128)
    requires
        v2_ok(a),
        v2_ok(b),
    ensures
        d as int == dot_exact(a, b),
{
    proof {
        lemma_prod_bound(a.x@, b.x@, 0x4000_0000_0000_0000);
        lemma_prod_bound(a.y@, b.y@, 0x4000_0000_0000_0000);
    }
    (a.x.bits as i128) * (b.x.bits as i128) + (a.y.bits as i128) * (b.y.bits as i128)
}

/// Index of the vertex of `tb` with the smallest exact dot against `nh`
/// (the deepest vertex behind an edge with outward normal `nh`).
fn deepest_index(nh: Vec2, tb: &Vec<Vec2>) -> (j: usize)
    requires
        tb@.len() >= 1,
        v2_ok(nh),
        forall|k: int| 0 <= k < tb@.len() ==> v2_ok(#[trigger] tb@[k]),
    ensures
        j < tb@.len(),
        j as int == deep_idx(nh, tb@, tb@.len() - 1),
{
    let mut best: usize = 0;
    let mut bd: i128 = dot_exact_exec(nh, tb[0]);
    let mut k: usize = 1;
    while k < tb.len()
        invariant
            1 <= k <= tb@.len(),
            best < k,
            v2_ok(nh),
            forall|m: int| 0 <= m < tb@.len() ==> v2_ok(#[trigger] tb@[m]),
            bd as int == dot_exact(nh, tb@[best as int]),
            best as int == deep_idx(nh, tb@, k - 1),
        decreases tb@.len() - k,
    {
        let dk = dot_exact_exec(nh, tb[k]);
        if dk < bd {
            best = k;
            bd = dk;
        }
        k = k + 1;
    }
    best
}

/// Whether some edge of `ta` has all of `tb` strictly on its outer side.
fn has_separating_edge(ta: &Vec<Vec2>, tb: &Vec<Vec2>) -> (r: bool)
    requires
        ta@.len() >= 1,
        tb@.len() >= 1,
        forall|k: int| 0 <= k < ta@.len() ==> v2_ok(#[trigger] ta@[k]),
        forall|k: int| 0 <= k < tb@.len() ==> v2_ok(#[trigger] tb@[k]),
    ensures
        r == poly_separated(ta@, tb@),
{
    let na = ta.len();
    let nb = tb.len();
    let mut i: usize = 0;
    while i < na
        invariant
            i <= na == ta@.len(),
            nb == tb@.len() >= 1,
            forall|k: int| 0 <= k < ta@.len() ==> v2_ok(#[trigger] ta@[k]),
            forall|k: int| 0 <= k < tb@.len() ==> v2_ok(#[trigger] tb@[k]),
            forall|ii: int| 0 <= ii < i ==> !edge_separates(ta@, ii, tb@),
        decreases na - i,
    {
        let i1 = if i + 1 < na {
            i + 1
        } else {
            0
        };
        let p = ta[i];
        let q = ta[i1];
        let nx = (p.y.bits as i128) - (q.y.bits as i128);
        let ny = (q.x.bits as i128) - (p.x.bits as i128);
        let mut all_pos = true;
        let mut j: usize = 0;
        while j < nb
            invariant
                j <= nb == tb@.len(),
                i < na == ta@.len(),
                i1 as int == wrap_idx(i as int + 1, ta@.len() as int),
                p == ta@[i as int],
                q == ta@[i1 as int],
                nx as int == p.y@ - q.y@,
                ny as int == q.x@ - p.x@,
                v2_ok(p),
                v2_ok(q),
                forall|k: int| 0 <= k < tb@.len() ==> v2_ok(#[trigger] tb@[k]),
                all_pos == forall|jj: int| 0 <= jj < j ==> #[trigger] sep_dot(
                    ta@,
                    i as int,
                    tb@,
                    jj,
                ) > 0,
            decreases nb - j,
        {
            let b = tb[j];
            let dx = (p.x.bits as i128) - (b.x.bits as i128);
            let dy = (p.y.bits as i128) - (b.y.bits as i128);
            proof {
                lemma_prod_bound(nx as int, dx as int, 0x4000_0000_0000_0000);
                lemma_prod_bound(ny as int, dy as int, 0x4000_0000_0000_0000);
            }
            let s = nx * dx + ny * dy;
            proof {
                assert(s as int == sep_dot(ta@, i as int, tb@, j as int));
            }
            all_pos = all_pos && s > 0;
            j = j + 1;
        }
        if all_pos {
            proof {
                assert(edge_separates(ta@, i as int, tb@));
            }
            return true;
        }
        proof {
            assert(!edge_separates(ta@, i as int, tb@));
        }
        i = i + 1;
    }
    false
}

/// The edge-slab and vertex-direction overlap tests for a polygon and a
/// circle, along normalised axes (rounded fixed-point values).
fn pc_intersects_exec(ts: &Vec<Vec2>, c: Vec2, r: Fx) -> (res: bool)
    requires
        ts@.len() >= 1,
        v2_ok(c),
        forall|k: int| 0 <= k < ts@.len() ==> v2_ok(#[trigger] ts@[k]),
    ensures
        res == pc_intersects(ts@, c, r@),
{
    let n = ts.len();
    let mut i: usize = 0;
    while i < n
        invariant
            i <= n == ts@.len(),
            v2_ok(c),
            forall|k: int| 0 <= k < ts@.len() ==> v2_ok(#[trigger] ts@[k]),
            forall|ii: int| 0 <= ii < i ==> #[trigger] pc_edge_dist(ts@, ii, c) <= r@,
        decreases n - i,
    {
        let i1 = if i + 1 < n {
            i + 1
        } else {
            0
        };
        let p = ts[i];
        let q = ts[i1];
        let nh = Vec2::new(p.y.sub(q.y), q.x.sub(p.x)).normalise();
        let dist = nh.dot(p.sub(c));
        proof {
            assert(dist@ == pc_edge_dist(ts@, i as int, c));
        }
        if dist.bits > r.bits {
            return false;
        }
        i = i + 1;
    }
    let mut i: usize = 0;
    while i < n
        invariant
            i <= n == ts@.len(),
            v2_ok(c),
            forall|k: int| 0 <= k < ts@.len() ==> v2_ok(#[trigger] ts@[k]),
            forall|ii: int| 0 <= ii < n ==> #[trigger] pc_edge_dist(ts@, ii, c) <= r@,
            forall|ii: int| 0 <= ii < i ==> #[trigger] pc_vert_min(ts@, ii, c, ts@.len() - 1)
                <= r@,
        decreases n - i,
    {
        let nh = ts[i].sub(c).normalise();
        let mut m = nh.dot(ts[0].sub(c));
        proof {
            assert(m@ == pc_vert_min(ts@, i as int, c, 0));
        }
        let mut j: usize = 1;
        while j < n
            invariant
                1 <= j <= n == ts@.len(),
                i < n,
                v2_ok(c),
                forall|k: int| 0 <= k < ts@.len() ==> v2_ok(#[trigger] ts@[k]),
                nh == v2_normalize(v2_sub(ts@[i as int], c)),
                m@ == pc_vert_min(ts@, i as int, c, j - 1),
            decreases n - j,
        {
            let dj = nh.dot(ts[j].sub(c));
            proof {
                assert(dj@ == pc_vert_dot(ts@, i as int, c, j as int));
            }
            if dj.bits < m.bits {
                m = dj;
            }
            j = j + 1;
        }
        if m.bits > r.bits {
            return false;
        }
        i = i + 1;
    }
    true
}

impl Shape {
    /// Whether two placed shapes overlap: an exact squared-distance test for
    /// circles, an exact separating-axis test over all edges for polygon
    /// pairs, and the edge-slab plus vertex-direction scan against the
    /// normalised axes for a polygon and a circle.
    pub fn intersects(shape1: &Shape, pos1: &Vec2, shape2: &Shape, pos2: &Vec2) -> (r: bool)
        requires
            shape_ok(*shape1),
            shape_ok(*shape2),
            v2_ok(*pos1),
            v2_ok(*pos2),
        ensures
            r == intersects_spec(*shape1, *pos1, *shape2, *pos2),
    {
        match (shape1, shape2) {
            (Shape::Circle { r: r1 }, Shape::Circle { r: r2 }) => {
                let dx = (pos1.x.bits as i128) - (pos2.x.bits as i128);
                let dy = (pos1.y.bits as i128) - (pos2.y.bits as i128);
                let rsum = (r1.bits as i128) + (r2.bits as i128);
                proof {
                    lemma_prod_bound(dx as int, dx as int, 0x4000_0000_0000_0000);
                    lemma_prod_bound(dy as int, dy as int, 0x4000_0000_0000_0000);
                    lemma_prod_bound(rsum as int, rsum as int, 0x4000_0000_0000_0000);
                }
                dx * dx + dy * dy <= rsum * rsum
            },
            (Shape::Polygon { points: a }, Shape::Polygon { points: b }) => {
                let ta = translate(a, *pos1);
                let tb = translate(b, *pos2);
                proof {
                    lemma_tr_ok(a@, *pos1);
                    lemma_tr_ok(b@, *pos2);
                }
                !has_separating_edge(&ta, &tb) && !has_separating_edge(&tb, &ta)
            },
            (Shape::Polygon { points: a }, Shape::Circle { r }) => {
                let ta = translate(a, *pos1);
                proof {
                    lemma_tr_ok(a@, *pos1);
                }
                pc_intersects_exec(&ta, *pos2, *r)
            },
            (Shape::Circle { r }, Shape::Polygon { points: b }) => {
                let tb = translate(b, *pos2);
                proof {
                    lemma_tr_ok(b@, *pos2);
                }
                pc_intersects_exec(&tb, *pos1, *r)
            },
        }
    }
}

/// Circle/circle contact, per `cc_collision`.
fn contact_circle_circle(r1: Fx, p1: Vec2, r2: Fx, p2: Vec2) -> (res: Option<CollisionData>)
    requires
        fx_ok(r1@),
        fx_ok(r2@),
        v2_ok(p1),
        v2_ok(p2),
    ensures
        res == cc_collision(r1@, p1, r2@, p2),
{
    let dx = (p1.x.bits as i128) - (p2.x.bits as i128);
    let dy = (p1.y.bits as i128) - (p2.y.bits as i128);
    let rs = (r1.bits as i128) + (r2.bits as i128);
    proof {
        lemma_prod_bound(dx as int, dx as int, 0x4000_0000_0000_0000);
        lemma_prod_bound(dy as int, dy as int, 0x4000_0000_0000_0000);
        lemma_prod_bound(rs as int, rs as int, 0x4000_0000_0000_0000);
    }
    if dx * dx + dy * dy > rs * rs {
        return None;
    }
    let diff = p2.sub(p1);
    let rsum = r1.add(r2);
    let two = Fx { bits: 200000 };
    if diff.x.bits == 0 && diff.y.bits == 0 {
        let nh = Vec2::new(Fx { bits: FX_SCALE }, Fx { bits: 0 });
        let s = rsum.div(two).add(r1);
        Some(
            CollisionData {
                collision_point: p1.add(nh.scale(s)),
                normal_vector: nh,
                depth: rsum,
            },
        )
    } else {
        let len = diff.length();
        let depth = rsum.sub(len);
        let nh = diff.normalise();
        let s = depth.div(two).add(r1);
        Some(
            CollisionData {
                collision_point: p1.add(nh.scale(s)),
                normal_vector: nh,
                depth,
            },
        )
    }
}

/// Polygon/circle contact, per `pc_collision`: scan every edge slab, then
/// every vertex region, keeping the shallowest candidate.
#[verifier::rlimit(60)]
fn contact_poly_circle(ts: &Vec<Vec2>, c: Vec2, r: Fx) -> (res: Option<CollisionData>)
    requires
        ts@.len() >= 3,
        v2_ok(c),
        fx_ok(r@),
        forall|k: int| 0 <= k < ts@.len() ==> v2_ok(#[trigger] ts@[k]),
    ensures
        res == pc_collision(ts@, c, r@),
{
    let ghost cands = pc_cands(ts@, c, r@);
    let n = ts.len();
    let two = Fx { bits: 200000 };
    let mut best: Option<CollisionData> = None;
    let mut i: usize = 0;
    while i < n
        invariant
            i <= n == ts@.len(),
            n >= 3,
            v2_ok(c),
            fx_ok(r@),
            forall|k: int| 0 <= k < ts@.len() ==> v2_ok(#[trigger] ts@[k]),
            cands == pc_cands(ts@, c, r@),
            two.bits == 200000,
            best == sel_fold(cands, i as int),
        decreases n - i,
    {
        let i1 = if i + 1 < n {
            i + 1
        } else {
            0
        };
        let p = ts[i];
        let q = ts[i1];
        let nh = p.sub(q).normal().normalise();
        let deep = c.sub(nh.scale(r));
        let d = nh.dot(deep.sub(p)).neg();
        let cd = CollisionData {
            collision_point: deep.add(nh.scale(d).divide(two)),
            normal_vector: nh,
            depth: d,
        };
        proof {
            assert(i1 as int == wrap_idx(i as int + 1, n as int));
            let sc = pc_edge_cand(ts@, i as int, c, r@);
            assert(nh == v2_normalize(v2_perp(v2_sub(ts@[i as int], ts@[i1 as int]))));
            assert(deep == v2_sub(c, v2_scale(nh, r@)));
            assert(d@ == fx_neg(v2_dot(nh, v2_sub(deep, ts@[i as int]))));
            assert(cd.depth == sc.depth);
            assert(cd.normal_vector == sc.normal_vector);
            assert(cd.collision_point == sc.collision_point);
            assert(cands[i as int] == Some(sc));
        }
        best = match best {
            None => Some(cd),
            Some(b) => if cd.depth.bits < b.depth.bits {
                Some(cd)
            } else {
                Some(b)
            },
        };
        i = i + 1;
    }
    let mut i: usize = 0;
    while i < n
        invariant
            i <= n == ts@.len(),
            n >= 3,
            v2_ok(c),
            fx_ok(r@),
            forall|k: int| 0 <= k < ts@.len() ==> v2_ok(#[trigger] ts@[k]),
            cands == pc_cands(ts@, c, r@),
            two.bits == 200000,
            best == sel_fold(cands, n + i as int),
        decreases n - i,
    {
        let i1 = if i + 1 < n {
            i + 1
        } else {
            0
        };
        let i2 = if i1 + 1 < n {
            i1 + 1
        } else {
            0
        };
        let p0 = ts[i];
        let p1 = ts[i1];
        let p2 = ts[i2];
        let s0x = (p1.x.bits as i128) - (p0.x.bits as i128);
        let s0y = (p1.y.bits as i128) - (p0.y.bits as i128);
        let s1x = (p2.x.bits as i128) - (p1.x.bits as i128);
        let s1y = (p2.y.bits as i128) - (p1.y.bits as i128);
        let c0x = (c.x.bits as i128) - (p0.x.bits as i128);
        let c0y = (c.y.bits as i128) - (p0.y.bits as i128);
        let c1x = (c.x.bits as i128) - (p1.x.bits as i128);
        let c1y = (c.y.bits as i128) - (p1.y.bits as i128);
        proof {
            lemma_prod_bound(s0x as int, c0x as int, 0x4000_0000_0000_0000);
            lemma_prod_bound(s0y as int, c0y as int, 0x4000_0000_0000_0000);
            lemma_prod_bound(s0x as int, s0x as int, 0x4000_0000_0000_0000);
            lemma_prod_bound(s0y as int, s0y as int, 0x4000_0000_0000_0000);
            lemma_prod_bound(s1x as int, c1x as int, 0x4000_0000_0000_0000);
            lemma_prod_bound(s1y as int, c1y as int, 0x4000_0000_0000_0000);
        }
        let beyond_s0 = s0x * c0x + s0y * c0y >= s0x * s0x + s0y * s0y;
        let before_s1 = s1x * c1x + s1y * c1y <= 0;
        let d = r.sub(c.sub(p1).length());
        let nn = c.sub(p1).normalise();
        let cd: Option<CollisionData> = if beyond_s0 && before_s1 && d.bits > 0 {
            Some(
                CollisionData {
                    collision_point: p1.add(nn.neg().scale(d).divide(two)),
                    normal_vector: nn,
                    depth: d,
                },
            )
        } else {
            None
        };
        proof {
            assert(i1 as int == wrap_idx(i as int + 1, n as int));
            assert(i2 as int == wrap_idx(i as int + 2, n as int));
            assert(p1 == ts@[i1 as int] && p2 == ts@[i2 as int]);
            assert(d@ == fx_sub(r@, v2_len(v2_sub(c, p1))));
            assert(nn == v2_normalize(v2_sub(c, p1)));
            assert(cd == pc_vert_cand(ts@, i as int, c, r@));
            assert(cands[n + i as int] == pc_vert_cand(ts@, i as int, c, r@));
        }
        best = match (best, cd) {
            (None, any) => any,
            (Some(b), None) => Some(b),
            (Some(b), Some(v)) => if v.depth.bits < b.depth.bits {
                Some(v)
            } else {
                Some(b)
            },
        };
        i = i + 1;
    }
    match best {
        None => None,
        Some(cd) => if cd.depth.bits < 0 {
            None
        } else {
            Some(cd)
        },
    }
}

/// Polygon/polygon contact, per `pp_collision`: scan the first polygon's
/// edges against the second's deepest vertex, then the reverse with the
/// normal flipped, keeping the shallowest candidate.
#[verifier::rlimit(60)]
fn contact_poly_poly(ta: &Vec<Vec2>, tb: &Vec<Vec2>) -> (res: Option<CollisionData>)
    requires
        ta@.len() >= 1,
        tb@.len() >= 1,
        forall|k: int| 0 <= k < ta@.len() ==> v2_ok(#[trigger] ta@[k]),
        forall|k: int| 0 <= k < tb@.len() ==> v2_ok(#[trigger] tb@[k]),
    ensures
        res == pp_collision(ta@, tb@),
{
    let ghost cands = pp_cands(ta@, tb@);
    let na = ta.len();
    let nb = tb.len();
    let two = Fx { bits: 200000 };
    let mut best: Option<CollisionData> = None;
    let mut i: usize = 0;
    while i < na
        invariant
            i <= na == ta@.len(),
            nb == tb@.len() >= 1,
            forall|k: int| 0 <= k < ta@.len() ==> v2_ok(#[trigger] ta@[k]),
            forall|k: int| 0 <= k < tb@.len() ==> v2_ok(#[trigger] tb@[k]),
            cands == pp_cands(ta@, tb@),
            two.bits == 200000,
            best == sel_fold(cands, i as int),
        decreases na - i,
    {
        let i1 = if i + 1 < na {
            i + 1
        } else {
            0
        };
        let p = ta[i];
        let q = ta[i1];
        let nh = p.sub(q).normal().normalise();
        let j = deepest_index(nh, tb);
        let v = tb[j];
        let d = nh.dot(v.sub(p)).neg();
        let cd = CollisionData {
            collision_point: v.add(nh.scale(d).divide(two)),
            normal_vector: nh,
            depth: d,
        };
        proof {
            let sc = pp_edge_cand(ta@, tb@, i as int, false);
            assert(i1 as int == wrap_idx(i as int + 1, na as int));
            assert(nh == v2_normalize(v2_perp(v2_sub(ta@[i as int], ta@[i1 as int]))));
            assert(v == tb@[deep_idx(nh, tb@, tb@.len() - 1)]);
            assert(d@ == fx_neg(v2_dot(nh, v2_sub(v, ta@[i as int]))));
            assert(cd.depth == sc.depth);
            assert(cd.normal_vector == sc.normal_vector);
            assert(cd.collision_point == sc.collision_point);
            assert(cands[i as int] == Some(sc));
        }
        best = match best {
            None => Some(cd),
            Some(b) => if cd.depth.bits < b.depth.bits {
                Some(cd)
            } else {
                Some(b)
            },
        };
        i = i + 1;
    }
    let mut i: usize = 0;
    while i < nb
        invariant
            i <= nb == tb@.len(),
            na == ta@.len() >= 1,
            forall|k: int| 0 <= k < ta@.len() ==> v2_ok(#[trigger] ta@[k]),
            forall|k: int| 0 <= k < tb@.len() ==> v2_ok(#[trigger] tb@[k]),
            cands == pp_cands(ta@, tb@),
            two.bits == 200000,
            best == sel_fold(cands, na + i as int),
        decreases nb - i,
    {
        let i1 = if i + 1 < nb {
            i + 1
        } else {
            0
        };
        let p = tb[i];
        let q = tb[i1];
        let nh = p.sub(q).normal().normalise();
        let j = deepest_index(nh, ta);
        let v = ta[j];
        let d = nh.dot(v.sub(p)).neg();
        let cd = CollisionData {
            collision_point: v.add(nh.scale(d).divide(two)),
            normal_vector: nh.neg(),
            depth: d,
        };
        proof {
            let sc = pp_edge_cand(tb@, ta@, i as int, true);
            assert(i1 as int == wrap_idx(i as int + 1, nb as int));
            assert(nh == v2_normalize(v2_perp(v2_sub(tb@[i as int], tb@[i1 as int]))));
            assert(v == ta@[deep_idx(nh, ta@, ta@.len() - 1)]);
            assert(d@ == fx_neg(v2_dot(nh, v2_sub(v, tb@[i as int]))));
            assert(cd.depth == sc.depth);
            assert(cd.normal_vector == sc.normal_vector);
            assert(cd.collision_point == sc.collision_point);
            assert(cands[na + i as int] == Some(sc));
        }
        best = match best {
            None => Some(cd),
            Some(b) => if cd.depth.bits < b.depth.bits {
                Some(cd)
            } else {
                Some(b)
            },
        };
        i = i + 1;
    }
    match best {
        None => None,
        Some(cd) => if cd.depth.bits < 0 {
            None
        } else {
            Some(cd)
        },
    }
}

impl Shape {
    /// The contact between two placed shapes, or `None` when they are
    /// disjoint. The normal is a unit vector from `shape1` toward `shape2`,
    /// the depth is non-negative, and the point lies midway through the
    /// overlap; the exact fixed-point value of each field is given by
    /// `collision_spec`.
    pub fn collision_data(shape1: &Shape, pos1: &Vec2, shape2: &Shape, pos2: &Vec2) -> (res:
        Option<CollisionData>)
        requires
            shape_ok(*shape1),
            shape_ok(*shape2),
            v2_ok(*pos1),
            v2_ok(*pos2),
        ensures
            res == collision_spec(*shape1, *pos1, *shape2, *pos2),
    {
        match (shape1, shape2) {
            (Shape::Circle { r: r1 }, Shape::Circle { r: r2 }) => contact_circle_circle(
                *r1,
                *pos1,
                *r2,
                *pos2,
            ),
            (Shape::Polygon { points: a }, Shape::Polygon { points: b }) => {
                let ta = translate(a, *pos1);
                let tb = translate(b, *pos2);
                proof {
                    lemma_tr_ok(a@, *pos1);
                    lemma_tr_ok(b@, *pos2);
                }
                contact_poly_poly(&ta, &tb)
            },
            (Shape::Polygon { points: a }, Shape::Circle { r }) => {
                let ta = translate(a, *pos1);
                proof {
                    lemma_tr_ok(a@, *pos1);
                }
                contact_poly_circle(&ta, *pos2, *r)
            },
            (Shape::Circle { r }, Shape::Polygon { points: b }) => {
                let tb = translate(b, *pos2);
                proof {
                    lemma_tr_ok(b@, *pos2);
                }
                match contact_poly_circle(&tb, *pos1, *r) {
                    None => None,
                    Some(cd) => Some(
                        CollisionData {
                            collision_point: cd.collision_point,
                            normal_vector: cd.normal_vector.neg(),
                            depth: cd.depth,
                        },
                    ),
                }
            },
        }
    }
}

} // verus!
