//! The solver's conservation and soundness laws.
//!
//! The solver computes in saturating, truncating fixed point, so the
//! arithmetic laws (momentum conservation, positional separation, energy
//! dissipation) are stated and proved here for the exact arithmetic that the
//! solver's formulas round: every quantity appears as an integer at an
//! explicit scale, and each lemma's comment says how its variables map onto
//! `resolve_spec`. The geometric laws (static immovability, mirror-dispatch
//! symmetry, bounding-box soundness, interior-point containment) are proved
//! directly about the spec functions the executable contracts return.

use vstd::prelude::*;

use crate::fx::{iabs, lemma_fx_mul_zero, Fx, FX_LIMIT};
use crate::vec2::{v2_neg, v2_ok, Vec2};
use crate::shape::{aabb_overlap, aabb_spec, edge_inside, point_inside_spec, shape_pts, tr_pts,
    wrap_idx, Shape};
use crate::contact::{cc_collision, cc_intersects, collision_spec, flip_normal};
use crate::manifold::{resolve_spec, Manifold};
use crate::physics::resolve_all;
use crate::rigidbody::{body_ok, RigidBody};

verus! {

/// Mass conservation. In `resolve_spec` the velocities change, before
/// rounding, by `vi' = vi - (p/d) * inv_i` and `vj' = vj + (p/d) * inv_j` per
/// component, where `p/d` is the impulse component (`d > 0` its denominator).
/// With masses `m_i = 1/inv_i` and `m_j = 1/inv_j`, the momentum sum
/// `m_i * vi + m_j * vj` is unchanged; multiplied through by
/// `d * inv_i * inv_j` that is the identity below, which holds for every
/// impulse whatsoever.
pub proof fn lemma_momentum_conserved(inv_i: int, inv_j: int, vi: int, vj: int, p: int, d: int)
    by (nonlinear_arith)
    requires
        inv_i > 0,
        inv_j > 0,
        d > 0,
    ensures
        inv_j * (d * vi - p * inv_i) + inv_i * (d * vj + p * inv_j) == d * (inv_j * vi + inv_i
            * vj),
{
}

/// Separation. The positional correction of `resolve_spec` moves the bodies
/// apart, before rounding, by `corr * inv_i` and `corr * inv_j` with
/// `corr = n * depth * (4/5) / (inv_i + inv_j)` and `n` the unit normal
/// `(nx/L, ny/L)`. At scale `5*S*L`, the separation of the two positions
/// along the normal therefore grows by `4*d*S*L*L / (5*S*L*L) = (4/5)*d`:
/// after the correction only `(1 - 4/5)` of the penetration depth remains.
pub proof fn lemma_positional_correction(
    nx: int,
    ny: int,
    l: int,
    a: int,
    b: int,
    s: int,
    d: int,
    pix: int,
    piy: int,
    pjx: int,
    pjy: int,
)
    requires
        l > 0,
        nx * nx + ny * ny == l * l,
        a >= 0,
        b >= 0,
        s == a + b,
        s > 0,
    ensures
        nx * ((5 * s * l * pjx + 4 * d * nx * b) - (5 * s * l * pix - 4 * d * nx * a) - 5 * s * l
            * (pjx - pix)) + ny * ((5 * s * l * pjy + 4 * d * ny * b) - (5 * s * l * piy - 4 * d
            * ny * a) - 5 * s * l * (pjy - piy)) == 4 * d * s * (l * l),
{
    let t = 4 * d * s;
    assert(5 * s * l * (pjx - pix) == 5 * s * l * pjx - 5 * s * l * pix) by (nonlinear_arith);
    assert(5 * s * l * (pjy - piy) == 5 * s * l * pjy - 5 * s * l * piy) by (nonlinear_arith);
    assert((5 * s * l * pjx + 4 * d * nx * b) - (5 * s * l * pix - 4 * d * nx * a) - (5 * s * l
        * pjx - 5 * s * l * pix) == 4 * d * nx * b + 4 * d * nx * a);
    assert(4 * d * nx * b + 4 * d * nx * a == t * nx) by (nonlinear_arith)
        requires
            s == a + b,
            t == 4 * d * s;
    assert(4 * d * ny * b + 4 * d * ny * a == t * ny) by (nonlinear_arith)
        requires
            s == a + b,
            t == 4 * d * s;
    assert(nx * (t * nx) + ny * (t * ny) == t * (nx * nx + ny * ny)) by (nonlinear_arith);
    assert(t * (nx * nx + ny * ny) == 4 * d * s * (l * l)) by (nonlinear_arith)
        requires
            nx * nx + ny * ny == l * l,
            t == 4 * d * s;
}

/// No energy gain. The impulse of `resolve_spec` acts only along the unit
/// contact normal, so kinetic energy can change only through the velocity
/// components along that normal; this lemma states the law for those
/// components, in exact arithmetic. With `vi` and `vj` the two bodies' normal
/// velocity components, `a` and `b` their inverse masses (`s` the sum),
/// restitution `en/ee`, and `w = vj - vi` the approach speed, the solver
/// changes the components scaled by `k = ee*s` to `k*vi + c*a` and
/// `k*vj - c*b` with `c = (ee+en)*w`. The inverse-mass-weighted kinetic
/// energy `b*vi^2 + a*vj^2` never grows: its change is `a*b*c*w*s*(en-ee)`.
/// At restitution one (`en == ee`) it is conserved exactly, and for
/// `en < ee` it strictly decreases whenever two movable bodies approach.
pub proof fn lemma_energy_dissipation(
    a: int,
    b: int,
    s: int,
    ee: int,
    en: int,
    vi: int,
    vj: int,
    w: int,
    k: int,
    c: int,
)
    requires
        a >= 0,
        b >= 0,
        s == a + b,
        s > 0,
        ee > 0,
        0 <= en <= ee,
        w == vj - vi,
        k == ee * s,
        c == (ee + en) * w,
    ensures
        b * ((k * vi + c * a) * (k * vi + c * a)) + a * ((k * vj - c * b) * (k * vj - c * b))
            <= k * k * (b * (vi * vi) + a * (vj * vj)),
        en == ee ==> b * ((k * vi + c * a) * (k * vi + c * a)) + a * ((k * vj - c * b) * (k * vj
            - c * b)) == k * k * (b * (vi * vi) + a * (vj * vj)),
        en < ee && w < 0 && a > 0 && b > 0 ==> b * ((k * vi + c * a) * (k * vi + c * a)) + a * ((k
            * vj - c * b) * (k * vj - c * b)) < k * k * (b * (vi * vi) + a * (vj * vj)),
{
    let u = k * vi;
    let v = c * a;
    let pp = k * vj;
    let q = c * b;
    let kc = k * c;
    let ab2 = a * b;
    let lhs = b * ((u + v) * (u + v)) + a * ((pp - q) * (pp - q));
    let rhs = k * k * (b * (vi * vi) + a * (vj * vj));
    assert(b * ((u + v) * (u + v)) == b * (u * u) + 2 * (b * (u * v)) + b * (v * v))
        by (nonlinear_arith);
    assert(a * ((pp - q) * (pp - q)) == a * (pp * pp) - 2 * (a * (pp * q)) + a * (q * q))
        by (nonlinear_arith);
    assert(b * (u * u) == k * k * (b * (vi * vi))) by (nonlinear_arith)
        requires
            u == k * vi;
    assert(a * (pp * pp) == k * k * (a * (vj * vj))) by (nonlinear_arith)
        requires
            pp == k * vj;
    assert(b * (u * v) == kc * (ab2 * vi)) by (nonlinear_arith)
        requires
            u == k * vi,
            v == c * a,
            kc == k * c,
            ab2 == a * b;
    assert(a * (pp * q) == kc * (ab2 * vj)) by (nonlinear_arith)
        requires
            pp == k * vj,
            q == c * b,
            kc == k * c,
            ab2 == a * b;
    assert(b * (v * v) == (c * c) * (ab2 * a)) by (nonlinear_arith)
        requires
            v == c * a,
            ab2 == a * b;
    assert(a * (q * q) == (c * c) * (ab2 * b)) by (nonlinear_arith)
        requires
            q == c * b,
            ab2 == a * b;
    assert((c * c) * (ab2 * a) + (c * c) * (ab2 * b) == (c * c) * (ab2 * s))
        by (nonlinear_arith)
        requires
            s == a + b;
    assert(b * (v * v) + a * (q * q) == (c * c) * (ab2 * s));
    assert(rhs == k * k * (b * (vi * vi)) + k * k * (a * (vj * vj))) by (nonlinear_arith)
        requires
            rhs == k * k * (b * (vi * vi) + a * (vj * vj));
    assert(lhs == rhs + 2 * (kc * (ab2 * vi)) - 2 * (kc * (ab2 * vj)) + (c * c) * (ab2 * s));
    assert(2 * (kc * (ab2 * vi)) - 2 * (kc * (ab2 * vj)) == -2 * (kc * (ab2 * w)))
        by (nonlinear_arith)
        requires
            w == vj - vi;
    assert(c * s - 2 * (k * w) == (s * w) * (en - ee)) by (nonlinear_arith)
        requires
            k == ee * s,
            c == (ee + en) * w;
    assert(c * (c * s - 2 * (k * w)) == (c * c) * s - 2 * (kc * w)) by (nonlinear_arith)
        requires
            kc == k * c;
    assert(ab2 * ((c * c) * s) == (c * c) * (ab2 * s)) by (nonlinear_arith);
    assert(ab2 * (2 * (kc * w)) == 2 * (kc * (ab2 * w))) by (nonlinear_arith);
    assert(ab2 * ((c * c) * s - 2 * (kc * w)) == ab2 * ((c * c) * s) - ab2 * (2 * (kc * w)))
        by (nonlinear_arith);
    assert(-2 * (kc * (ab2 * w)) + (c * c) * (ab2 * s) == ab2 * (c * (c * s - 2 * (k * w))));
    assert(ab2 * (c * ((s * w) * (en - ee))) == a * b * c * w * s * (en - ee))
        by (nonlinear_arith)
        requires
            ab2 == a * b;
    assert(lhs == rhs + a * b * c * w * s * (en - ee));
    assert(a * b * c * w * s * (en - ee) <= 0) by (nonlinear_arith)
        requires
            a >= 0,
            b >= 0,
            s > 0,
            ee > 0,
            0 <= en <= ee,
            c == (ee + en) * w;
    if en == ee {
        assert(a * b * c * w * s * (en - ee) == 0) by (nonlinear_arith)
            requires
                en == ee;
    }
    if en < ee && w < 0 && a > 0 && b > 0 {
        assert(a * b * c * w * s * (en - ee) < 0) by (nonlinear_arith)
            requires
                a > 0,
                b > 0,
                s > 0,
                ee > 0,
                0 <= en < ee,
                w < 0,
                c == (ee + en) * w;
    }
}

/// Static immovability for one resolution: a body with zero inverse mass
/// keeps its position and velocity exactly (every change to it is scaled by
/// its inverse mass, and the fixed-point product with zero is exactly zero).
pub proof fn lemma_static_immovable(m: Manifold, bi: RigidBody, bj: RigidBody)
    requires
        body_ok(bi),
        body_ok(bj),
    ensures
        bi.mass_data.inv_mass@ == 0 ==> resolve_spec(m, bi, bj).0.transform.pos
            == bi.transform.pos && resolve_spec(m, bi, bj).0.vel == bi.vel,
        bj.mass_data.inv_mass@ == 0 ==> resolve_spec(m, bi, bj).1.transform.pos
            == bj.transform.pos && resolve_spec(m, bi, bj).1.vel == bj.vel,
{
    let a = bi.mass_data.inv_mass@;
    let b = bj.mass_data.inv_mass@;
    let s = crate::fx::fx_add(a, b);
    if s != 0 {
        let corr = crate::vec2::v2_scale(
            crate::vec2::v2_divide(crate::vec2::v2_scale(m.normal_vector, m.depth@), s),
            crate::manifold::PERCENT_BITS as int,
        );
        lemma_fx_mul_zero(corr.x@);
        lemma_fx_mul_zero(corr.y@);
        let vn = crate::vec2::v2_dot(m.normal_vector, crate::vec2::v2_sub(bj.vel, bi.vel));
        if vn <= 0 {
            let e = if bi.material.restitution@ <= bj.material.restitution@ {
                bi.material.restitution@
            } else {
                bj.material.restitution@
            };
            let j = crate::fx::fx_div(
                crate::fx::fx_mul(
                    crate::fx::fx_neg(crate::fx::fx_add(crate::fx::FX_SCALE as int, e)),
                    vn,
                ),
                s,
            );
            let imp = crate::vec2::v2_scale(m.normal_vector, j);
            lemma_fx_mul_zero(imp.x@);
            lemma_fx_mul_zero(imp.y@);
        }
    }
}

/// Static immovability through any number of resolutions: a body with zero
/// inverse mass has the same position and velocity after the whole
/// resolution pass, whatever pairs it took part in.
pub proof fn lemma_static_immovable_all(
    s: Seq<(u128, RigidBody)>,
    ps: Seq<(int, int)>,
    k: int,
    t: int,
)
    requires
        forall|m: int| 0 <= m < s.len() ==> body_ok((#[trigger] s[m]).1),
        0 <= t < s.len(),
        s[t].1.mass_data.inv_mass@ == 0,
    ensures
        resolve_all(s, ps, k)[t].1.transform.pos == s[t].1.transform.pos,
        resolve_all(s, ps, k)[t].1.vel == s[t].1.vel,
        resolve_all(s, ps, k)[t].1.mass_data.inv_mass@ == 0,
    decreases k,
{
    if k <= 0 {
    } else {
        lemma_static_immovable_all(s, ps, k - 1, t);
        crate::physics::lemma_resolve_all_props(s, ps, k - 1);
        let cur = resolve_all(s, ps, k - 1);
        let i = ps[k - 1].0;
        let j = ps[k - 1].1;
        if 0 <= i < cur.len() && 0 <= j < cur.len() && i != j {
            match crate::manifold::manifold_new_spec(cur[i].1, cur[j].1) {
                Option::None => {},
                Option::Some(m) => {
                    if i == t || j == t {
                        lemma_static_immovable(m, cur[i].1, cur[j].1);
                    }
                },
            }
        }
    }
}

/// Static immovability through a whole tick: a resting static body (zero
/// inverse mass, no velocity, no accumulated acceleration) has the same
/// position and velocity after an entire world step — the force phase skips
/// it, integration moves it by nothing, and no resolution touches it.
pub proof fn lemma_static_body_rest_through_step(
    s: Seq<(u128, RigidBody)>,
    g: Vec2,
    dt: int,
    t: int,
)
    requires
        forall|m: int| 0 <= m < s.len() ==> body_ok((#[trigger] s[m]).1),
        v2_ok(g),
        0 <= t < s.len(),
        s[t].1.mass_data.inv_mass@ == 0,
        s[t].1.vel == crate::vec2::v2(0, 0),
        s[t].1.acc == crate::vec2::v2(0, 0),
    ensures
        crate::physics::world_step(s, g, dt)[t].1.transform.pos == s[t].1.transform.pos,
        crate::physics::world_step(s, g, dt)[t].1.vel == crate::vec2::v2(0, 0),
{
    let b1 = crate::physics::phase1(s, g, dt);
    lemma_fx_mul_zero(dt);
    assert(crate::fx::fx_mul(0, dt) == 0) by {
        assert(0 * dt == 0) by (nonlinear_arith);
    }
    assert(b1[t].1.vel == crate::vec2::v2(0, 0));
    assert(b1[t].1.transform.pos == s[t].1.transform.pos);
    assert(b1[t].1.mass_data.inv_mass@ == 0);
    assert forall|m: int| 0 <= m < b1.len() implies body_ok((#[trigger] b1[m]).1) by {
        assert(body_ok(s[m].1));
    }
    let ps = crate::physics::pairs_rows(b1, 0);
    lemma_static_immovable_all(b1, ps, ps.len() as int, t);
}

/// Dispatch symmetry for mixed pairs: the circle/polygon contact is, by
/// construction, the polygon/circle contact with its normal negated and the
/// same point and depth.
pub proof fn lemma_dispatch_symmetry_mixed(s1: Shape, p1: Vec2, s2: Shape, p2: Vec2)
    requires
        s1 is Circle,
        s2 is Polygon,
    ensures
        collision_spec(s1, p1, s2, p2) == flip_normal(collision_spec(s2, p2, s1, p1)),
{
}

/// A square bounded by a square of a non-negative value is bounded in
/// magnitude.
proof fn lemma_sq_le(t: int, r: int)
    by (nonlinear_arith)
    requires
        t * t <= r * r,
        r >= 0,
    ensures
        -r <= t <= r,
{
}

/// Bounding-box soundness for circles: whenever two circles have a contact,
/// their axis-aligned bounding boxes overlap. (The margins keep the boxes
/// away from the fixed-point saturation bound.)
pub proof fn lemma_aabb_sound_circles(r1: Fx, p1: Vec2, r2: Fx, p2: Vec2)
    requires
        v2_ok(p1),
        v2_ok(p2),
        0 < r1@,
        0 < r2@,
        iabs(p1.x@) + r1@ <= FX_LIMIT as int,
        iabs(p1.y@) + r1@ <= FX_LIMIT as int,
        iabs(p2.x@) + r2@ <= FX_LIMIT as int,
        iabs(p2.y@) + r2@ <= FX_LIMIT as int,
    ensures
        collision_spec(Shape::Circle { r: r1 }, p1, Shape::Circle { r: r2 }, p2) is Some
            ==> aabb_overlap(
            aabb_spec(Shape::Circle { r: r1 }, p1),
            aabb_spec(Shape::Circle { r: r2 }, p2),
        ),
{
    if collision_spec(Shape::Circle { r: r1 }, p1, Shape::Circle { r: r2 }, p2) is Some {
        assert(cc_intersects(r1@, p1, r2@, p2));
        let dx = p1.x@ - p2.x@;
        let dy = p1.y@ - p2.y@;
        let rs = r1@ + r2@;
        assert(dx * dx <= rs * rs && dy * dy <= rs * rs) by (nonlinear_arith)
            requires
                dx * dx + dy * dy <= rs * rs;
        lemma_sq_le(dx, rs);
        lemma_sq_le(dy, rs);
    }
}

/// Saturation is an odd function, since its range is symmetric.
proof fn lemma_clip_odd(t: int)
    ensures
        crate::fx::clip(-t) == -crate::fx::clip(t),
{
}

/// Truncating division is odd in its numerator.
proof fn lemma_tdiv_neg(a: int, b: int)
    requires
        b != 0,
    ensures
        crate::fx::tdiv(-a, b) == -crate::fx::tdiv(a, b),
{
    assert(crate::fx::iabs(-a) == crate::fx::iabs(a));
}

/// Squares ignore sign.
proof fn lemma_sq_neg(x: int)
    by (nonlinear_arith)
    ensures
        (-x) * (-x) == x * x,
{
}

/// Dispatch symmetry for circle pairs with distinct centres: swapping the
/// arguments negates the contact normal and keeps the depth (and the two
/// calls agree on whether there is a contact at all). Coincident centres are
/// excluded: there both calls return the same arbitrary unit-x normal.
pub proof fn lemma_circle_contact_symmetry(r1: Fx, p1: Vec2, r2: Fx, p2: Vec2)
    requires
        v2_ok(p1),
        v2_ok(p2),
        p1 != p2,
    ensures
        (cc_collision(r1@, p1, r2@, p2) is Some) == (cc_collision(r2@, p2, r1@, p1) is Some),
        cc_collision(r1@, p1, r2@, p2) is Some ==> cc_collision(
            r1@,
            p1,
            r2@,
            p2,
        )->Some_0.normal_vector == v2_neg(cc_collision(r2@, p2, r1@, p1)->Some_0.normal_vector),
        cc_collision(r1@, p1, r2@, p2) is Some ==> cc_collision(r1@, p1, r2@, p2)->Some_0.depth
            == cc_collision(r2@, p2, r1@, p1)->Some_0.depth,
{
    let dx = p1.x@ - p2.x@;
    let dy = p1.y@ - p2.y@;
    lemma_sq_neg(dx);
    lemma_sq_neg(dy);
    assert(cc_intersects(r1@, p1, r2@, p2) == cc_intersects(r2@, p2, r1@, p1));
    if cc_intersects(r1@, p1, r2@, p2) {
        let diff = crate::vec2::v2_sub(p2, p1);
        let back = crate::vec2::v2_sub(p1, p2);
        lemma_clip_odd(p2.x@ - p1.x@);
        lemma_clip_odd(p2.y@ - p1.y@);
        assert(back.x@ == -diff.x@ && back.y@ == -diff.y@);
        lemma_sq_neg(diff.x@);
        lemma_sq_neg(diff.y@);
        assert(crate::vec2::v2_len(back) == crate::vec2::v2_len(diff));
        let l = crate::vec2::v2_len(diff);
        if diff.x@ == 0 && diff.y@ == 0 {
            assert(p1 == p2);
        } else {
            assert(diff.x@ * diff.x@ + diff.y@ * diff.y@ >= 1) by (nonlinear_arith)
                requires
                    diff.x@ != 0 || diff.y@ != 0;
            let n2 = diff.x@ * diff.x@ + diff.y@ * diff.y@;
            crate::fx::lemma_sqrt_floor(n2);
            if crate::fx::sqrt_floor(n2) == 0 {
                assert(n2 < (0 + 1) * (0 + 1));
            }
            assert(l >= 1);
            lemma_tdiv_neg(diff.x@ * crate::fx::FX_SCALE, l);
            lemma_tdiv_neg(diff.y@ * crate::fx::FX_SCALE, l);
            lemma_clip_odd(crate::fx::tdiv(diff.x@ * crate::fx::FX_SCALE, l));
            lemma_clip_odd(crate::fx::tdiv(diff.y@ * crate::fx::FX_SCALE, l));
        }
    }
}

/// The query point is strictly on the inner side of every translated edge.
pub open spec fn strictly_inside(ts: Seq<Vec2>, q: Vec2) -> bool {
    forall|i: int| 0 <= i < ts.len() ==> #[trigger] strictly_inside_edge(ts, i, q)
}

pub open spec fn strictly_inside_edge(ts: Seq<Vec2>, i: int, q: Vec2) -> bool
    recommends
        ts.len() > 0,
        0 <= i < ts.len(),
{
    let n = ts.len() as int;
    let a = ts[i];
    let b = ts[wrap_idx(i + 1, n)];
    (a.x@ - q.x@) * (b.y@ - a.y@) - (a.y@ - q.y@) * (b.x@ - a.x@) > 0
}

/// Interior containment: a point strictly inside every edge of the placed
/// polygon is reported inside by the containment test.
pub proof fn lemma_interior_point_inside(s: Shape, pos: Vec2, q: Vec2)
    requires
        s is Polygon,
        strictly_inside(tr_pts(shape_pts(s), pos), q),
    ensures
        point_inside_spec(s, pos, q),
{
    let ts = tr_pts(shape_pts(s), pos);
    assert forall|i: int| 0 <= i < ts.len() implies #[trigger] edge_inside(ts, i, q) by {
        assert(strictly_inside_edge(ts, i, q));
    }
}

/// Interior containment for circles: a point strictly closer to the centre
/// than the radius is reported inside.
pub proof fn lemma_interior_point_inside_circle(r: Fx, pos: Vec2, q: Vec2)
    requires
        (pos.x@ - q.x@) * (pos.x@ - q.x@) + (pos.y@ - q.y@) * (pos.y@ - q.y@) < r@ * r@,
    ensures
        point_inside_spec(Shape::Circle { r }, pos, q),
{
}

} // verus!
