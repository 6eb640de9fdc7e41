//! The world: an id-keyed set of rigid bodies advanced through fixed ticks.
//!
//! A tick applies gravity to every dynamic body, integrates all bodies, culls
//! pairs by bounding-box overlap (every i < j, in index order), computes the
//! contact of each surviving pair, and resolves the contacts in emission
//! order, each resolution seeing the state the previous ones left. The whole
//! pipeline is mirrored by `world_step`, and `update` returns exactly that.
//!
//! Identifiers are assigned from a monotone counter and never reused; bodies
//! are stored in insertion order, so identifiers increase along the storage
//! and every lookup scans for the first match.

use vstd::prelude::*;

use crate::fx::Fx;
use crate::vec2::{v2_ok, Vec2};
use crate::shape::{aabb_overlap, aabb_spec, point_inside_spec, PhysicsError, AABB};
use crate::rigidbody::{body_ok, integrate_spec, RigidBody};
use crate::manifold::{manifold_new_spec, resolve_spec, Manifold};

verus! {

/// Default downward gravity, in fixed-point units per second squared.
pub const GRAVITY_Y_BITS: i64 = 350000000;

/// The world: bodies keyed by stable identifiers, a monotone id counter, and
/// the gravity applied to dynamic bodies each tick.
pub struct PhysicsManager {
    pub bodies: Vec<(u128, RigidBody)>,
    pub index: u128,
    pub gravity: Vec2,
}

/// Well-formedness: every body is well-formed, identifiers strictly increase
/// along the storage (hence are unique) and stay below the counter, and
/// gravity is in range.
pub open spec fn world_ok(w: PhysicsManager) -> bool {
    &&& forall|k: int| 0 <= k < w.bodies@.len() ==> body_ok((#[trigger] w.bodies@[k]).1)
    &&& forall|k: int, l: int|
        0 <= k < l < w.bodies@.len() ==> (#[trigger] w.bodies@[k]).0 < (#[trigger] w.bodies@[l]).0
    &&& forall|k: int| 0 <= k < w.bodies@.len() ==> (#[trigger] w.bodies@[k]).0 < w.index
    &&& v2_ok(w.gravity)
}

/// Index of the first entry with identifier `id` at or after `k`, or -1.
pub open spec fn find_from(s: Seq<(u128, RigidBody)>, id: u128, k: int) -> int
    decreases s.len() - k,
{
    if k < 0 || k >= s.len() {
        -1
    } else if s[k].0 == id {
        k
    } else {
        find_from(s, id, k + 1)
    }
}

/// Identifier of the first body at or after `k` that contains the point.
pub open spec fn pick_from(s: Seq<(u128, RigidBody)>, q: Vec2, k: int) -> Option<u128>
    decreases s.len() - k,
{
    if k < 0 || k >= s.len() {
        Option::None
    } else if point_inside_spec(s[k].1.shape, s[k].1.transform.pos, q) {
        Option::Some(s[k].0)
    } else {
        pick_from(s, q, k + 1)
    }
}

/// The force phase: a dynamic body's acceleration is set to gravity; a static
/// body is skipped.
pub open spec fn grav_applied(b: RigidBody, g: Vec2) -> RigidBody {
    if b.mass_data.inv_mass@ != 0 {
        RigidBody { acc: g, ..b }
    } else {
        b
    }
}

/// Force phase and integration over the whole body set.
pub open spec fn phase1(s: Seq<(u128, RigidBody)>, g: Vec2, dt: int) -> Seq<(u128, RigidBody)> {
    Seq::new(s.len(), |k: int| (s[k].0, integrate_spec(grav_applied(s[k].1, g), dt)))
}

/// The broad-phase pairs `(i, j)` for a fixed `i`, scanning `j` upward: kept
/// exactly when the bodies' bounding boxes overlap.
pub open spec fn pairs_row(s: Seq<(u128, RigidBody)>, i: int, j: int) -> Seq<(int, int)>
    decreases s.len() - j,
{
    if j < 0 || j >= s.len() {
        Seq::empty()
    } else {
        let rest = pairs_row(s, i, j + 1);
        if aabb_overlap(
            aabb_spec(s[i].1.shape, s[i].1.transform.pos),
            aabb_spec(s[j].1.shape, s[j].1.transform.pos),
        ) {
            seq![(i, j)] + rest
        } else {
            rest
        }
    }
}

/// All broad-phase pairs from row `i` on, each row in `j` order.
pub open spec fn pairs_rows(s: Seq<(u128, RigidBody)>, i: int) -> Seq<(int, int)>
    decreases s.len() - i,
{
    if i < 0 || i >= s.len() {
        Seq::empty()
    } else {
        pairs_row(s, i, i + 1) + pairs_rows(s, i + 1)
    }
}

/// Narrow phase and resolution of one pair: if the bodies touch, both are
/// replaced by their resolved states; a disjoint or ill-indexed pair changes
/// nothing.
pub open spec fn resolve_entry(s: Seq<(u128, RigidBody)>, i: int, j: int) -> Seq<(
    u128,
    RigidBody,
)> {
    if 0 <= i < s.len() && 0 <= j < s.len() && i != j {
        match manifold_new_spec(s[i].1, s[j].1) {
            Option::None => s,
            Option::Some(m) => {
                let rr = resolve_spec(m, s[i].1, s[j].1);
                s.update(i, (s[i].0, rr.0)).update(j, (s[j].0, rr.1))
            },
        }
    } else {
        s
    }
}

/// Resolution of the first `k` pairs in order, each seeing the state the
/// previous resolutions left (Gauss-Seidel style).
pub open spec fn resolve_all(s: Seq<(u128, RigidBody)>, ps: Seq<(int, int)>, k: int) -> Seq<(
    u128,
    RigidBody,
)>
    decreases k,
{
    if k <= 0 {
        s
    } else {
        resolve_entry(resolve_all(s, ps, k - 1), ps[k - 1].0, ps[k - 1].1)
    }
}

/// One whole tick: force and integration, broad phase, narrow phase and
/// resolution.
pub open spec fn world_step(s: Seq<(u128, RigidBody)>, g: Vec2, dt: int) -> Seq<(
    u128,
    RigidBody,
)> {
    let b1 = phase1(s, g, dt);
    let ps = pairs_rows(b1, 0);
    resolve_all(b1, ps, ps.len() as int)
}

/// The broad-phase pairs of an executable pair list, as mathematical indices.
pub open spec fn mapped_pairs(pv: Seq<(usize, usize)>) -> Seq<(int, int)> {
    Seq::new(pv.len(), |k: int| (pv[k].0 as int, pv[k].1 as int))
}

/// `resolve_entry` keeps the length, the identifiers and body
/// well-formedness.
proof fn lemma_resolve_entry_props(s: Seq<(u128, RigidBody)>, i: int, j: int)
    requires
        forall|m: int| 0 <= m < s.len() ==> body_ok((#[trigger] s[m]).1),
    ensures
        resolve_entry(s, i, j).len() == s.len(),
        forall|m: int| 0 <= m < s.len() ==> (#[trigger] resolve_entry(s, i, j)[m]).0 == s[m].0,
        forall|m: int| 0 <= m < s.len() ==> body_ok((#[trigger] resolve_entry(s, i, j)[m]).1),
{
    if 0 <= i < s.len() && 0 <= j < s.len() && i != j {
        match manifold_new_spec(s[i].1, s[j].1) {
            Option::None => {},
            Option::Some(m) => {
                lemma_resolve_spec_ok(m, s[i].1, s[j].1);
            },
        }
    }
}

/// Resolution keeps both bodies well-formed: it only moves positions and
/// velocities through saturating operations.
proof fn lemma_resolve_spec_ok(m: Manifold, bi: RigidBody, bj: RigidBody)
    requires
        body_ok(bi),
        body_ok(bj),
    ensures
        body_ok(resolve_spec(m, bi, bj).0),
        body_ok(resolve_spec(m, bi, bj).1),
{
}

/// `resolve_all` keeps the length, the identifiers and body well-formedness.
pub proof fn lemma_resolve_all_props(s: Seq<(u128, RigidBody)>, ps: Seq<(int, int)>, k: int)
    requires
        forall|m: int| 0 <= m < s.len() ==> body_ok((#[trigger] s[m]).1),
    ensures
        resolve_all(s, ps, k).len() == s.len(),
        forall|m: int| 0 <= m < s.len() ==> (#[trigger] resolve_all(s, ps, k)[m]).0 == s[m].0,
        forall|m: int| 0 <= m < s.len() ==> body_ok((#[trigger] resolve_all(s, ps, k)[m]).1),
    decreases k,
{
    if k <= 0 {
    } else {
        lemma_resolve_all_props(s, ps, k - 1);
        lemma_resolve_entry_props(resolve_all(s, ps, k - 1), ps[k - 1].0, ps[k - 1].1);
    }
}

/// Removing at `j` then `i` and reinserting replacements at `i` then `j` is
/// the same as updating both positions in place, for `i < j`.
proof fn lemma_remove2_insert2(
    s: Seq<(u128, RigidBody)>,
    i: int,
    j: int,
    x: (u128, RigidBody),
    y: (u128, RigidBody),
)
    requires
        0 <= i < j < s.len(),
    ensures
        s.remove(j).remove(i).insert(i, x).insert(j, y) == s.update(i, x).update(j, y),
{
    assert(s.remove(j).remove(i).insert(i, x).insert(j, y) =~= s.update(i, x).update(j, y));
}

impl PhysicsManager {
    /// An empty world with default gravity.
    pub fn new() -> (w: PhysicsManager)
        ensures
            w.bodies@.len() == 0,
            w.index == 0,
            w.gravity.x@ == 0 && w.gravity.y@ == GRAVITY_Y_BITS as int,
            world_ok(w),
    {
        PhysicsManager {
            bodies: Vec::new(),
            index: 0,
            gravity: Vec2::new(Fx { bits: 0 }, Fx { bits: GRAVITY_Y_BITS }),
        }
    }

    /// Replace the gravity applied to dynamic bodies each tick.
    pub fn set_gravity(&mut self, g: Vec2)
        requires
            world_ok(*old(self)),
            v2_ok(g),
        ensures
            final(self).gravity == g,
            final(self).bodies@ == old(self).bodies@,
            final(self).index == old(self).index,
            world_ok(*final(self)),
    {
        self.gravity = g;
    }

    /// Insert a body and return its fresh identifier, which no earlier or
    /// later body ever shares.
    pub fn add_body(&mut self, body: RigidBody) -> (id: u128)
        requires
            world_ok(*old(self)),
            body_ok(body),
            old(self).index < u128::MAX,
        ensures
            id == old(self).index,
            final(self).bodies@ == old(self).bodies@.push((id, body)),
            final(self).index == old(self).index + 1,
            final(self).gravity == old(self).gravity,
            world_ok(*final(self)),
    {
        let id = self.index;
        self.bodies.push((id, body));
        self.index = self.index + 1;
        id
    }

    /// How many bodies are alive.
    pub fn get_body_count(&self) -> (n: u128)
        ensures
            n == self.bodies@.len(),
    {
        self.bodies.len() as u128
    }

    /// Remove the body with identifier `i`; the identifier is never issued
    /// again. Fails exactly when no live body has it.
    pub fn delete_body(&mut self, i: u128) -> (r: Result<(), PhysicsError>)
        requires
            world_ok(*old(self)),
        ensures
            r is Ok <==> find_from(old(self).bodies@, i, 0) >= 0,
            r is Ok ==> final(self).bodies@ == old(self).bodies@.remove(
                find_from(old(self).bodies@, i, 0),
            ),
            r is Err ==> final(self).bodies@ == old(self).bodies@ && r->Err_0
                == PhysicsError::NotFound,
            final(self).index == old(self).index,
            final(self).gravity == old(self).gravity,
            world_ok(*final(self)),
    {
        let n = self.bodies.len();
        let mut k: usize = 0;
        while k < n
            invariant
                k <= n == self.bodies@.len(),
                self.bodies@ == old(self).bodies@,
                self.index == old(self).index,
                self.gravity == old(self).gravity,
                world_ok(*old(self)),
                find_from(self.bodies@, i, 0) == find_from(self.bodies@, i, k as int),
            decreases n - k,
        {
            if self.bodies[k].0 == i {
                self.bodies.remove(k);
                return Ok(());
            }
            k = k + 1;
        }
        Err(PhysicsError::NotFound)
    }

    /// The identifier of the first stored body whose shape contains `point`;
    /// bodies may overlap, so callers needing a specific one must
    /// disambiguate.
    pub fn get_body_at(&self, point: &Vec2) -> (r: Option<u128>)
        requires
            world_ok(*self),
            v2_ok(*point),
        ensures
            r == pick_from(self.bodies@, *point, 0),
    {
        let n = self.bodies.len();
        let mut k: usize = 0;
        while k < n
            invariant
                k <= n == self.bodies@.len(),
                world_ok(*self),
                v2_ok(*point),
                pick_from(self.bodies@, *point, 0) == pick_from(self.bodies@, *point, k as int),
            decreases n - k,
        {
            if self.bodies[k].1.point_inside(point) {
                return Some(self.bodies[k].0);
            }
            k = k + 1;
        }
        None
    }

    /// The position of the body with identifier `i`, if it is alive.
    pub fn get_body_position(&self, i: u128) -> (r: Option<Vec2>)
        ensures
            r == (if find_from(self.bodies@, i, 0) >= 0 {
                Option::Some(self.bodies@[find_from(self.bodies@, i, 0)].1.transform.pos)
            } else {
                Option::<Vec2>::None
            }),
    {
        let n = self.bodies.len();
        let mut k: usize = 0;
        while k < n
            invariant
                k <= n == self.bodies@.len(),
                find_from(self.bodies@, i, 0) == find_from(self.bodies@, i, k as int),
            decreases n - k,
        {
            if self.bodies[k].0 == i {
                return Some(self.bodies[k].1.transform.pos);
            }
            k = k + 1;
        }
        None
    }

    /// A read-only view of the body with identifier `i`, for rendering.
    pub fn get_body(&self, i: u128) -> (r: Option<&RigidBody>)
        ensures
            r == (if find_from(self.bodies@, i, 0) >= 0 {
                Option::Some(&self.bodies@[find_from(self.bodies@, i, 0)].1)
            } else {
                Option::<&RigidBody>::None
            }),
    {
        let n = self.bodies.len();
        let mut k: usize = 0;
        while k < n
            invariant
                k <= n == self.bodies@.len(),
                find_from(self.bodies@, i, 0) == find_from(self.bodies@, i, k as int),
            decreases n - k,
        {
            if self.bodies[k].0 == i {
                return Some(&self.bodies[k].1);
            }
            k = k + 1;
        }
        None
    }

    /// The identifiers of all live bodies, in storage order.
    pub fn body_ids(&self) -> (r: Vec<u128>)
        ensures
            r@.len() == self.bodies@.len(),
            forall|k: int| 0 <= k < r@.len() ==> r@[k] == (#[trigger] self.bodies@[k]).0,
    {
        let n = self.bodies.len();
        let mut ids: Vec<u128> = Vec::new();
        let mut k: usize = 0;
        while k < n
            invariant
                k <= n == self.bodies@.len(),
                ids@.len() == k,
                forall|m: int| 0 <= m < k ==> ids@[m] == (#[trigger] self.bodies@[m]).0,
            decreases n - k,
        {
            ids.push(self.bodies[k].0);
            k = k + 1;
        }
        ids
    }

    /// One physics tick of length `dt`: set gravity as the acceleration of
    /// every dynamic body, integrate all bodies, cull pairs by bounding-box
    /// overlap (every `i < j`, in index order), compute each survivor's
    /// contact and resolve the touching pairs in order, each resolution
    /// seeing the state the previous ones left; exactly `world_step`.
    pub fn update(&mut self, dt: Fx)
        requires
            world_ok(*old(self)),
        ensures
            final(self).bodies@ == world_step(old(self).bodies@, old(self).gravity, dt@),
            final(self).index == old(self).index,
            final(self).gravity == old(self).gravity,
            world_ok(*final(self)),
    {
        let g = self.gravity;
        let n = self.bodies.len();
        let mut k: usize = 0;
        while k < n
            invariant
                k <= n == self.bodies@.len(),
                old(self).bodies@.len() == n,
                self.index == old(self).index,
                self.gravity == old(self).gravity,
                g == old(self).gravity,
                world_ok(*old(self)),
                forall|m: int| 0 <= m < k ==> (#[trigger] self.bodies@[m]) == phase1(
                    old(self).bodies@,
                    g,
                    dt@,
                )[m],
                forall|m: int| 0 <= m < k ==> body_ok(self.bodies@[m].1),
                forall|m: int| k <= m < n ==> (#[trigger] self.bodies@[m]) == old(
                    self,
                ).bodies@[m],
            decreases n - k,
        {
            let e = &mut self.bodies[k];
            if e.1.get_inv_mass().bits != 0 {
                e.1.add_acc(g);
            }
            e.1.integrate(dt);
            proof {
                assert(self.bodies@[k as int] == phase1(old(self).bodies@, g, dt@)[k as int]);
            }
            k = k + 1;
        }
        let ghost b1 = self.bodies@;
        proof {
            assert(b1 =~= phase1(old(self).bodies@, g, dt@));
        }
        let mut pairs: Vec<(usize, usize)> = Vec::new();
        let mut i: usize = 0;
        while i < n
            invariant
                i <= n == self.bodies@.len(),
                self.bodies@ == b1,
                self.index == old(self).index,
                self.gravity == old(self).gravity,
                forall|m: int| 0 <= m < n ==> body_ok((#[trigger] self.bodies@[m]).1),
                forall|m: int| 0 <= m < pairs@.len() ==> (#[trigger] pairs@[m]).0
                    < pairs@[m].1 && pairs@[m].1 < n,
                pairs_rows(b1, 0) == mapped_pairs(pairs@) + pairs_rows(b1, i as int),
            decreases n - i,
        {
            let mut j: usize = i + 1;
            while j < n
                invariant
                    i < j <= n == self.bodies@.len(),
                    self.bodies@ == b1,
                    self.index == old(self).index,
                    self.gravity == old(self).gravity,
                    forall|m: int| 0 <= m < n ==> body_ok((#[trigger] self.bodies@[m]).1),
                    forall|m: int| 0 <= m < pairs@.len() ==> (#[trigger] pairs@[m]).0
                        < pairs@[m].1 && pairs@[m].1 < n,
                    pairs_rows(b1, 0) == mapped_pairs(pairs@) + pairs_row(b1, i as int, j as int)
                        + pairs_rows(b1, i as int + 1),
                decreases n - j,
            {
                let box1 = self.bodies[i].1.shape.get_aabb(
                    self.bodies[i].1.transform.pos,
                    self.bodies[i].1.transform.rot,
                );
                let box2 = self.bodies[j].1.shape.get_aabb(
                    self.bodies[j].1.transform.pos,
                    self.bodies[j].1.transform.rot,
                );
                let ghost ps0 = pairs@;
                let overlap = AABB::intersects(&box1, &box2);
                if overlap {
                    pairs.push((i, j));
                }
                proof {
                    if overlap {
                        assert(mapped_pairs(pairs@) =~= mapped_pairs(ps0).push(
                            (i as int, j as int),
                        ));
                        assert(mapped_pairs(ps0) + pairs_row(b1, i as int, j as int)
                            =~= mapped_pairs(pairs@) + pairs_row(b1, i as int, j as int + 1));
                        assert(mapped_pairs(ps0) + pairs_row(b1, i as int, j as int) + pairs_rows(
                            b1,
                            i as int + 1,
                        ) =~= mapped_pairs(pairs@) + pairs_row(b1, i as int, j as int + 1)
                            + pairs_rows(b1, i as int + 1));
                    }
                }
                j = j + 1;
            }
            proof {
                assert(pairs_row(b1, i as int, n as int) =~= Seq::<(int, int)>::empty());
                assert(mapped_pairs(pairs@) + pairs_row(b1, i as int, n as int) + pairs_rows(
                    b1,
                    i as int + 1,
                ) =~= mapped_pairs(pairs@) + pairs_rows(b1, i as int + 1));
            }
            i = i + 1;
        }
        let ghost ps = pairs_rows(b1, 0);
        proof {
            assert(mapped_pairs(pairs@) + pairs_rows(b1, n as int) =~= mapped_pairs(pairs@));
            assert(ps == mapped_pairs(pairs@));
        }
        let np = pairs.len();
        let mut k: usize = 0;
        while k < np
            invariant
                k <= np == pairs@.len(),
                ps == mapped_pairs(pairs@),
                n == b1.len(),
                forall|m: int| 0 <= m < np ==> (#[trigger] pairs@[m]).0 < pairs@[m].1
                    && pairs@[m].1 < n,
                forall|m: int| 0 <= m < b1.len() ==> body_ok((#[trigger] b1[m]).1),
                self.bodies@ == resolve_all(b1, ps, k as int),
                self.index == old(self).index,
                self.gravity == old(self).gravity,
            decreases np - k,
        {
            proof {
                lemma_resolve_all_props(b1, ps, k as int);
            }
            let pair = pairs[k];
            let pi = pair.0;
            let pj = pair.1;
            let ej = self.bodies.remove(pj);
            let ei = self.bodies.remove(pi);
            let (idi, mut bi) = ei;
            let (idj, mut bj) = ej;
            match Manifold::new(&bi, &bj) {
                None => {},
                Some(m) => {
                    m.resolve(&mut bi, &mut bj);
                },
            }
            self.bodies.insert(pi, (idi, bi));
            self.bodies.insert(pj, (idj, bj));
            proof {
                let cur = resolve_all(b1, ps, k as int);
                lemma_remove2_insert2(cur, pi as int, pj as int, (idi, bi), (idj, bj));
                if manifold_new_spec(cur[pi as int].1, cur[pj as int].1) is None {
                    assert(self.bodies@ =~= cur);
                }
                assert(self.bodies@ == resolve_entry(cur, pi as int, pj as int));
                assert(ps[k as int] == (pi as int, pj as int));
                assert(self.bodies@ == resolve_all(b1, ps, k as int + 1));
            }
            k = k + 1;
        }
        proof {
            lemma_resolve_all_props(b1, ps, np as int);
            assert(self.bodies@ == world_step(old(self).bodies@, old(self).gravity, dt@));
        }
    }

    /// Move the body with identifier `i` to `pos`. Fails exactly when no live
    /// body has the identifier.
    pub fn set_body_position(&mut self, i: u128, pos: Vec2) -> (r: Result<(), PhysicsError>)
        requires
            world_ok(*old(self)),
            v2_ok(pos),
        ensures
            r is Ok <==> find_from(old(self).bodies@, i, 0) >= 0,
            r is Ok ==> final(self).bodies@ == old(self).bodies@.update(
                find_from(old(self).bodies@, i, 0),
                (
                    i,
                    RigidBody {
                        transform: crate::rigidbody::Transform {
                            pos,
                            ..old(self).bodies@[find_from(old(self).bodies@, i, 0)].1.transform
                        },
                        ..old(self).bodies@[find_from(old(self).bodies@, i, 0)].1
                    },
                ),
            ),
            r is Err ==> final(self).bodies@ == old(self).bodies@ && r->Err_0
                == PhysicsError::NotFound,
            final(self).index == old(self).index,
            final(self).gravity == old(self).gravity,
            world_ok(*final(self)),
    {
        let n = self.bodies.len();
        let mut k: usize = 0;
        while k < n
            invariant
                k <= n == self.bodies@.len(),
                self.bodies@ == old(self).bodies@,
                self.index == old(self).index,
                self.gravity == old(self).gravity,
                world_ok(*old(self)),
                v2_ok(pos),
                find_from(self.bodies@, i, 0) == find_from(self.bodies@, i, k as int),
                forall|m: int| 0 <= m < k ==> (#[trigger] self.bodies@[m]).0 != i,
            decreases n - k,
        {
            if self.bodies[k].0 == i {
                let e = &mut self.bodies[k];
                e.1.transform.pos = pos;
                return Ok(());
            }
            k = k + 1;
        }
        Err(PhysicsError::NotFound)
    }

    /// Set the velocity of the body with identifier `i`. Fails exactly when
    /// no live body has the identifier.
    pub fn set_body_velocity(&mut self, i: u128, vel: Vec2) -> (r: Result<(), PhysicsError>)
        requires
            world_ok(*old(self)),
            v2_ok(vel),
        ensures
            r is Ok <==> find_from(old(self).bodies@, i, 0) >= 0,
            r is Ok ==> final(self).bodies@ == old(self).bodies@.update(
                find_from(old(self).bodies@, i, 0),
                (
                    i,
                    RigidBody {
                        vel,
                        ..old(self).bodies@[find_from(old(self).bodies@, i, 0)].1
                    },
                ),
            ),
            r is Err ==> final(self).bodies@ == old(self).bodies@ && r->Err_0
                == PhysicsError::NotFound,
            final(self).index == old(self).index,
            final(self).gravity == old(self).gravity,
            world_ok(*final(self)),
    {
        let n = self.bodies.len();
        let mut k: usize = 0;
        while k < n
            invariant
                k <= n == self.bodies@.len(),
                self.bodies@ == old(self).bodies@,
                self.index == old(self).index,
                self.gravity == old(self).gravity,
                world_ok(*old(self)),
                v2_ok(vel),
                find_from(self.bodies@, i, 0) == find_from(self.bodies@, i, k as int),
            decreases n - k,
        {
            if self.bodies[k].0 == i {
                let e = &mut self.bodies[k];
                e.1.vel = vel;
                return Ok(());
            }
            k = k + 1;
        }
        Err(PhysicsError::NotFound)
    }
}

} // verus!
