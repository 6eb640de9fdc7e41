//! Contact manifolds and impulse-based contact resolution.
//!
//! `resolve` first nudges the two bodies apart along the contact normal
//! (Baumgarte-style positional correction at 80%), then applies an impulse
//! along the normal that reverses the approaching part of the relative
//! velocity scaled by the smaller restitution. A body with zero inverse mass
//! never moves: every change to it is a multiplication by zero.

use vstd::prelude::*;

use crate::fx::{fx_add, fx_div, fx_mul, fx_neg, Fx, FX_SCALE};
use crate::vec2::{v2_add, v2_divide, v2_dot, v2_scale, v2_sub, Vec2};
use crate::rigidbody::{body_ok, RigidBody};
use crate::contact::collision_spec;
use crate::shape::Shape;

verus! {

/// Share of the penetration corrected positionally per resolve: 0.8.
pub const PERCENT_BITS: i64 = 80000;

/// One contact between two bodies: point, unit normal from the first body
/// toward the second, and penetration depth.
#[derive(Clone, Copy, Debug, PartialEq, Eq, Structural)]
pub struct Manifold {
    pub collision_point: Vec2,
    pub normal_vector: Vec2,
    pub depth: Fx,
}

/// The manifold `Manifold::new` builds from a contact, if the bodies touch.
pub open spec fn manifold_new_spec(b1: RigidBody, b2: RigidBody) -> Option<Manifold> {
    match collision_spec(b1.shape, b1.transform.pos, b2.shape, b2.transform.pos) {
        Option::None => Option::None,
        Option::Some(cd) => Option::Some(
            Manifold {
                collision_point: cd.collision_point,
                normal_vector: cd.normal_vector,
                depth: cd.depth,
            },
        ),
    }
}

/// Both bodies after resolving contact `m`, in order: no action when both are
/// static; positional correction of `PERCENT_BITS` of the depth shared by
/// inverse mass; then, unless the bodies already separate along the normal,
/// an impulse `-(1 + e) * vn / (inv_i + inv_j)` along the normal, applied
/// oppositely in proportion to each inverse mass.
pub open spec fn resolve_spec(m: Manifold, bi: RigidBody, bj: RigidBody) -> (RigidBody,
    RigidBody) {
    let a = bi.mass_data.inv_mass@;
    let b = bj.mass_data.inv_mass@;
    let s = fx_add(a, b);
    if s == 0 {
        (bi, bj)
    } else {
        let corr = v2_scale(
            v2_divide(v2_scale(m.normal_vector, m.depth@), s),
            PERCENT_BITS as int,
        );
        let pos_i = v2_sub(bi.transform.pos, v2_scale(corr, a));
        let pos_j = v2_add(bj.transform.pos, v2_scale(corr, b));
        let bi1 = RigidBody {
            transform: crate::rigidbody::Transform { pos: pos_i, ..bi.transform },
            ..bi
        };
        let bj1 = RigidBody {
            transform: crate::rigidbody::Transform { pos: pos_j, ..bj.transform },
            ..bj
        };
        let vn = v2_dot(m.normal_vector, v2_sub(bj.vel, bi.vel));
        if vn > 0 {
            (bi1, bj1)
        } else {
            let e = if bi.material.restitution@ <= bj.material.restitution@ {
                bi.material.restitution@
            } else {
                bj.material.restitution@
            };
            let j = fx_div(fx_mul(fx_neg(fx_add(FX_SCALE as int, e)), vn), s);
            let imp = v2_scale(m.normal_vector, j);
            let bi2 = RigidBody { vel: v2_sub(bi.vel, v2_scale(imp, a)), ..bi1 };
            let bj2 = RigidBody { vel: v2_add(bj.vel, v2_scale(imp, b)), ..bj1 };
            (bi2, bj2)
        }
    }
}

impl Manifold {
    /// The contact manifold between two bodies, or `None` when they are
    /// disjoint. The normal points from `body1` toward `body2`.
    pub fn new(body1: &RigidBody, body2: &RigidBody) -> (r: Option<Manifold>)
        requires
            body_ok(*body1),
            body_ok(*body2),
        ensures
            r == manifold_new_spec(*body1, *body2),
    {
        match Shape::collision_data(
            &body1.shape,
            &body1.transform.pos,
            &body2.shape,
            &body2.transform.pos,
        ) {
            None => None,
            Some(cd) => Some(
                Manifold {
                    collision_point: cd.collision_point,
                    normal_vector: cd.normal_vector,
                    depth: cd.depth,
                },
            ),
        }
    }

    /// Resolve this contact between `body_i` and `body_j`: positional
    /// correction then impulse, per `resolve_spec`. Only positions and
    /// velocities change; a static body (zero inverse mass) keeps its
    /// position and velocity exactly.
    pub fn resolve(&self, body_i: &mut RigidBody, body_j: &mut RigidBody)
        requires
            body_ok(*old(body_i)),
            body_ok(*old(body_j)),
        ensures
            *final(body_i) == resolve_spec(*self, *old(body_i), *old(body_j)).0,
            *final(body_j) == resolve_spec(*self, *old(body_i), *old(body_j)).1,
            body_ok(*final(body_i)),
            body_ok(*final(body_j)),
            old(body_i).mass_data.inv_mass@ == 0 ==> final(body_i).transform.pos == old(
                body_i,
            ).transform.pos && final(body_i).vel == old(body_i).vel,
            old(body_j).mass_data.inv_mass@ == 0 ==> final(body_j).transform.pos == old(
                body_j,
            ).transform.pos && final(body_j).vel == old(body_j).vel,
    {
        let inv_i = body_i.get_inv_mass();
        let inv_j = body_j.get_inv_mass();
        let inv_sum = inv_i.add(inv_j);
        if inv_sum.bits == 0 {
            return;
        }
        let percent = Fx { bits: PERCENT_BITS };
        let corr = self.normal_vector.scale(self.depth).divide(inv_sum).scale(percent);
        body_i.transform.pos = body_i.transform.pos.sub(corr.scale(inv_i));
        body_j.transform.pos = body_j.transform.pos.add(corr.scale(inv_j));
        proof {
            if inv_i@ == 0 {
                crate::fx::lemma_fx_mul_zero(corr.x@);
                crate::fx::lemma_fx_mul_zero(corr.y@);
            }
            if inv_j@ == 0 {
                crate::fx::lemma_fx_mul_zero(corr.x@);
                crate::fx::lemma_fx_mul_zero(corr.y@);
            }
        }
        let rv = body_j.vel.sub(body_i.vel);
        let vn = self.normal_vector.dot(rv);
        if vn.bits > 0 {
            return;
        }
        let e = body_i.get_restitution().min(body_j.get_restitution());
        let one = Fx { bits: FX_SCALE };
        let j = one.add(e).neg().mul(vn).div(inv_sum);
        let imp = self.normal_vector.scale(j);
        body_i.vel = body_i.vel.sub(imp.scale(inv_i));
        body_j.vel = body_j.vel.add(imp.scale(inv_j));
        proof {
            if inv_i@ == 0 || inv_j@ == 0 {
                crate::fx::lemma_fx_mul_zero(imp.x@);
                crate::fx::lemma_fx_mul_zero(imp.y@);
            }
        }
    }
}

} // verus!
