//! Rigid bodies: a shape, a material, derived inverse mass, a transform with
//! previous-state retention for render interpolation, velocity and
//! accumulated acceleration, advanced by semi-implicit Euler integration.
//!
//! Inverse mass is the canonical form: zero encodes an immovable (static)
//! body, so the solver multiplies by zero instead of branching.

use vstd::prelude::*;

use crate::fx::{fx_add, fx_div, fx_mul, fx_ok, fx_sub, Fx, FX_SCALE};
use crate::vec2::{v2, v2_add, v2_ok, v2_scale, Vec2};
use crate::shape::{area_spec, point_inside_spec, shape_ok, Shape};
use crate::contact::intersects_spec;

verus! {

/// A render colour; the core never interprets it.
#[derive(Clone, Copy, Debug, PartialEq, Eq, Structural)]
pub struct Rgb {
    pub r: u8,
    pub g: u8,
    pub b: u8,
}

/// Density and restitution, with a colour for the renderer. Density zero
/// makes bodies of this material static.
#[derive(Clone, Copy, Debug, PartialEq, Eq, Structural)]
pub struct Material {
    pub density: Fx,
    pub restitution: Fx,
    pub color: Rgb,
}

/// Density is non-negative and restitution lies in [0, 1].
pub open spec fn material_ok(m: Material) -> bool {
    &&& 0 <= m.density@ <= crate::fx::FX_LIMIT as int
    &&& 0 <= m.restitution@ <= FX_SCALE as int
}

impl Material {
    /// A material from raw properties.
    pub fn new(density: Fx, restitution: Fx, color: Rgb) -> (m: Material)
        requires
            0 <= density@ <= crate::fx::FX_LIMIT as int,
            0 <= restitution@ <= FX_SCALE as int,
        ensures
            m == (Material { density, restitution, color }),
            material_ok(m),
    {
        Material { density, restitution, color }
    }

    /// Preset: density 0.6, restitution 0.1.
    pub fn rock() -> (m: Material)
        ensures
            m.density@ == 60000 && m.restitution@ == 10000,
            material_ok(m),
    {
        Material {
            density: Fx { bits: 60000 },
            restitution: Fx { bits: 10000 },
            color: Rgb { r: 128, g: 128, b: 128 },
        }
    }

    /// Preset: density 0.3, restitution 0.2.
    pub fn wood() -> (m: Material)
        ensures
            m.density@ == 30000 && m.restitution@ == 20000,
            material_ok(m),
    {
        Material {
            density: Fx { bits: 30000 },
            restitution: Fx { bits: 20000 },
            color: Rgb { r: 170, g: 170, b: 0 },
        }
    }

    /// Preset: density 1.2, restitution 0.8.
    pub fn metal() -> (m: Material)
        ensures
            m.density@ == 120000 && m.restitution@ == 80000,
            material_ok(m),
    {
        Material {
            density: Fx { bits: 120000 },
            restitution: Fx { bits: 80000 },
            color: Rgb { r: 200, g: 200, b: 200 },
        }
    }

    /// Preset: density 0.3, restitution 0.8.
    pub fn bouncy_ball() -> (m: Material)
        ensures
            m.density@ == 30000 && m.restitution@ == 80000,
            material_ok(m),
    {
        Material {
            density: Fx { bits: 30000 },
            restitution: Fx { bits: 80000 },
            color: Rgb { r: 0, g: 255, b: 255 },
        }
    }

    /// Preset: density 0.3, restitution 0.95.
    pub fn super_ball() -> (m: Material)
        ensures
            m.density@ == 30000 && m.restitution@ == 95000,
            material_ok(m),
    {
        Material {
            density: Fx { bits: 30000 },
            restitution: Fx { bits: 95000 },
            color: Rgb { r: 255, g: 0, b: 255 },
        }
    }

    /// Preset: density 0.1, restitution 0.2.
    pub fn pillow() -> (m: Material)
        ensures
            m.density@ == 10000 && m.restitution@ == 20000,
            material_ok(m),
    {
        Material {
            density: Fx { bits: 10000 },
            restitution: Fx { bits: 20000 },
            color: Rgb { r: 255, g: 255, b: 255 },
        }
    }

    /// Preset: density 0 (bodies of this material are static), restitution 0.4.
    pub fn static_material() -> (m: Material)
        ensures
            m.density@ == 0 && m.restitution@ == 40000,
            material_ok(m),
    {
        Material {
            density: Fx { bits: 0 },
            restitution: Fx { bits: 40000 },
            color: Rgb { r: 255, g: 255, b: 0 },
        }
    }
}

/// Position and rotation, with the values they had at the start of the most
/// recent integration step, kept so a renderer can interpolate between
/// physics frames.
#[derive(Clone, Copy, Debug, PartialEq, Eq, Structural)]
pub struct Transform {
    pub pos: Vec2,
    pub rot: Fx,
    pub prev_pos: Vec2,
    pub prev_rot: Fx,
}

/// Inverse mass and inverse rotational inertia; zero means infinite
/// (immovable). Rotational dynamics are not yet solved, so inverse inertia
/// stays zero.
#[derive(Clone, Copy, Debug, PartialEq, Eq, Structural)]
pub struct MassData {
    pub inv_mass: Fx,
    pub inv_inertia: Fx,
}

/// A convex rigid body with linear velocity and accumulated acceleration.
#[derive(Clone, Debug, PartialEq, Eq)]
pub struct RigidBody {
    pub shape: Shape,
    pub transform: Transform,
    pub material: Material,
    pub mass_data: MassData,
    pub vel: Vec2,
    pub acc: Vec2,
}

/// Well-formedness: valid shape and material, non-negative inverse mass, and
/// every stored coordinate within the fixed-point range.
pub open spec fn body_ok(b: RigidBody) -> bool {
    &&& shape_ok(b.shape)
    &&& material_ok(b.material)
    &&& 0 <= b.mass_data.inv_mass@ <= crate::fx::FX_LIMIT as int
    &&& fx_ok(b.mass_data.inv_inertia@)
    &&& v2_ok(b.transform.pos)
    &&& v2_ok(b.transform.prev_pos)
    &&& fx_ok(b.transform.rot@)
    &&& fx_ok(b.transform.prev_rot@)
    &&& v2_ok(b.vel)
    &&& v2_ok(b.acc)
}

/// The body `new` constructs: inverse mass `1 / (density * area)`, or zero
/// for a massless (static) body; previous state equal to current; no motion.
pub open spec fn body_new_spec(pos: Vec2, shape: Shape, material: Material) -> RigidBody {
    let mass = fx_mul(material.density@, area_spec(shape));
    let inv = if mass == 0 {
        0
    } else {
        fx_div(FX_SCALE as int, mass)
    };
    RigidBody {
        shape,
        transform: Transform {
            pos,
            rot: Fx { bits: 0 },
            prev_pos: pos,
            prev_rot: Fx { bits: 0 },
        },
        material,
        mass_data: MassData { inv_mass: Fx { bits: inv as i64 }, inv_inertia: Fx { bits: 0 } },
        vel: v2(0, 0),
        acc: v2(0, 0),
    }
}

/// Semi-implicit Euler: velocity first absorbs the accumulated acceleration,
/// then position moves by the new velocity; acceleration resets and the
/// previous position is retained for interpolation.
pub open spec fn integrate_spec(b: RigidBody, dt: int) -> RigidBody {
    let vel = v2_add(b.vel, v2_scale(b.acc, dt));
    let pos = v2_add(b.transform.pos, v2_scale(vel, dt));
    RigidBody {
        shape: b.shape,
        transform: Transform {
            pos,
            rot: b.transform.rot,
            prev_pos: b.transform.pos,
            prev_rot: b.transform.prev_rot,
        },
        material: b.material,
        mass_data: b.mass_data,
        vel,
        acc: v2(0, 0),
    }
}

/// Linear interpolation between the previous and current value of the
/// transform: `prev * (1 - alpha) + current * alpha`.
pub open spec fn interp_pos_spec(b: RigidBody, alpha: int) -> Vec2 {
    v2_add(
        v2_scale(b.transform.pos, alpha),
        v2_scale(b.transform.prev_pos, fx_add(FX_SCALE as int, -alpha)),
    )
}

impl RigidBody {
    /// A body at rest at `pos`: mass is density times shape area, stored as
    /// its inverse (zero meaning static); previous state starts equal to the
    /// current state.
    pub fn new(pos: Vec2, shape: Shape, material: Material) -> (b: RigidBody)
        requires
            shape_ok(shape),
            material_ok(material),
            v2_ok(pos),
        ensures
            b == body_new_spec(pos, shape, material),
            body_ok(b),
    {
        let area = shape.area();
        let mass = material.density.mul(area);
        proof {
            crate::fx::lemma_fx_mul_nonneg(material.density@, area@);
        }
        let inv_mass = if mass.bits == 0 {
            Fx { bits: 0 }
        } else {
            Fx { bits: FX_SCALE }.div(mass)
        };
        RigidBody {
            shape,
            transform: Transform {
                pos,
                rot: Fx { bits: 0 },
                prev_pos: pos,
                prev_rot: Fx { bits: 0 },
            },
            material,
            mass_data: MassData { inv_mass, inv_inertia: Fx { bits: 0 } },
            vel: Vec2::zero(),
            acc: Vec2::zero(),
        }
    }

    /// Replace the accumulated acceleration (used for environmental
    /// acceleration such as gravity, regardless of mass).
    pub fn add_acc(&mut self, acc: Vec2)
        ensures
            *final(self) == (RigidBody { acc, ..*old(self) }),
    {
        self.acc = acc;
    }

    /// Accumulate a force: acceleration grows by force times inverse mass, so
    /// a static body absorbs forces to no effect.
    pub fn add_force(&mut self, force: Vec2)
        ensures
            *final(self) == (RigidBody {
                acc: v2_add(old(self).acc, v2_scale(force, old(self).mass_data.inv_mass@)),
                ..*old(self)
            }),
    {
        let d = force.scale(self.mass_data.inv_mass);
        self.acc = self.acc.add(d);
    }

    pub fn get_inv_mass(&self) -> (r: Fx)
        ensures
            r == self.mass_data.inv_mass,
    {
        self.mass_data.inv_mass
    }

    pub fn get_inv_inertia(&self) -> (r: Fx)
        ensures
            r == self.mass_data.inv_inertia,
    {
        self.mass_data.inv_inertia
    }

    pub fn get_shape(&self) -> (r: &Shape)
        ensures
            r == &self.shape,
    {
        &self.shape
    }

    pub fn get_restitution(&self) -> (r: Fx)
        ensures
            r == self.material.restitution,
    {
        self.material.restitution
    }

    /// Advance one step of length `dt` by semi-implicit Euler; see
    /// `integrate_spec`. A zero `dt` leaves position and velocity unchanged
    /// (and still clears the acceleration).
    pub fn integrate(&mut self, dt: Fx)
        requires
            body_ok(*old(self)),
        ensures
            *final(self) == integrate_spec(*old(self), dt@),
            body_ok(*final(self)),
            dt@ == 0 ==> final(self).vel == old(self).vel && final(self).transform.pos == old(
                self,
            ).transform.pos,
    {
        self.transform.prev_pos = self.transform.pos;
        self.vel = self.vel.add(self.acc.scale(dt));
        self.transform.pos = self.transform.pos.add(self.vel.scale(dt));
        self.acc = Vec2::zero();
    }

    /// Whether this body's shape overlaps another's.
    pub fn intersects(&self, other: &RigidBody) -> (r: bool)
        requires
            body_ok(*self),
            body_ok(*other),
        ensures
            r == intersects_spec(
                self.shape,
                self.transform.pos,
                other.shape,
                other.transform.pos,
            ),
    {
        Shape::intersects(&self.shape, &self.transform.pos, &other.shape, &other.transform.pos)
    }

    /// Whether `point` lies inside this body's shape at its position.
    pub fn point_inside(&self, point: &Vec2) -> (r: bool)
        requires
            body_ok(*self),
            v2_ok(*point),
        ensures
            r == point_inside_spec(self.shape, self.transform.pos, *point),
    {
        self.shape.point_inside(&self.transform.pos, point)
    }

    /// The position a renderer should draw at interpolation factor `alpha`
    /// (0 draws the previous physics frame, 1 the current one), with the
    /// rotation interpolated the same way.
    pub fn interpolated_transform(&self, alpha: Fx) -> (r: (Vec2, Fx))
        ensures
            r.0 == interp_pos_spec(*self, alpha@),
            r.1@ == fx_add(
                fx_mul(self.transform.rot@, alpha@),
                fx_mul(self.transform.prev_rot@, fx_sub(FX_SCALE as int, alpha@)),
            ),
    {
        let one = Fx { bits: FX_SCALE };
        let rest = one.sub(alpha);
        let pos = self.transform.pos.scale(alpha).add(self.transform.prev_pos.scale(rest));
        let rot = self.transform.rot.mul(alpha).add(self.transform.prev_rot.mul(rest));
        (pos, rot)
    }
}

} // verus!
