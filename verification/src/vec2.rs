//! 2D vectors over fixed-point scalars.
//!
//! Each executable operation has a spec-level mirror (`v2_add`, `v2_dot`, ...)
//! stating its exact result, saturation and rounding included. The geometric
//! predicates elsewhere use `dot_exact` and `cross_exact`, the unrounded
//! integer forms, which the well-formedness bound `FX_LIMIT` keeps inside
//! 128-bit arithmetic.

use vstd::prelude::*;

use crate::fx::{clip, fx_add, fx_div, fx_mul, fx_neg, fx_ok, fx_sub, iabs, isqrt_u128,
    lemma_i64_prod_in_i128, lemma_sqrt_floor, sqrt_floor, Fx, FX_LIMIT};

verus! {

/// A pair of fixed-point coordinates; value semantics.
#[derive(Clone, Copy, Debug, PartialEq, Eq, Structural)]
pub struct Vec2 {
    pub x: Fx,
    pub y: Fx,
}

/// A vector built in spec code from mathematical coordinates already in range.
pub open spec fn v2(x: int, y: int) -> Vec2
    recommends
        fx_ok(x),
        fx_ok(y),
{
    Vec2 { x: Fx { bits: x as i64 }, y: Fx { bits: y as i64 } }
}

pub open spec fn v2_ok(a: Vec2) -> bool {
    fx_ok(a.x@) && fx_ok(a.y@)
}

pub open spec fn v2_add(a: Vec2, b: Vec2) -> Vec2 {
    v2(fx_add(a.x@, b.x@), fx_add(a.y@, b.y@))
}

pub open spec fn v2_sub(a: Vec2, b: Vec2) -> Vec2 {
    v2(fx_sub(a.x@, b.x@), fx_sub(a.y@, b.y@))
}

pub open spec fn v2_neg(a: Vec2) -> Vec2 {
    v2(fx_neg(a.x@), fx_neg(a.y@))
}

pub open spec fn v2_scale(a: Vec2, s: int) -> Vec2 {
    v2(fx_mul(a.x@, s), fx_mul(a.y@, s))
}

pub open spec fn v2_divide(a: Vec2, s: int) -> Vec2 {
    v2(fx_div(a.x@, s), fx_div(a.y@, s))
}

/// Rounded dot product, as the executable `dot` computes it.
pub open spec fn v2_dot(a: Vec2, b: Vec2) -> int {
    fx_add(fx_mul(a.x@, b.x@), fx_mul(a.y@, b.y@))
}

/// Exact (unrounded) dot product of the stored coordinates.
pub open spec fn dot_exact(a: Vec2, b: Vec2) -> int {
    a.x@ * b.x@ + a.y@ * b.y@
}

/// Exact (unrounded) 2D cross product of the stored coordinates.
pub open spec fn cross_exact(a: Vec2, b: Vec2) -> int {
    a.x@ * b.y@ - a.y@ * b.x@
}

/// Length of the stored coordinate pair: floor square root of the exact
/// sum of squares, saturated into range.
pub open spec fn v2_len(a: Vec2) -> int {
    clip(sqrt_floor(a.x@ * a.x@ + a.y@ * a.y@))
}

/// Direction of `a` at unit scale; the zero vector keeps a zero result.
pub open spec fn v2_normalize(a: Vec2) -> Vec2 {
    let l = v2_len(a);
    if l == 0 {
        v2(0, 0)
    } else {
        v2(fx_div(a.x@, l), fx_div(a.y@, l))
    }
}

/// Left perpendicular `(-y, x)` in the y-down screen frame.
pub open spec fn v2_perp(a: Vec2) -> Vec2 {
    v2(fx_neg(a.y@), a.x@)
}

/// Squaring ignores sign.
proof fn lemma_abs_sq(a: int)
    by (nonlinear_arith)
    ensures
        iabs(a) * iabs(a) == a * a,
        a * a >= 0,
{
}

impl Vec2 {
    pub fn new(x: Fx, y: Fx) -> (r: Vec2)
        ensures
            r == (Vec2 { x, y }),
    {
        Vec2 { x, y }
    }

    /// A vector from whole-unit coordinates.
    pub fn from_ints(x: i64, y: i64) -> (r: Vec2)
        ensures
            r == v2(clip(x * crate::fx::FX_SCALE), clip(y * crate::fx::FX_SCALE)),
    {
        Vec2 { x: Fx::from_int(x), y: Fx::from_int(y) }
    }

    /// A vector from raw fixed-point counts.
    pub fn from_raw(x: i64, y: i64) -> (r: Vec2)
        ensures
            r == v2(clip(x as int), clip(y as int)),
    {
        Vec2 { x: Fx::from_raw(x), y: Fx::from_raw(y) }
    }

    pub fn zero() -> (r: Vec2)
        ensures
            r == v2(0, 0),
    {
        Vec2 { x: Fx { bits: 0 }, y: Fx { bits: 0 } }
    }

    pub fn add(self, o: Vec2) -> (r: Vec2)
        ensures
            r == v2_add(self, o),
    {
        Vec2 { x: self.x.add(o.x), y: self.y.add(o.y) }
    }

    pub fn sub(self, o: Vec2) -> (r: Vec2)
        ensures
            r == v2_sub(self, o),
    {
        Vec2 { x: self.x.sub(o.x), y: self.y.sub(o.y) }
    }

    pub fn neg(self) -> (r: Vec2)
        ensures
            r == v2_neg(self),
    {
        Vec2 { x: self.x.neg(), y: self.y.neg() }
    }

    pub fn scale(self, s: Fx) -> (r: Vec2)
        ensures
            r == v2_scale(self, s@),
    {
        Vec2 { x: self.x.mul(s), y: self.y.mul(s) }
    }

    pub fn divide(self, s: Fx) -> (r: Vec2)
        ensures
            r == v2_divide(self, s@),
    {
        Vec2 { x: self.x.div(s), y: self.y.div(s) }
    }

    /// Rounded dot product.
    pub fn dot(self, o: Vec2) -> (r: Fx)
        ensures
            r@ == v2_dot(self, o),
    {
        self.x.mul(o.x).add(self.y.mul(o.y))
    }

    /// Length `sqrt(x*x + y*y)`, exact below the saturation limit.
    pub fn length(self) -> (r: Fx)
        ensures
            r@ == v2_len(self),
            r@ >= 0,
    {
        proof {
            lemma_i64_prod_in_i128(self.x@, self.x@);
            lemma_i64_prod_in_i128(self.y@, self.y@);
            lemma_abs_sq(self.x@);
            lemma_abs_sq(self.y@);
        }
        let mx: u128 = if self.x.bits >= 0 {
            self.x.bits as u128
        } else {
            (-(self.x.bits as i128)) as u128
        };
        let my: u128 = if self.y.bits >= 0 {
            self.y.bits as u128
        } else {
            (-(self.y.bits as i128)) as u128
        };
        let sum: u128 = mx * mx + my * my;
        let root: u128 = isqrt_u128(sum);
        proof {
            lemma_sqrt_floor(sum as int);
        }
        if root > FX_LIMIT as u128 {
            Fx { bits: FX_LIMIT }
        } else {
            Fx { bits: root as i64 }
        }
    }

    /// Direction at unit scale; the zero vector normalises to itself.
    pub fn normalise(self) -> (r: Vec2)
        ensures
            r == v2_normalize(self),
    {
        let l = self.length();
        if l.bits == 0 {
            proof {
                lemma_abs_sq(self.x@);
                lemma_abs_sq(self.y@);
                lemma_sqrt_floor(self.x@ * self.x@ + self.y@ * self.y@);
            }
            Vec2 { x: Fx { bits: 0 }, y: Fx { bits: 0 } }
        } else {
            Vec2 { x: self.x.div(l), y: self.y.div(l) }
        }
    }

    /// Left perpendicular `(-y, x)` in the y-down screen frame.
    pub fn normal(self) -> (r: Vec2)
        ensures
            r == v2_perp(self),
    {
        Vec2 { x: self.y.neg(), y: self.x }
    }
}

} // verus!
