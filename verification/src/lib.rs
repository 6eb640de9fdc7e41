//! A 2D rigid-body physics core: convex shapes (circles and clockwise convex
//! polygons), axis-aligned bounding boxes, contact-manifold generation,
//! impulse-based contact resolution and a world that steps a set of bodies
//! through fixed time ticks.
//!
//! All quantities are fixed-point numbers ([`fx::Fx`]): an `i64` count of
//! 1/100000 units. Every operation saturates at a symmetric limit and rounds
//! toward zero, so each function's contract states the exact value produced.

pub mod fx;
pub mod vec2;
pub mod shape;
pub mod contact;
pub mod rigidbody;
pub mod manifold;
pub mod physics;
pub mod laws;

