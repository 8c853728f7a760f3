//! A 2D rigid-body collision and resolution engine.
//!
//! The engine advances object poses and velocities, detects collisions
//! between convex shapes (circles and half-extent rectangles), resolves
//! them with velocity-level impulses, and emits collision events for
//! outside consumers.  Numbers are fixed-point scalars so that every
//! arithmetic step has an exact, machine-checkable meaning.

pub mod fx;
pub mod vec2;
pub mod collider;
pub mod body;
pub mod broadphase;
pub mod narrowphase;
pub mod integrator;
pub mod solver;
pub mod space;
pub mod inputcache;
