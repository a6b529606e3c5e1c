//! The decision core of a Monte Carlo path tracer.
//!
//! Numbers come in as IEEE 754 bit patterns and are only ever compared here;
//! the arithmetic that produces them is the caller's. Each module holds the
//! rules of one part of the renderer, with the contract it is proved against.

pub mod scalar;
pub mod vec;
pub mod util;
pub mod pic;
pub mod geo;
pub mod material;
pub mod mesh;
pub mod kd_tree;
pub mod kd_build;
pub mod kd_walk;
pub mod kd_nearest;
pub mod world;
