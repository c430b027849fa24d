//! Core of a Monte Carlo path tracer for triangle meshes: the bounding volume
//! hierarchy, its traversal, and the bookkeeping of the renderer.
//!
//! Arithmetic on single-precision numbers is left to the caller. The library
//! holds such numbers as bit patterns, compares them, and decides from the
//! comparisons: which plane splits a leaf, which child of a node a ray
//! visits first, which hit is the nearest, when a light path ends.

pub mod scalar;
pub mod vector;
pub mod scene;
pub mod texture;
pub mod loader;
pub mod bvh;
pub mod ray;
pub mod renderer;
pub mod image;
