//! Exact ray resolution on an integer lattice.
//!
//! Scene coordinates, ray origins and ray directions are integers; ray
//! parameters and hit points are exact fractions. On that model the library
//! offers the slab test of axis-aligned boxes, the Möller–Trumbore test of
//! triangles, a bounding-volume hierarchy built by median splits, a sphere
//! tracer over distance-field primitives, a voxel grid walk, the bounce
//! decisions of a path tracer and a codec for voxel snapshots.
pub mod vector;
pub mod ray;
pub mod aabb;
pub mod hit;
pub mod triangle;
pub mod scene;
pub mod resolver;
pub mod bvh;
pub mod snapshot;
pub mod path_tracer;
pub mod renderer;
pub mod ray_marcher;
pub mod voxel;
