//! Bounding volume hierarchy over triangles: an eight-wide tree whose leaves
//! are runs of eight-triangle chunks.
pub mod math;
pub mod kernel;
pub mod node;
pub mod split;
pub mod tree;
pub mod cluster;
pub mod collapse;
pub mod geometry;
pub mod builder;
pub mod bvh;
pub mod bounds;
pub mod laws;
pub mod cover;
pub mod exhaustive;
pub mod scene;
pub mod embree;
