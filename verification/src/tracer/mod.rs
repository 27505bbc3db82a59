//! The path tracer: from pixels to radiance.
pub mod config;
pub mod direct;
pub mod bounce;
pub mod path;
pub mod training;
pub mod probe;
