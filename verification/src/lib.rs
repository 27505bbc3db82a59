//! The core of a path tracer that renders on the CPU: trees over triangles, scenes
//! and their import, light and materials, paths, a radiance cache that is trained
//! while a picture is rendered, the schedule of worker threads, and the window
//! around it all.
//!
//! Numbers are handled as [`scalar::Scalar`] and [`double::Double`]: floating-point
//! values known by their place in the numeric order. Comparing them is exact and
//! done here. Rounded arithmetic belongs to the caller, which hands it in as an
//! [`arith::Arith`], [`double::PreciseArith`] or [`flatten::SceneMath`]; what is
//! computed with it is stated for every set of rules that describes it.
//!
//! Random numbers come from [`pcg32::Pcg32`], so that what is drawn is stated
//! exactly. Times, files and threads stay with the caller as well: the library
//! takes in what happened and says what is to be done.
pub mod scalar;
pub mod arith;
pub mod pcg32;
pub mod aabb;
pub mod order;
pub mod accel;
pub mod scene;
pub mod texture;
pub mod microfacet;
pub mod brdf;
pub mod glass;
pub mod distribution;
pub mod emitters;
pub mod light;
pub mod flatten;
pub mod bvh;
pub mod material;
pub mod ray;
pub mod reservoir;
pub mod camera;
pub mod tracer;
pub mod import;
pub mod setup;
pub mod tonemap;
pub mod camera_nav;
pub mod viewport;
pub mod double;
pub mod stats;
pub mod gui;
pub mod assets;
pub mod panorama;
pub mod bench_report;
pub mod oxyde;
pub mod schedule;
pub mod full_pass;
pub mod nirc;
pub mod nrc;
