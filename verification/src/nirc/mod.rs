//! The neural cache of incident radiance: what it is fed, where training
//! samples are kept, and how they are dealt out to training steps.
pub mod encoding;
pub mod mlp;
pub mod optimizer;
pub mod ring;
pub mod trainer;
