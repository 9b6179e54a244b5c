//! A verified model of a screen-space 2D global-illumination pipeline.
//!
//! The pipeline turns a rasterized scene image into a relit image plus a
//! rolling history buffer: an emitter/occluder mask is extracted from the
//! scene, a jump-flood pass chain builds a nearest-seed map, that map becomes
//! a distance field, rays are marched against the field to gather incoming
//! light, and the result is denoised and blended with the previous frame.
//!
//! All arithmetic is integer fixed-point (milli-units), so every pass is a
//! deterministic function of its inputs with a proved contract.
//!
//! - [`fp`] — fixed-point arithmetic, powers of two, square root, sine.
//! - [`color`] — RGBA texels and color surfaces.
//! - [`settings`] — the host-tunable parameters and their sanitization.
//! - [`history`] — the ping-ponged history pair and its role parity.
//! - [`extract`] — the emitter/occluder extractor.
//! - [`seed`] — seed buffers and the seeding pass.
//! - [`jfa`] — the jump-flood propagator and its reach proofs.
//! - [`distance`] — the distance field builder.
//! - [`raycast`] — the sphere-tracing light gatherer.
//! - [`denoise`] — the spatial filter and history writer.
//! - [`pipeline`] — the per-view instance and the per-frame driver.

pub mod color;
pub mod denoise;
pub mod distance;
pub mod extract;
pub mod fp;
pub mod history;
pub mod jfa;
pub mod pipeline;
pub mod raycast;
pub mod seed;
pub mod settings;

pub use fp::FP_ONE;
