//! Raag detection: signal conditioning, pitch tracking, chroma framing, tonic
//! estimation, scale-degree mapping and matching against a raag knowledge base.
//!
//! Samples are fixed-point values with 23 fractional bits, frequencies are given in
//! millihertz and scale degrees in millionths of the tonic.

pub mod chromagram;
pub mod classifier;
pub mod pitch;
pub mod preprocessing;
pub mod raag_db;
pub mod reader;
pub mod spectral;
