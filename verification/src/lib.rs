//! Perceptual hashing of encoded images.
//!
//! An image arrives as raw bytes, is decoded into a canonical pixel grid,
//! hashed by one of several interchangeable algorithms into a fixed-length
//! bit vector, and rendered as base64. Visually similar images give bit
//! vectors with a small Hamming distance.

pub mod algorithm;
pub mod base64;
pub mod bits;
pub mod decoder;
pub mod encoder;
pub mod envelope;
pub mod error;
pub mod normalizer;
pub mod pipeline;
pub mod transform;
