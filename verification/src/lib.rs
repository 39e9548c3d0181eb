//! The decision core of a small offline sphere ray tracer.
//!
//! The arithmetic of rays and spheres is floating point and lives with the
//! caller. What a renderer decides lives here, proved against its contracts:
//!
//! - `scalar`: how two double-precision numbers compare, by their bits;
//! - `scene`: which roots count and which sphere is the nearest;
//! - `image`: the dimensions of the image and the order of its pixels;
//! - `jitter`: the offsets of the samples within a pixel;
//! - `render`: which ray is cast next and when a pixel is complete;
//! - `color`: the level that a channel gets;
//! - `ppm`: the written file, byte for byte;
//! - `error`: what can be wrong with a configuration.

pub mod color;
pub mod error;
pub mod image;
pub mod jitter;
pub mod ppm;
pub mod render;
pub mod scalar;
pub mod scene;
