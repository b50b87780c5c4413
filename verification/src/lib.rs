//! Compressed-domain motion-vector extraction for H.264 and H.265 streams.

pub mod bits;
pub mod cabac;
pub mod framing;
pub mod grid;
pub mod h264;
pub mod hevc;
pub mod motion;
pub mod refs;
pub mod reorder;
pub mod stats;
pub mod syntax;
