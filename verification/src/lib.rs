//! Palettes of `k` colours for an image, found by k-means on the GPU.
//!
//! The library chooses the first centroids, lays out what the GPU works on, and decides what
//! is run when. It does no input or output of its own.

pub mod bytes;
pub mod color;
pub mod gpu;
pub mod init;
pub mod pixels;
pub mod random;
pub mod renderer;
pub mod weighted;

pub use pixels::Image;
