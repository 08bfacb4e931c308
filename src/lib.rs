//! Deterministic procedural noise: a forkable pseudorandom byte stream, the
//! integer core of cellular and lattice noise, and a banded raster renderer.

pub mod gens;
pub mod noise;
pub mod stream;
pub mod tiles;

pub use gens::{Category, Mottler, Test2D, TestAscii, WorleyGen};
pub use noise::{Checkerboard, FeaturePoint, Quadrant, Worley};
pub use stream::{ForeveRNG, StreamView};
pub use tiles::{band_count, band_rows, render, render_band, stitch};
