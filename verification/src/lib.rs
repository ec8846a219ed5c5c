//! Rendering core for 2D particle simulations.
//!
//! The library has two independent stages. The frame rasterizer projects a
//! snapshot of particle positions into a pixel-space image and encodes it as
//! PNG bytes. The sequence assembler decodes a deterministically ordered set
//! of frame images and encodes them into one animated GIF. A small helper
//! classifies the outcome of a directory-creation probe. All file input and
//! output stays with the caller: the library computes on plain values.
pub mod animation;
pub mod bootstrap;
pub mod errors;
pub mod frames;
pub mod geometry;
pub mod imaging;
pub mod raster;
