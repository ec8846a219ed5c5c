//! Failure values reported by the rendering core.
//!
//! The taxonomy mirrors the boundary contract: configuration problems are
//! rejected before any work begins, malformed names or undecodable frame
//! bytes are format errors, and everything the host's storage can spoil is an
//! input/output error. Every error aborts the enclosing call.
use vstd::prelude::*;

verus! {

/// A failure of one rasterizer, assembler or bootstrap call.
#[derive(Clone, Copy, Debug, PartialEq, Eq, Structural)]
pub enum RenderError {
    /// The viewport size is not positive, or is too large for an image
    /// buffer (a configuration error, rejected before any work begins).
    InvalidBounds,
    /// An image or animation encoder reported a failure. The core encodes
    /// into memory buffers, whose encoders it promises succeed, so its
    /// contracts rule this value out of every call it makes.
    EncodeFailed,
    /// An animation was requested over zero frames.
    EmptySequence,
    /// A frame is too large for the animation container.
    FrameTooLarge,
    /// A frame file name does not have the shape `frame<N>.png` (a format
    /// error: the assembler aborts rather than skip the file).
    BadFrameName,
    /// The bytes of a frame do not decode as a supported raster image.
    UndecodableFrame,
    /// The caller's storage reported a failure that the core cannot repair.
    Io,
}

} // verus!
