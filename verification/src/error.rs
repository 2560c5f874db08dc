//! Errors of the geometry and frame types.

use vstd::prelude::*;

verus! {

/// Why a coordinate conversion or a frame operation was refused.
#[derive(Debug, Clone, PartialEq, Eq)]
pub enum DomainError {
    /// A coordinate or rectangle lies outside the frame; the text says where.
    OutOfBounds(String),
    /// The resulting width and height are not usable.
    InvalidDimensions(u32, u32),
    /// A conversion between coordinate spaces failed.
    ConversionError(String),
    /// The pixel buffer is shorter than its layout needs.
    BufferMismatch { expected: usize, actual: usize },
}

} // verus!
