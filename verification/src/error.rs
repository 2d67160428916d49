//! Error taxonomy shared by every operation of the library.

use vstd::prelude::*;

verus! {

/// Errors reported by the library.
///
/// Shape errors describe a buffer that cannot back the requested view, data
/// errors a template or angle grid that cannot be normalised, configuration
/// errors an inconsistent set of knobs, and `NoCandidates` a search that ended
/// with nothing to report. `IndexOutOfBounds` signals a broken internal
/// invariant.
#[derive(Debug, Clone, PartialEq, Eq)]
pub enum CorrMatchError {
    /// Width or height is zero, or the pixel count does not fit the machine word.
    InvalidDimensions { width: usize, height: usize },
    /// The row stride is smaller than the image width.
    InvalidStride { width: usize, stride: usize },
    /// The backing buffer holds fewer elements than the view needs.
    BufferTooSmall { needed: usize, got: usize },
    /// The requested region does not lie inside the image.
    RoiOutOfBounds {
        x: usize,
        y: usize,
        width: usize,
        height: usize,
        img_width: usize,
        img_height: usize,
    },
    /// The template cannot be normalised.
    DegenerateTemplate { reason: &'static str },
    /// The angle grid parameters are invalid.
    InvalidAngleGrid { reason: &'static str },
    /// An index lies outside the collection it addresses.
    IndexOutOfBounds { index: usize, len: usize, context: &'static str },
    /// A configuration value is outside its allowed range.
    InvalidConfig { reason: &'static str },
    /// A rotated plan was requested from assets compiled without rotation.
    RotationUnavailable { reason: &'static str },
    /// The search ended without a single candidate.
    NoCandidates { reason: &'static str },
    /// Parallel execution was requested where none is available.
    ParallelUnavailable,
}

/// Result alias for library operations.
pub type CorrMatchResult<T> = Result<T, CorrMatchError>;

} // verus!
