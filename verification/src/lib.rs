//! CPU template matching for grayscale images: the verified core.
//!
//! The library locates a small grayscale template inside a larger grayscale
//! image by a coarse-to-fine beam search over image pyramids. This crate
//! holds what the search decides: image views and pyramids, the ranking of
//! peaks, the best-K collector, non-maximum suppression, the dense scans over
//! placements, the beam carried from level to level, and the validation of
//! configurations. Scores are single-precision values carried by their bit
//! patterns; computing them is the embedding's part.

pub mod angles;
pub mod bank;
pub mod candidate;
pub mod error;
pub mod image;
pub mod kernel;
pub mod lowlevel;
pub mod refine;
pub mod scalar;
pub mod search;
pub mod template;

pub use crate::bank::CompileConfig;
pub use crate::bank::CompileConfigNoRot;
pub use crate::error::CorrMatchError;
pub use crate::error::CorrMatchResult;
pub use crate::image::pyramid::ImagePyramid;
pub use crate::image::ImageView;
pub use crate::image::OwnedImage;
pub use crate::scalar::Scalar;
pub use crate::search::MatchConfig;
pub use crate::search::Metric;
pub use crate::search::RotationMode;
pub use crate::template::Template;
