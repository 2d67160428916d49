//! Candidate selection and pruning: ranking of peaks, the bounded best-K
//! collector, and spatial non-maximum suppression.

pub mod nms;
pub mod topk;
