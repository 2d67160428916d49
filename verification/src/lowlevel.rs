//! Low-level building blocks for custom matching pipelines.
//!
//! Most users should prefer the top-level types. These are the pieces the
//! search is made of: peaks and their ranking, the best-K collector,
//! non-maximum suppression, and the dense scans.

pub use crate::candidate::nms::nms_2d;
pub use crate::candidate::topk::sort_peaks_desc;
pub use crate::candidate::topk::Peak;
pub use crate::candidate::topk::TopK;
pub use crate::kernel::merge_row_peaks;
pub use crate::kernel::scan_full;
pub use crate::kernel::scan_range;
pub use crate::kernel::scan_roi;
pub use crate::kernel::scan_row;
pub use crate::kernel::ScanArea;
pub use crate::kernel::ScanParams;
pub use crate::search::Candidate;
pub use crate::search::LevelPlan;
pub use crate::search::ScanRequest;
