//! Segment index: which block holds similar or equal content, on this rank or on another.

pub mod distributed;
pub mod labels;

pub use distributed::{DistributedHit, DistributedSegmentIndex, TierBudget};
pub use labels::{LabelMap, UsearchConfig};
