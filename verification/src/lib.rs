//! Verified core of a disk-space usage analyzer.
//!
//! The library aggregates, for every directory of a filesystem snapshot,
//! the cumulative size, file count, largest contained file and a histogram
//! of bytes per lowercase file extension, and collects one registry entry
//! per visited subdirectory (never for the scan root itself).
//!
//! All filesystem reading is left to the caller, which hands the walker an
//! in-memory `FsNode` snapshot; the traversal, the aggregation and the
//! registry bookkeeping are verified here.

pub mod aggregate;
pub mod ext_map;
pub mod fs_tree;
pub mod ranking;
pub mod registry;
pub mod report;
pub mod sizefmt;
pub mod text;
pub mod walker;

pub use aggregate::DirInfo;
pub use ext_map::ExtMap;
pub use fs_tree::FsNode;
pub use ranking::sort_desc;
pub use registry::ScanRegistry;
pub use report::{TipFlags, compute_tips, global_histogram};
pub use sizefmt::format_size;
pub use walker::{ScanError, scan_directory};
