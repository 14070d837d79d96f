//! Media ingest pipeline: discover media files on a removable volume,
//! resolve their capture dates, assign collision-free destination paths
//! inside a date-organized target tree, and drive a pausable, cancellable
//! copy run.

pub mod analyzer;
pub mod config;
pub mod dates;
pub mod error;
pub mod metadata;
pub mod names;
pub mod scanner;
pub mod uploader;
