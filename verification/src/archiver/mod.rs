//! The archiver: configuration, article selection, and the bookkeeping of
//! the per-list output directories.
pub mod archive_writer;
pub mod brin_index;
pub mod config;
pub mod errors;
pub mod nntp_source;
pub mod public_inbox_source;

pub mod range_inputs;
pub mod scheduler;
pub mod worker;
