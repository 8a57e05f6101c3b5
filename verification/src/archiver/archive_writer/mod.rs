//! Archive writer: the layout of a list's output directory, what is written
//! there, and how progress is resumed.
//!
//! All sources share it, so that progress tracking and resume work the same
//! way for each of them:
//!
//! ```text
//! output/
//! ├── list.name/
//! │   ├── 1.eml              fetched e-mail
//! │   ├── __progress.yaml    YAML: last processed id
//! │   ├── __lineage.yaml     YAML documents: where each e-mail came from
//! │   └── __errors.csv       CSV: id,error_message
//! ```
//!
//! The functions here decide paths and contents; reading and writing the
//! files is done by the caller.
pub mod archive;
pub mod data_lineage;
pub mod email_store;
pub mod error_log;
pub mod parquet_email_store;
pub mod progress;
pub mod raw_email_store;

pub use archive::{ArchiveWriter, FileWrite};
pub use data_lineage::DataLineageWriter;
pub use email_store::{EmailData, WriteMode};
pub use error_log::ErrorLogger;
pub use progress::ProgressTracker;
pub use raw_email_store::RawEmailStore;
