//! The facade a worker uses for one mailing list.
use vstd::prelude::*;
use crate::archiver::archive_writer::error_log::{ErrorLogger, spec_error_line};
use crate::archiver::archive_writer::progress::{
    ProgressTracker, opt_nat, opt_text, spec_progress_document, spec_resume,
};
use crate::archiver::archive_writer::raw_email_store::{
    RawEmailStore, concat_lines, concat_strings, spec_eml_path,
};
use crate::text::{decimal, decimal_string, join_path, path_join};

verus! {

/// Progress tracking, error logging and e-mail storage of one list.
pub struct ArchiveWriter {
    progress: ProgressTracker,
    error_log: ErrorLogger,
    email_store: RawEmailStore,
}

/// A file to write: its path and its whole content.
pub struct FileWrite {
    pub path: String,
    pub content: String,
}

impl ArchiveWriter {
    /// The directory of the list.
    pub closed spec fn spec_list_dir(&self) -> Seq<char> {
        self.email_store.spec_output_path()
    }

    pub closed spec fn spec_progress(&self) -> ProgressTracker {
        self.progress
    }

    pub closed spec fn spec_error_log(&self) -> ErrorLogger {
        self.error_log
    }

    /// Creates the writer of a list: everything goes under
    /// `base_output_path/list_name`.
    pub fn new(base_output_path: &str, list_name: &str) -> (r: Self)
        ensures
            r.spec_list_dir() == path_join(base_output_path@, list_name@),
            r.spec_progress().spec_output_path() == path_join(
                path_join(base_output_path@, list_name@),
                "__progress.yaml"@,
            ),
            r.spec_error_log().spec_output_path() == path_join(
                path_join(base_output_path@, list_name@),
                "__errors.csv"@,
            ),
    {
        let dir = join_path(base_output_path, list_name);
        Self {
            progress: ProgressTracker::new(base_output_path, list_name),
            error_log: ErrorLogger::new(base_output_path, list_name),
            email_store: RawEmailStore::new(dir),
        }
    }

    /// The last processed id (see [`ProgressTracker::last_processed_id`]).
    pub fn last_processed_id(&self, yaml_value: Option<usize>, content: Option<&str>) -> (r: (
        usize,
        bool,
    ))
        ensures
            r.0 as nat == spec_resume(opt_nat(yaml_value), opt_text(content)).0,
            r.1 == spec_resume(opt_nat(yaml_value), opt_text(content)).1,
    {
        self.progress.last_processed_id(yaml_value, content)
    }

    /// The file a fetched e-mail is written to: `{list_dir}/{id}.eml`,
    /// holding the raw lines one after the other.
    pub fn write_email(&self, email_id: usize, lines: &[String]) -> (r: FileWrite)
        ensures
            r.path@ == spec_eml_path(self.spec_list_dir(), decimal(email_id as nat)),
            r.content@ == concat_lines(lines@.map_values(|s: String| s@)),
    {
        let id = decimal_string(email_id as u64);
        FileWrite { path: self.email_store.file_path(id.as_str()), content: concat_strings(lines) }
    }

    /// The progress document recording `id` as processed.
    pub fn update_progress(&self, id: usize) -> (doc: String)
        ensures
            doc@ == spec_progress_document(id as nat),
    {
        self.progress.update(id)
    }

    /// The error log line for an e-mail that could not be fetched.
    pub fn log_error(&self, email_id: usize, error: &str) -> (line: String)
        ensures
            line@ == spec_error_line(decimal(email_id as nat), error@),
    {
        let id = decimal_string(email_id as u64);
        self.error_log.log(id.as_str(), error)
    }

    /// The progress file of the list.
    pub fn progress_path(&self) -> (r: String)
        ensures
            r@ == self.spec_progress().spec_output_path(),
    {
        self.progress.output_path()
    }

    /// The error log file of the list.
    pub fn error_log_path(&self) -> (r: String)
        ensures
            r@ == self.spec_error_log().spec_output_path(),
    {
        self.error_log.output_path()
    }
}

} // verus!
