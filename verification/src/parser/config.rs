//! Configuration of the parser.
use vstd::prelude::*;

verus! {

/// Command line options of the parser.
#[derive(Debug, Default)]
pub struct Opts {
    /// Glob pattern of the configuration files (`parser_config*` by default).
    pub config_file: String,
}

/// Configuration of the parser.
#[derive(Debug, Clone)]
pub struct AppConfig {
    /// Number of worker threads.
    pub nthreads: u8,
    /// Directory holding one directory of archived e-mails per list.
    pub input_dir_path: String,
    /// Directory the records are written to.
    pub output_dir_path: String,
    /// Whether a parsing error stops the run.
    pub fail_on_parsing_error: bool,
    /// The lists to parse; all lists of the input directory when absent.
    pub lists_to_parse: Option<Vec<String>>,
}

} // verus!
