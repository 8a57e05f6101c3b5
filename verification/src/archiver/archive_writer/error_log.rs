//! Error log of the e-mails that could not be fetched:
//! `{base_output_path}/{list_name}/__errors.csv`, one `{email_id},{error}`
//! line per failure.
use vstd::prelude::*;
use crate::text::{join_path, path_join, push_char, push_str};

verus! {

/// The error log of one mailing list.
pub struct ErrorLogger {
    output_path: String,
}

/// The line logged for a failed e-mail.
pub open spec fn spec_error_line(email_id: Seq<char>, error: Seq<char>) -> Seq<char> {
    email_id + seq![','] + error
}

impl ErrorLogger {
    /// The path of the log file.
    pub closed spec fn spec_output_path(&self) -> Seq<char> {
        self.output_path@
    }

    /// Creates the error log of a list: `base_path/list_name/__errors.csv`.
    pub fn new(base_path: &str, list_name: &str) -> (r: Self)
        ensures
            r.spec_output_path() == path_join(path_join(base_path@, list_name@), "__errors.csv"@),
    {
        let dir = join_path(base_path, list_name);
        Self { output_path: join_path(dir.as_str(), "__errors.csv") }
    }

    /// The path of the log file.
    pub fn output_path(&self) -> (r: String)
        ensures
            r@ == self.spec_output_path(),
    {
        self.output_path.clone()
    }

    /// The line to append to the log for an e-mail that could not be
    /// fetched: `{email_id},{error}`. A failure to append is not fatal.
    pub fn log(&self, email_id: &str, error: &str) -> (line: String)
        ensures
            line@ == spec_error_line(email_id@, error@),
    {
        let mut line = email_id.to_owned();
        push_char(&mut line, ',');
        push_str(&mut line, error);
        line
    }
}

} // verus!
