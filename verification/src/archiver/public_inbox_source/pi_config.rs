//! Configuration of the public-inbox source.
use vstd::prelude::*;
use crate::archiver::errors::ConfigError;
use crate::platform::{IoErrorKind, io_error, path_exists, path_is_dir};
use crate::text::push_str;

verus! {

/// Configuration of a public-inbox source.
#[derive(Debug, Clone, Default)]
pub struct PIConfig {
    /// Directory holding the public-inbox directories.
    pub import_directory: String,
    /// The origin of the public inbox (a base URL or identifier).
    pub origin: String,
    /// Optional public-inbox config file listing the inboxes.
    pub public_inbox_config: Option<String>,
    /// Optional selection of e-mails, as comma separated numbers or
    /// `low-high` ranges. E-mail numbers start at 1.
    pub email_range: Option<String>,
}

/// What validation answers for an import directory that is given, once the
/// file system has said whether it exists and whether it is a directory:
/// an I/O error when it is missing or no directory (checked in that
/// order), else `MissingHostname` when the origin is empty, else `Ok`.
pub fn check_import_dir(import_directory: &str, origin: &str, exists: bool, is_dir: bool) -> (r: Result<(), ConfigError>)
    ensures
        !exists ==> r matches Err(ConfigError::Io(_)),
        exists && !is_dir ==> r matches Err(ConfigError::Io(_)),
        exists && is_dir ==> (r is Ok <==> origin@.len() > 0),
        exists && is_dir ==> (r matches Err(ConfigError::MissingHostname) <==> origin@.len() == 0),
{
    if !exists {
        let mut msg = String::from_str("Import directory does not exist: ");
        push_str(&mut msg, import_directory);
        return Err(ConfigError::Io(io_error(IoErrorKind::NotFound, msg)));
    }
    if !is_dir {
        let mut msg = String::from_str("Import directory is not a directory: ");
        push_str(&mut msg, import_directory);
        return Err(ConfigError::Io(io_error(IoErrorKind::InvalidInput, msg)));
    }
    if origin.is_empty() {
        return Err(ConfigError::MissingHostname);
    }
    Ok(())
}

impl PIConfig {
    /// Validates the configuration: the import directory must be given and
    /// be an existing directory, and the origin must be given. An empty
    /// import directory or origin gives `MissingHostname`; a directory that
    /// does not exist or is no directory gives an I/O error. The checks run
    /// in that order and the first that fails gives the error.
    ///
    /// Whether the directory exists is a question to the file system; what
    /// follows from each answer is [`check_import_dir`].
    pub fn validate(&self) -> (r: Result<(), ConfigError>)
        ensures
            self.import_directory@.len() == 0 ==> r matches Err(ConfigError::MissingHostname),
            self.import_directory@.len() > 0 ==> match r {
                Ok(()) => self.origin@.len() > 0,
                Err(ConfigError::Io(_)) => true,
                Err(ConfigError::MissingHostname) => self.origin@.len() == 0,
                Err(_) => false,
            },
    {
        if self.import_directory.as_str().is_empty() {
            return Err(ConfigError::MissingHostname);
        }
        let dir = self.import_directory.as_str();
        let exists = path_exists(dir);
        let is_dir = if exists {
            path_is_dir(dir)
        } else {
            false
        };
        check_import_dir(dir, self.origin.as_str(), exists, is_dir)
    }
}

} // verus!
