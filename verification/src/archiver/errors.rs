//! Configuration errors of the archiver.
use vstd::prelude::*;

verus! {

/// Configuration-related errors: loading, validation and list selection.
#[derive(Debug)]
pub enum ConfigError {
    /// NNTP hostname not configured.
    MissingHostname,
    /// The user selected no mailing list.
    ListSelectionEmpty,
    /// No run mode is configured.
    RunModeInvalid,
    /// Some configured lists do not exist on the server.
    ConfiguredListsNotAvailable { unavailable_lists: Vec<String> },
    /// None of the configured lists exist on the server.
    AllListsUnavailable,
    /// I/O error during configuration handling.
    Io(std::io::Error),
}

} // verus!
