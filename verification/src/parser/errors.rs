//! Errors of the parser.
use vstd::prelude::*;

verus! {

/// Errors that occur during configuration loading and deserialization.
#[derive(Debug)]
pub enum ConfigError {
    /// I/O error.
    Io(std::io::Error),
    /// The configuration is invalid.
    Invalid(String),
    /// Any other configuration error.
    Other(String),
}

/// Errors that occur during e-mail parsing.
///
/// These are recoverable when `fail_on_parsing_error` is `false`: the
/// e-mail is skipped and processing continues.
#[derive(Debug)]
pub enum ParseError {
    /// The bytes could not be decoded as an e-mail.
    DecodeError(String),
    /// The header fields could not be read.
    HeaderError(String),
    /// The body could not be read.
    BodyError(String),
    /// A date could not be parsed.
    DateParseError(String),
    /// Patches could not be read.
    PatchError(String),
    /// The e-mail has no `Message-ID`.
    NoMessageId,
    /// I/O error.
    Io(std::io::Error),
}

} // verus!
