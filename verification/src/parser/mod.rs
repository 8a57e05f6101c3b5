//! The parser: turns archived e-mails into records of header fields, body,
//! trailers and patches.
pub mod config;
pub mod entities;
pub mod errors;
pub mod matching;
pub mod extractors;
pub mod date_parser;
pub mod email_reader;
pub mod parser;
pub mod dataset;
