//! Public-inbox source: e-mail archives kept as git repositories, either a
//! single repository (V1) or one repository per epoch (V2).
//!
//! E-mails of a V2 inbox get sequential ids that also name their epoch and
//! commit: `{10-digit-number}-e{epoch}-{7-char-short-sha}` (for example
//! `0000000001-e1-d3ed66e`).
pub mod pi_config;
pub mod pi_layout;
pub mod pi_lister;
pub mod pi_utils;
pub mod pi_worker;
