//! NNTP (Network News Transfer Protocol) source: its configuration, the
//! address of the server, and the outcome of reading one group.
pub mod nntp_config;
pub mod nntp_utils;
pub mod nntp_worker;
