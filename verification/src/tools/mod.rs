//! The logic of the companion command line tools: `check_nntp`, which
//! browses an NNTP server and writes archiver configuration, and
//! `check_git`, which browses public-inbox repositories.
pub mod check_git;
pub mod check_nntp;
pub mod display;
