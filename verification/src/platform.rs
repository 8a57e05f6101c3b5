//! The few standard-library items whose behaviour the crate takes on trust:
//! I/O errors and questions about the file system.
use vstd::prelude::*;

verus! {

/// `std::io::Error`, carried through unchanged.
#[verifier::external_type_specification]
#[verifier::external_body]
pub struct ExIoError(std::io::Error);

/// The kinds of I/O error this crate raises itself.
#[derive(Debug, Clone, Copy, PartialEq, Eq, Structural)]
pub enum IoErrorKind {
    NotFound,
    InvalidInput,
}

/// `std::io::Error::new`: an I/O error of the given kind carrying `message`.
/// Nothing is claimed of the value; it is only carried to the caller.
#[verifier::external_body]
pub(crate) fn io_error(kind: IoErrorKind, message: String) -> std::io::Error {
    let kind = match kind {
        IoErrorKind::NotFound => std::io::ErrorKind::NotFound,
        IoErrorKind::InvalidInput => std::io::ErrorKind::InvalidInput,
    };
    std::io::Error::new(kind, message)
}

/// `std::path::Path::exists`. The answer depends on the file system at the
/// time of the call, so nothing is claimed of it.
#[verifier::external_body]
pub(crate) fn path_exists(path: &str) -> bool {
    std::path::Path::new(path).exists()
}

/// `std::path::Path::is_dir`. The answer depends on the file system at the
/// time of the call, so nothing is claimed of it.
#[verifier::external_body]
pub(crate) fn path_is_dir(path: &str) -> bool {
    std::path::Path::new(path).is_dir()
}

/// `std::path::Path::is_file`. The answer depends on the file system at the
/// time of the call, so nothing is claimed of it.
#[verifier::external_body]
pub(crate) fn path_is_file(path: &str) -> bool {
    std::path::Path::new(path).is_file()
}

} // verus!
