//! The error kinds the pipeline and the serving path surface, and their
//! mapping to HTTP status codes.
use vstd::prelude::*;
use vstd::string::*;

verus! {

/// Everything that can go wrong in ingestion or file serving: a missing file
/// or record, a path escaping the configured root, a mask filename with no
/// recoverable source-frame name, a persistence failure, or a directory or
/// file listing failure.
#[derive(Clone, Copy, Debug, PartialEq, Eq, Structural)]
pub enum AppError {
    NotFound,
    InvalidPath,
    AmbiguousOrigin,
    StorageError,
    FilesystemError,
}

impl AppError {
    /// The HTTP status an endpoint answers with for this error: 404 for a
    /// missing file or record, 400 for a rejected path, 500 for everything
    /// else.
    pub fn http_status(&self) -> (code: u16)
        ensures
            code == self.spec_http_status(),
    {
        match self {
            AppError::NotFound => 404,
            AppError::InvalidPath => 400,
            AppError::AmbiguousOrigin => 500,
            AppError::StorageError => 500,
            AppError::FilesystemError => 500,
        }
    }

    pub open spec fn spec_http_status(&self) -> u16 {
        match self {
            AppError::NotFound => 404u16,
            AppError::InvalidPath => 400u16,
            AppError::AmbiguousOrigin => 500u16,
            AppError::StorageError => 500u16,
            AppError::FilesystemError => 500u16,
        }
    }

    /// A human-readable description, for logs and HTTP bodies.
    pub fn message(&self) -> (m: String)
        ensures
            m@ == self.spec_message(),
    {
        match self {
            AppError::NotFound => String::from_str("Not found"),
            AppError::InvalidPath => String::from_str("Invalid file path"),
            AppError::AmbiguousOrigin => String::from_str(
                "Could not determine original image for mask",
            ),
            AppError::StorageError => String::from_str("Database error"),
            AppError::FilesystemError => String::from_str("I/O error"),
        }
    }

    pub open spec fn spec_message(&self) -> Seq<char> {
        match self {
            AppError::NotFound => "Not found"@,
            AppError::InvalidPath => "Invalid file path"@,
            AppError::AmbiguousOrigin => "Could not determine original image for mask"@,
            AppError::StorageError => "Database error"@,
            AppError::FilesystemError => "I/O error"@,
        }
    }
}

} // verus!
