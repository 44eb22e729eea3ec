//! Error types for the library's operations.

use vstd::prelude::*;

verus! {

/// An error raised by a library operation.
///
/// Every variant carries a human-readable description of what went wrong.
#[derive(Debug)]
pub enum Error {
    /// A filesystem-level problem (a path that cannot be used).
    FileSystem(String),
    /// An invalid input or parameter (a malformed size string).
    InvalidInput(String),
    /// A resource that was asked for does not exist.
    NotFound(String),
    /// An operation was refused for lack of permission.
    PermissionDenied(String),
    /// An operation this build does not support.
    NotSupported(String),
    /// An unexpected internal failure.
    Internal(String),
    /// An I/O failure reported by the surrounding program.
    Io(String),
}

/// The text that [`Error::message`] produces: a fixed prefix naming the
/// variant, followed by the carried description.
pub open spec fn error_message(e: &Error) -> Seq<char> {
    match e {
        Error::FileSystem(m) => "File system error: "@ + m@,
        Error::InvalidInput(m) => "Invalid input: "@ + m@,
        Error::NotFound(m) => "Resource not found: "@ + m@,
        Error::PermissionDenied(m) => "Permission denied: "@ + m@,
        Error::NotSupported(m) => "Operation not supported: "@ + m@,
        Error::Internal(m) => "Internal error: "@ + m@,
        Error::Io(m) => "IO error: "@ + m@,
    }
}

impl Error {
    /// Render the error as a single line of text.
    pub fn message(&self) -> (r: String)
        ensures
            r@ == error_message(self),
    {
        match self {
            Error::FileSystem(m) => {
                let mut s = "File system error: ".to_owned();
                s.append(m.as_str());
                s
            },
            Error::InvalidInput(m) => {
                let mut s = "Invalid input: ".to_owned();
                s.append(m.as_str());
                s
            },
            Error::NotFound(m) => {
                let mut s = "Resource not found: ".to_owned();
                s.append(m.as_str());
                s
            },
            Error::PermissionDenied(m) => {
                let mut s = "Permission denied: ".to_owned();
                s.append(m.as_str());
                s
            },
            Error::NotSupported(m) => {
                let mut s = "Operation not supported: ".to_owned();
                s.append(m.as_str());
                s
            },
            Error::Internal(m) => {
                let mut s = "Internal error: ".to_owned();
                s.append(m.as_str());
                s
            },
            Error::Io(m) => {
                let mut s = "IO error: ".to_owned();
                s.append(m.as_str());
                s
            },
        }
    }

    /// Whether this error is the `NotFound` variant.
    pub fn is_not_found(&self) -> (r: bool)
        ensures
            r == matches!(self, Error::NotFound(_)),
    {
        match self {
            Error::NotFound(_) => true,
            _ => false,
        }
    }
}

} // verus!
