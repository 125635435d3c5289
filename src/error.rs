//! Errors of the HTTP side of the library.
use vstd::prelude::*;

verus! {

/// Why an HTTP exchange failed.
#[derive(Debug, Clone, PartialEq, Eq)]
pub enum RequestError {
    /// The status line named a version other than `HTTP/1.0`, `HTTP/1.1`
    /// or `HTTP/2.0`; holds that token.
    UnsupportedVersion(String),
    /// The status line lacked a version or a status code, or the code is
    /// not a 16-bit unsigned number; holds the line.
    InvalidStatusLine(String),
    /// The URL's port is not a 16-bit unsigned number; holds the URL.
    InvalidUrl(String),
    /// The stream ended inside the header block.
    IncompleteHead,
    /// The stream ended before the body reached its declared length.
    IncompleteBody { expected: u64, received: u64 },
    /// A read or write on the connection failed.
    Io(String),
    /// Any other failure, described.
    Other(String),
    /// The request could not be written to the connection.
    SendRquestError(String),
}

/// Failures of the command-line tool around the library.
#[derive(Debug, Clone, PartialEq, Eq)]
pub enum RcurlError {
    IoError(String),
}

} // verus!
