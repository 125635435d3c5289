//! The protocol versions a status line may name.
use vstd::prelude::*;

use crate::error::RequestError;
use crate::text::same_text;

verus! {

/// A protocol version, as a label only: framing is HTTP/1.x throughout.
#[derive(Debug, Clone, Copy, PartialEq, Eq)]
pub enum HttpVersion {
    Http1_0,
    Http1_1,
    Http2_0,
}

/// The version a status-line token names, if it is one of the three known.
pub open spec fn version_of(token: Seq<char>) -> Option<HttpVersion> {
    if token == "HTTP/1.1"@ {
        Some(HttpVersion::Http1_1)
    } else if token == "HTTP/1.0"@ {
        Some(HttpVersion::Http1_0)
    } else if token == "HTTP/2.0"@ {
        Some(HttpVersion::Http2_0)
    } else {
        None
    }
}

impl HttpVersion {
    pub open spec fn label(&self) -> Seq<char> {
        match self {
            HttpVersion::Http1_0 => "HTTP/1.0"@,
            HttpVersion::Http1_1 => "HTTP/1.1"@,
            HttpVersion::Http2_0 => "HTTP/2.0"@,
        }
    }

    /// The version's label, such as `HTTP/1.1`.
    pub fn as_str(&self) -> (r: &'static str)
        ensures
            r@ == self.label(),
    {
        match self {
            HttpVersion::Http1_0 => "HTTP/1.0",
            HttpVersion::Http1_1 => "HTTP/1.1",
            HttpVersion::Http2_0 => "HTTP/2.0",
        }
    }

    /// The version that `value` names; any other token is unsupported.
    pub fn try_from(value: &str) -> (r: Result<HttpVersion, RequestError>)
        ensures
            match version_of(value@) {
                Some(v) => r == Ok::<HttpVersion, RequestError>(v),
                None => r matches Err(RequestError::UnsupportedVersion(t)) && t@ == value@,
            },
    {
        if same_text(value, "HTTP/1.1") {
            Ok(HttpVersion::Http1_1)
        } else if same_text(value, "HTTP/1.0") {
            Ok(HttpVersion::Http1_0)
        } else if same_text(value, "HTTP/2.0") {
            Ok(HttpVersion::Http2_0)
        } else {
            Err(RequestError::UnsupportedVersion(value.to_owned()))
        }
    }
}

} // verus!
