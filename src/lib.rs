//! A small HTTP/1.1 client core: URL decomposition, an insertion-ordered
//! header map, request serialisation, response framing, and a DNS codec
//! with a hosts-file override.
use vstd::prelude::*;

pub mod args;
pub mod dns;
pub mod error;
pub mod headers;
pub mod http_version;
pub mod method;
pub mod request;
pub mod response;
pub mod text;
pub mod url;

pub use args::Cli;
pub use dns::{DnsError, Ipv4, Resolution, ResolveAction};
pub use error::{RcurlError, RequestError};
pub use headers::{HeaderKey, Headers};
pub use http_version::HttpVersion;
pub use method::Method;
pub use request::Request;
pub use response::{ReadRequest, ReadState, Response};
pub use url::Url;

verus! {

} // verus!
