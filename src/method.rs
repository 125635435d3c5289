//! Request methods.
use vstd::prelude::*;

verus! {

/// An HTTP request method.
#[derive(Debug, Clone, Copy, PartialEq, Eq, PartialOrd, Ord)]
pub enum Method {
    GET,
    POST,
    PUT,
    DELETE,
    PATCH,
    HEAD,
    OPTIONS,
    CONNECT,
    TRACE,
}

impl Method {
    pub open spec fn name(&self) -> Seq<char> {
        match self {
            Method::GET => "GET"@,
            Method::POST => "POST"@,
            Method::PUT => "PUT"@,
            Method::DELETE => "DELETE"@,
            Method::PATCH => "PATCH"@,
            Method::HEAD => "HEAD"@,
            Method::OPTIONS => "OPTIONS"@,
            Method::CONNECT => "CONNECT"@,
            Method::TRACE => "TRACE"@,
        }
    }

    /// The method's name as it opens a request line.
    pub fn as_str(&self) -> (r: &'static str)
        ensures
            r@ == self.name(),
    {
        match self {
            Method::GET => "GET",
            Method::POST => "POST",
            Method::PUT => "PUT",
            Method::DELETE => "DELETE",
            Method::PATCH => "PATCH",
            Method::HEAD => "HEAD",
            Method::OPTIONS => "OPTIONS",
            Method::CONNECT => "CONNECT",
            Method::TRACE => "TRACE",
        }
    }

    /// The method's name, owned.
    pub fn to_string(&self) -> (r: String)
        ensures
            r@ == self.name(),
    {
        self.as_str().to_owned()
    }
}

} // verus!
