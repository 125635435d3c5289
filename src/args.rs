//! The command line's options, as plain values.
use vstd::prelude::*;

use crate::method::Method;
use crate::text::{chars_of, split_seq, split_spans};

verus! {

/// What the command line asks for.
#[derive(Debug, Clone)]
pub struct Cli {
    /// The request method.
    pub x: Method,
    /// The URL to request.
    pub url: String,
    /// A file to write the body to.
    pub out: Option<String>,
    /// Whether to log in detail.
    pub verbose: bool,
    /// Extra headers, each `name:value`.
    pub headers: Vec<String>,
    /// A request body.
    pub data: Option<String>,
    /// The connect timeout, in seconds.
    pub timeout: Option<u64>,
    /// The most attempts the caller may make.
    pub retry: u64,
    /// Seconds between attempts.
    pub interval: u64,
}

/// A `name:value` header argument: exactly one `:`, the text on either side
/// taken as it stands.
pub open spec fn header_arg_parts(arg: Seq<char>) -> Option<(Seq<char>, Seq<char>)> {
    let parts = split_seq(arg, ':');
    if parts.len() == 2 {
        Some((parts[0], parts[1]))
    } else {
        None
    }
}

/// Splits a `name:value` header argument; `None` unless it holds exactly
/// one `:`.
pub fn header_arg(arg: &str) -> (r: Option<(String, String)>)
    ensures
        match header_arg_parts(arg@) {
            Some((k, v)) => r matches Some(p) && p.0@ == k && p.1@ == v,
            None => r is None,
        },
{
    let cs = chars_of(arg);
    let parts = split_spans(&cs, 0, cs.len(), ':');
    assert(cs@.subrange(0, cs@.len() as int) =~= arg@);
    if parts.len() != 2 {
        return None;
    }
    let name = arg.substring_char(parts[0].0, parts[0].1).to_owned();
    let value = arg.substring_char(parts[1].0, parts[1].1).to_owned();
    Some((name, value))
}

} // verus!
