//! Reading a response: the status line, the header block, then a body framed
//! by `Content-Length` or by the end of the stream.
//!
//! The reader never touches a connection itself. Its driver asks
//! `next_request` what to read, reads it, and hands it back: a line to
//! `feed_line`, bytes to `feed_body` (no bytes meaning the stream ended).
use vstd::prelude::*;

use crate::error::RequestError;
use crate::headers::{key_index, lookup, HeaderEntry, Headers};
use crate::http_version::{version_of, HttpVersion};
use crate::text::{
    bounded_value, chars_of, find_char, find_char_in, parse_bounded, same_text, trim, trim_span,
    word_spans, words,
};

verus! {

/// The most the reader asks for at once.
pub const CHUNK: usize = 8192;

/// Where the reading of a response stands.
#[derive(Debug, Clone, Copy, PartialEq, Eq)]
pub enum ReadState {
    StatusLine,
    Headers,
    BodyPending,
    BodyComplete,
}

/// What the driver reads next.
#[derive(Debug, Clone, Copy, PartialEq, Eq)]
pub enum ReadRequest {
    /// One line, with its line ending; an empty line at the end of the stream.
    Line,
    /// Up to this many bytes; none at the end of the stream.
    UpTo(usize),
    /// Nothing: the response is read.
    Nothing,
}

/// A response and how far it has been read.
pub struct Response {
    pub headers: Headers,
    pub status: u16,
    pub version: HttpVersion,
    pub body: Vec<u8>,
    content_length: Option<u64>,
    content_disposition: Option<String>,
    state: ReadState,
    truncated: bool,
}

/// A response as the reader's contracts see it.
pub struct ResponseModel {
    pub headers: Seq<HeaderEntry>,
    pub status: u16,
    pub version: HttpVersion,
    pub body: Seq<u8>,
    pub length: Option<u64>,
    pub disposition: Option<Seq<char>>,
    pub state: ReadState,
    /// The stream ended before the body reached its declared length.
    pub truncated: bool,
}

impl View for Response {
    type V = ResponseModel;

    closed spec fn view(&self) -> ResponseModel {
        ResponseModel {
            headers: self.headers@,
            status: self.status,
            version: self.version,
            body: self.body@,
            length: self.content_length,
            disposition: match self.content_disposition {
                Some(d) => Some(d@),
                None => None,
            },
            state: self.state,
            truncated: self.truncated,
        }
    }
}

// ---------------------------------------------------------------------------
// The model
// ---------------------------------------------------------------------------

/// The version and status-code fields of a status line.
pub open spec fn status_fields(line: Seq<char>) -> Option<(Seq<char>, Seq<char>)> {
    if words(line).len() >= 2 {
        Some((words(line)[0], words(line)[1]))
    } else {
        None
    }
}

/// The version and status a status line declares, where it is valid.
pub open spec fn status_of(line: Seq<char>) -> Option<(HttpVersion, u16)> {
    match status_fields(line) {
        Some((v, c)) => match (version_of(v), bounded_value(c, 65535)) {
            (Some(ver), Some(code)) => Some((ver, code as u16)),
            _ => None,
        },
        None => None,
    }
}

/// The name and value a header line holds: the text before its first `:`
/// and the text after it, both trimmed; `None` for a line without `:`.
pub open spec fn header_pair(line: Seq<char>) -> Option<HeaderEntry> {
    match find_char(line, ':') {
        Some(k) => Some(
            (trim(line.subrange(0, k)), trim(line.subrange(k + 1, line.len() as int))),
        ),
        None => None,
    }
}

/// `set` on the sequence of entries.
pub open spec fn set_entry(s: Seq<HeaderEntry>, key: Seq<char>, value: Seq<char>) -> Seq<
    HeaderEntry,
> {
    match key_index(s, key) {
        Some(i) => s.update(i, (key, value)),
        None => s.push((key, value)),
    }
}

/// The body length that the `Content-Length` header declares, where it is a
/// number.
pub open spec fn declared_length(h: Seq<HeaderEntry>) -> Option<u64> {
    match lookup(h, "Content-Length"@) {
        Some(v) => match bounded_value(v, u64::MAX as nat) {
            Some(n) => Some(n as u64),
            None => None,
        },
        None => None,
    }
}

/// The state after the header block ends: a declared length of zero leaves
/// no body to read; any other body is pending.
pub open spec fn end_of_head(m: ResponseModel) -> ResponseModel {
    ResponseModel {
        length: declared_length(m.headers),
        disposition: lookup(m.headers, "Content-Disposition"@),
        state: if declared_length(m.headers) == Some(0u64) {
            ReadState::BodyComplete
        } else {
            ReadState::BodyPending
        },
        ..m
    }
}

/// One line of the header block: the blank line ends the block; a line with
/// a `:` records a header, the last of equal names winning; any other line
/// is dropped.
pub open spec fn header_step(m: ResponseModel, line: Seq<char>) -> ResponseModel {
    if line == seq!['\r', '\n'] {
        end_of_head(m)
    } else {
        match header_pair(line) {
            Some((k, v)) => ResponseModel { headers: set_entry(m.headers, k, v), ..m },
            None => m,
        }
    }
}

/// The body length to read exactly: the declared length. Without one the
/// body runs to the end of the stream.
pub open spec fn framed_length(m: ResponseModel) -> Option<nat> {
    match m.length {
        Some(n) => Some(n as nat),
        None => None,
    }
}

pub open spec fn min(a: int, b: int) -> int {
    if a <= b {
        a
    } else {
        b
    }
}

/// What the reader asks for in state `m`.
pub open spec fn read_request(m: ResponseModel) -> ReadRequest {
    match m.state {
        ReadState::StatusLine => ReadRequest::Line,
        ReadState::Headers => ReadRequest::Line,
        ReadState::BodyPending => match framed_length(m) {
            Some(n) => ReadRequest::UpTo(min(CHUNK as int, n - m.body.len()) as usize),
            None => ReadRequest::UpTo(CHUNK),
        },
        ReadState::BodyComplete => ReadRequest::Nothing,
    }
}

/// Bytes read for the body; none means the stream ended. A framed body takes
/// at most what it still lacks and is complete at its declared length; at
/// the end of the stream it is truncated if shorter.
pub open spec fn body_step(m: ResponseModel, data: Seq<u8>) -> ResponseModel {
    if data.len() == 0 {
        ResponseModel {
            state: ReadState::BodyComplete,
            truncated: match framed_length(m) {
                Some(n) => m.body.len() < n,
                None => false,
            },
            ..m
        }
    } else {
        match framed_length(m) {
            Some(n) => {
                let body = m.body + data.subrange(0, min(data.len() as int, n - m.body.len()));
                ResponseModel {
                    body,
                    state: if body.len() >= n {
                        ReadState::BodyComplete
                    } else {
                        ReadState::BodyPending
                    },
                    ..m
                }
            },
            None => ResponseModel { body: m.body + data, ..m },
        }
    }
}

/// The states the reader passes through: no body before the head ends, a
/// pending framed body shorter than its length, and truncation only of a
/// framed body the stream cut short.
pub open spec fn consistent(m: ResponseModel) -> bool {
    &&& (m.state == ReadState::StatusLine || m.state == ReadState::Headers) ==> m.body.len() == 0
    &&& m.state == ReadState::BodyPending ==> match framed_length(m) {
        Some(n) => m.body.len() < n,
        None => true,
    }
    &&& m.truncated ==> m.state == ReadState::BodyComplete && framed_length(m) is Some
        && m.body.len() < framed_length(m)->0
}

// ---------------------------------------------------------------------------
// Laws
// ---------------------------------------------------------------------------

/// Once the body is complete the reader asks for nothing more, so asking for
/// the body again reads nothing.
pub proof fn lemma_complete_reads_nothing(m: ResponseModel)
    requires
        m.state == ReadState::BodyComplete,
    ensures
        read_request(m) == ReadRequest::Nothing,
{
}

/// Handed exactly the declared number of bytes at once, a pending body holds
/// them and is complete and whole.
pub proof fn lemma_exact_body(m: ResponseModel, data: Seq<u8>)
    requires
        m.state == ReadState::BodyPending,
        consistent(m),
        m.body.len() == 0,
        framed_length(m) == Some(data.len()),
    ensures
        body_step(m, data).body == data,
        body_step(m, data).state == ReadState::BodyComplete,
        !body_step(m, data).truncated,
{
    assert(data.subrange(0, data.len() as int) =~= data);
    assert(Seq::<u8>::empty() + data =~= data);
}

/// A stream that ends before a framed body reaches its declared length
/// leaves the body truncated: it is never taken as whole.
pub proof fn lemma_early_end_truncates(m: ResponseModel)
    requires
        m.state == ReadState::BodyPending,
        framed_length(m) is Some,
        m.body.len() < framed_length(m)->0,
    ensures
        body_step(m, Seq::<u8>::empty()).truncated,
        body_step(m, Seq::<u8>::empty()).state == ReadState::BodyComplete,
        body_step(m, Seq::<u8>::empty()).body == m.body,
{
}

/// A declared length of zero completes the response when its head ends:
/// nothing more is read and the body is empty and whole.
pub proof fn lemma_zero_length_complete(m: ResponseModel)
    requires
        m.state == ReadState::Headers,
        consistent(m),
        declared_length(m.headers) == Some(0u64),
    ensures
        end_of_head(m).state == ReadState::BodyComplete,
        read_request(end_of_head(m)) == ReadRequest::Nothing,
        end_of_head(m).body.len() == 0,
        !end_of_head(m).truncated,
        consistent(end_of_head(m)),
{
}

/// The body, once read, never outgrows a declared length.
pub proof fn lemma_body_within_length(m: ResponseModel, data: Seq<u8>)
    requires
        m.state == ReadState::BodyPending,
        consistent(m),
        m.length is Some,
    ensures
        body_step(m, data).body.len() <= m.length->0,
{
}

// ---------------------------------------------------------------------------
// The reader
// ---------------------------------------------------------------------------

impl Response {
    /// A reader waiting for the status line.
    pub fn new() -> (r: Response)
        ensures
            r@.state == ReadState::StatusLine,
            r@.headers.len() == 0,
            r@.body.len() == 0,
            !r@.truncated,
            consistent(r@),
    {
        Response {
            headers: Headers::new(),
            status: 0,
            version: HttpVersion::Http1_1,
            body: Vec::new(),
            content_length: None,
            content_disposition: None,
            state: ReadState::StatusLine,
            truncated: false,
        }
    }

    /// How far reading has come.
    pub fn state(&self) -> (r: ReadState)
        ensures
            r == self@.state,
    {
        self.state
    }

    /// The body length the headers declare.
    pub fn content_length(&self) -> (r: Option<u64>)
        ensures
            r == self@.length,
    {
        self.content_length
    }

    /// The `Content-Disposition` header, captured when the header block ended.
    pub fn content_disposition(&self) -> (r: Option<&String>)
        ensures
            match self@.disposition {
                Some(d) => r matches Some(s) && s@ == d,
                None => r is None,
            },
    {
        match &self.content_disposition {
            Some(d) => Some(d),
            None => None,
        }
    }

    /// What the driver reads next.
    pub fn next_request(&self) -> (r: ReadRequest)
        requires
            consistent(self@),
        ensures
            r == read_request(self@),
    {
        match self.state {
            ReadState::StatusLine => ReadRequest::Line,
            ReadState::Headers => ReadRequest::Line,
            ReadState::BodyPending => match self.content_length {
                Some(n) => {
                    let remaining = n - self.body.len() as u64;
                    if remaining < CHUNK as u64 {
                        ReadRequest::UpTo(remaining as usize)
                    } else {
                        ReadRequest::UpTo(CHUNK)
                    }
                },
                None => ReadRequest::UpTo(CHUNK),
            },
            ReadState::BodyComplete => ReadRequest::Nothing,
        }
    }

    /// Reads a status line: `VERSION CODE [REASON]`.
    pub fn parse_status_line(line: &str) -> (r: Result<(HttpVersion, u16), RequestError>)
        ensures
            match status_fields(line@) {
                None => r matches Err(RequestError::InvalidStatusLine(t)) && t@ == line@,
                Some((v, c)) => match bounded_value(c, 65535) {
                    None => r matches Err(RequestError::InvalidStatusLine(t)) && t@ == line@,
                    Some(code) => match version_of(v) {
                        Some(ver) => r == Ok::<(HttpVersion, u16), RequestError>(
                            (ver, code as u16),
                        ),
                        None => r matches Err(RequestError::UnsupportedVersion(t)) && t@ == v,
                    },
                },
            },
    {
        let cs = chars_of(line);
        let ws = word_spans(&cs, 0, cs.len());
        assert(cs@.subrange(0, cs@.len() as int) =~= line@);
        if ws.len() < 2 {
            return Err(RequestError::InvalidStatusLine(line.to_owned()));
        }
        let code = match parse_bounded(&cs, ws[1].0, ws[1].1, 65535) {
            Some(c) => c as u16,
            None => {
                return Err(RequestError::InvalidStatusLine(line.to_owned()));
            },
        };
        let token = line.substring_char(ws[0].0, ws[0].1);
        let version = HttpVersion::try_from(token)?;
        Ok((version, code))
    }

    /// The name and value of a header line.
    fn header_fields(line: &str) -> (r: Option<(String, String)>)
        ensures
            match header_pair(line@) {
                Some((k, v)) => r matches Some(p) && p.0@ == k && p.1@ == v,
                None => r is None,
            },
    {
        let cs = chars_of(line);
        let n = cs.len();
        match find_char_in(&cs, ':', 0, n) {
            Some(k) => {
                let (a, b) = trim_span(&cs, 0, k);
                let (c, d) = trim_span(&cs, k + 1, n);
                assert(cs@.subrange(0, n as int) =~= line@);
                assert(line@.subrange(0, k as int) =~= cs@.subrange(0, k as int));
                assert(line@.subrange(k + 1, line@.len() as int) =~= cs@.subrange(
                    k + 1,
                    n as int,
                ));
                Some((line.substring_char(a, b).to_owned(), line.substring_char(c, d).to_owned()))
            },
            None => {
                assert(cs@.subrange(0, n as int) =~= line@);
                None
            },
        }
    }

    /// Feeds one line of the response head, with its line ending. An empty
    /// line means the stream ended, which inside the header block is
    /// `IncompleteHead`.
    pub fn feed_line(&mut self, line: &str) -> (r: Result<(), RequestError>)
        requires
            old(self)@.state == ReadState::StatusLine || old(self)@.state == ReadState::Headers,
            consistent(old(self)@),
        ensures
            old(self)@.state == ReadState::StatusLine ==> match status_of(line@) {
                Some((ver, code)) => r is Ok && final(self)@ == (ResponseModel {
                    version: ver,
                    status: code,
                    state: ReadState::Headers,
                    ..old(self)@
                }),
                None => r is Err && final(self)@ == old(self)@,
            },
            old(self)@.state == ReadState::StatusLine ==> (r matches Err(e) ==> (
            match status_fields(line@) {
                Some((v, c)) => (bounded_value(c, 65535) is Some && version_of(v) is None) ==> (
                e matches RequestError::UnsupportedVersion(t) && t@ == v),
                None => e matches RequestError::InvalidStatusLine(t) && t@ == line@,
            })),
            old(self)@.state == ReadState::Headers && line@.len() == 0 ==> r
                == Err::<(), RequestError>(RequestError::IncompleteHead) && final(self)@ == old(
                self,
            )@,
            old(self)@.state == ReadState::Headers && line@.len() > 0 ==> r is Ok && final(self)@
                == header_step(old(self)@, line@),
            consistent(final(self)@),
    {
        match self.state {
            ReadState::StatusLine => {
                let (version, status) = Response::parse_status_line(line)?;
                self.version = version;
                self.status = status;
                self.state = ReadState::Headers;
                Ok(())
            },
            _ => {
                proof {
                    reveal_strlit("\r\n");
                    assert("\r\n"@ =~= seq!['\r', '\n']);
                }
                if line.is_empty() {
                    return Err(RequestError::IncompleteHead);
                }
                if same_text(line, "\r\n") {
                    self.finish_head();
                } else if let Some((key, value)) = Response::header_fields(line) {
                    self.headers.set(key, value);
                }
                Ok(())
            },
        }
    }

    /// Captures the framing headers once the header block has ended.
    fn finish_head(&mut self)
        ensures
            final(self)@ == end_of_head(old(self)@),
    {
        proof {
            reveal_strlit("Content-Length");
        }
        let length = match self.headers.get("Content-Length") {
            Some(v) => {
                let cs = chars_of(v.as_str());
                assert(cs@.subrange(0, cs@.len() as int) =~= v@);
                parse_bounded(&cs, 0, cs.len(), u64::MAX)
            },
            None => None,
        };
        let disposition = match self.headers.get("Content-Disposition") {
            Some(d) => Some(d.clone()),
            None => None,
        };
        let complete = match length {
            Some(n) => n == 0,
            None => false,
        };
        self.content_length = length;
        self.content_disposition = disposition;
        self.state = if complete {
            ReadState::BodyComplete
        } else {
            ReadState::BodyPending
        };
    }

    /// Feeds bytes read for the body; an empty `data` says the stream ended.
    pub fn feed_body(&mut self, data: &[u8])
        requires
            old(self)@.state == ReadState::BodyPending,
            consistent(old(self)@),
        ensures
            final(self)@ == body_step(old(self)@, data@),
            consistent(final(self)@),
    {
        let limit: Option<u64> = self.content_length;
        if data.len() == 0 {
            self.truncated = match limit {
                Some(n) => (self.body.len() as u64) < n,
                None => false,
            };
            self.state = ReadState::BodyComplete;
            return;
        }
        let take = match limit {
            Some(n) => {
                let remaining = n - self.body.len() as u64;
                if (data.len() as u64) < remaining {
                    data.len()
                } else {
                    remaining as usize
                }
            },
            None => data.len(),
        };
        let mut extra: Vec<u8> = Vec::new();
        let mut i: usize = 0;
        while i < take
            invariant
                take <= data@.len(),
                i <= take,
                extra@ == data@.subrange(0, i as int),
            decreases take - i,
        {
            extra.push(data[i]);
            i = i + 1;
            assert(extra@ =~= data@.subrange(0, i as int));
        }
        self.body.append(&mut extra);
        assert(self.body@ == old(self).body@ + data@.subrange(0, take as int));
        assert(take == match framed_length(old(self)@) {
            Some(n) => min(data@.len() as int, n - old(self)@.body.len()),
            None => data@.len() as int,
        });
        assert(data@.subrange(0, data@.len() as int) =~= data@);
        if let Some(n) = limit {
            if self.body.len() as u64 >= n {
                self.state = ReadState::BodyComplete;
            }
        }
    }

    /// The body, once read: the bytes received, or `IncompleteBody` where the
    /// stream ended before the declared length. Reads nothing, so asking
    /// twice gives the same answer.
    pub fn get_body(&self) -> (r: Result<&[u8], RequestError>)
        requires
            self@.state == ReadState::BodyComplete,
            consistent(self@),
        ensures
            !self@.truncated ==> (r matches Ok(b) && b@ == self@.body),
            self@.truncated ==> r == Err::<&[u8], RequestError>(
                RequestError::IncompleteBody {
                    expected: self@.length->0,
                    received: self@.body.len() as u64,
                },
            ),
    {
        if self.truncated {
            Err(
                RequestError::IncompleteBody {
                    expected: match self.content_length {
                        Some(n) => n,
                        None => 0,
                    },
                    received: self.body.len() as u64,
                },
            )
        } else {
            Ok(self.body.as_slice())
        }
    }
}

} // verus!
