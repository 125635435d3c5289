//! URLs of the form `scheme://host[:port][/path][?query]`.
use vstd::prelude::*;
use vstd::string::StrSliceExecFns;

use crate::error::RequestError;
use crate::text::{
    bounded_value, chars_of, decimal, decimal_string, find_char, find_char_in, find_scheme_end,
    find_seq, is_digit, lemma_decimal, lemma_decimal_round_trip, lemma_find_char_at,
    lemma_find_char_none, lemma_find_seq, lemma_find_seq_at, occurs_at, parse_bounded,
};

verus! {

/// The port assumed when a URL names none.
pub const DEFAULT_PORT: u16 = 80;

/// A URL split into its parts.
#[derive(Clone, Debug)]
pub struct Url {
    pub scheme: String,
    pub host: String,
    pub port: Option<u16>,
    pub path: String,
    pub query: Option<String>,
}

/// The parts of a URL as character sequences.
pub struct UrlView {
    pub scheme: Seq<char>,
    pub host: Seq<char>,
    pub port: Option<u16>,
    pub path: Seq<char>,
    pub query: Option<Seq<char>>,
}

pub open spec fn text_of(o: Option<String>) -> Option<Seq<char>> {
    match o {
        Some(s) => Some(s@),
        None => None,
    }
}

impl View for Url {
    type V = UrlView;

    open spec fn view(&self) -> UrlView {
        UrlView {
            scheme: self.scheme@,
            host: self.host@,
            port: self.port,
            path: self.path@,
            query: text_of(self.query),
        }
    }
}

pub open spec fn scheme_sep() -> Seq<char> {
    seq![':', '/', '/']
}

/// A text cut into scheme, authority (`host[:port]`) and the rest
/// (`path[?query]`): the scheme ends at the first `://`, the authority at the
/// first `/` after it; without `://` the whole text is the authority.
pub open spec fn url_sections(s: Seq<char>) -> (Seq<char>, Seq<char>, Seq<char>) {
    match find_seq(s, scheme_sep()) {
        Some(i) => {
            let rest = s.subrange(i + 3, s.len() as int);
            match find_char(rest, '/') {
                Some(j) => (
                    s.subrange(0, i),
                    rest.subrange(0, j),
                    rest.subrange(j, rest.len() as int),
                ),
                None => (s.subrange(0, i), rest, Seq::<char>::empty()),
            }
        },
        None => (Seq::<char>::empty(), s, Seq::<char>::empty()),
    }
}

/// What a text means as a URL; `None` where the text after the first `:` of
/// the authority is not a 16-bit unsigned number.
pub open spec fn parse_url(s: Seq<char>) -> Option<UrlView> {
    let (scheme, authority, tail) = url_sections(s);
    let (path, query) = match find_char(tail, '?') {
        Some(k) => (tail.subrange(0, k), Some(tail.subrange(k + 1, tail.len() as int))),
        None => (tail, None),
    };
    match find_char(authority, ':') {
        Some(k) => match bounded_value(authority.subrange(k + 1, authority.len() as int), 65535) {
            Some(p) => Some(
                UrlView { scheme, host: authority.subrange(0, k), port: Some(p as u16), path, query },
            ),
            None => None,
        },
        None => Some(UrlView { scheme, host: authority, port: None, path, query }),
    }
}

pub open spec fn port_text(port: Option<u16>) -> Seq<char> {
    match port {
        Some(p) => seq![':'] + decimal(p as nat),
        None => Seq::<char>::empty(),
    }
}

pub open spec fn query_text(query: Option<Seq<char>>) -> Seq<char> {
    match query {
        Some(q) => seq!['?'] + q,
        None => Seq::<char>::empty(),
    }
}

/// `scheme://host[:port]path[?query]`.
pub open spec fn render_url(u: UrlView) -> Seq<char> {
    u.scheme + scheme_sep() + u.host + port_text(u.port) + u.path + query_text(u.query)
}

/// The origin-form request target: the path, `/` when it is empty, then
/// `?query` when there is one.
pub open spec fn request_target(u: UrlView) -> Seq<char> {
    (if u.path.len() == 0 {
        seq!['/']
    } else {
        u.path
    }) + query_text(u.query)
}

/// `host:port`, with port 80 when the URL names none.
pub open spec fn address(u: UrlView) -> Seq<char> {
    u.host + seq![':'] + decimal(
        match u.port {
            Some(p) => p as nat,
            None => DEFAULT_PORT as nat,
        },
    )
}

/// The URLs that rendering and parsing carry over unchanged: a scheme
/// without `://`, a host without `/` or `:`, a path that is empty or starts
/// with `/` and holds no `?`, and a query only after a non-empty path.
pub open spec fn well_formed(u: UrlView) -> bool {
    &&& forall|i: int| !occurs_at(u.scheme, scheme_sep(), i)
    &&& forall|i: int| 0 <= i < u.host.len() ==> u.host[i] != '/' && u.host[i] != ':'
    &&& u.path.len() == 0 || u.path[0] == '/'
    &&& forall|i: int| 0 <= i < u.path.len() ==> u.path[i] != '?'
    &&& u.query is Some ==> u.path.len() > 0
}

/// Where the scheme of a rendered URL ends, and what follows it.
proof fn lemma_rendered_scheme(u: UrlView)
    requires
        well_formed(u),
    ensures
        find_seq(render_url(u), scheme_sep()) == Some(u.scheme.len() as int),
        render_url(u).subrange(0, u.scheme.len() as int) == u.scheme,
        render_url(u).subrange(u.scheme.len() as int + 3, render_url(u).len() as int) == u.host
            + port_text(u.port) + u.path + query_text(u.query),
{
    let s = render_url(u);
    let sep = scheme_sep();
    let i = u.scheme.len() as int;
    let rest = u.host + port_text(u.port) + u.path + query_text(u.query);
    assert(s =~= u.scheme + (sep + rest));
    assert(occurs_at(s, sep, i)) by {
        assert(s.subrange(i, i + 3) =~= sep);
    }
    assert forall|j: int| 0 <= j < i implies !occurs_at(s, sep, j) by {
        if occurs_at(s, sep, j) {
            let w = s.subrange(j, j + 3);
            if j + 3 <= i {
                assert(u.scheme.subrange(j, j + 3) =~= w);
                assert(occurs_at(u.scheme, sep, j));
            } else if j == i - 1 {
                assert(w[1] == s[i]);
                assert(s[i] == ':');
            } else {
                assert(w[2] == s[i]);
                assert(s[i] == ':');
            }
        }
    }
    lemma_find_seq_at(s, sep, i);
    assert(s.subrange(0, i) =~= u.scheme);
    assert(s.subrange(i + 3, s.len() as int) =~= rest);
}

/// The authority of a well-formed URL holds no `/`, and a `:` only where
/// its port begins.
proof fn lemma_rendered_authority(u: UrlView)
    requires
        well_formed(u),
    ensures
        forall|j: int|
            0 <= j < (u.host + port_text(u.port)).len() ==> (u.host + port_text(u.port))[j]
                != '/',
        find_char(u.host + port_text(u.port), ':') == (match u.port {
            Some(p) => Some(u.host.len() as int),
            None => None::<int>,
        }),
{
    let authority = u.host + port_text(u.port);
    match u.port {
        Some(p) => {
            let d = decimal(p as nat);
            lemma_decimal(p as nat);
            assert(authority =~= u.host + (seq![':'] + d));
            assert forall|j: int| 0 <= j < authority.len() implies authority[j] != '/' && (j
                < u.host.len() ==> authority[j] != ':') by {
                if j > u.host.len() {
                    assert(authority[j] == d[j - u.host.len() - 1]);
                    assert(is_digit(d[j - u.host.len() - 1]));
                }
            }
            lemma_find_char_at(authority, ':', u.host.len() as int);
        },
        None => {
            assert(authority =~= u.host);
            lemma_find_char_none(authority, ':');
        },
    }
}

/// Parsing a rendered well-formed URL gives back its scheme, host, port, path
/// and query.
pub proof fn lemma_url_round_trip(u: UrlView)
    requires
        well_formed(u),
    ensures
        parse_url(render_url(u)) == Some(u),
{
    let s = render_url(u);
    let authority = u.host + port_text(u.port);
    let tail = u.path + query_text(u.query);
    lemma_rendered_scheme(u);
    lemma_rendered_authority(u);
    let rest = s.subrange(u.scheme.len() as int + 3, s.len() as int);
    assert(rest =~= authority + tail);
    if u.path.len() > 0 {
        lemma_find_char_at(rest, '/', authority.len() as int);
        assert(rest.subrange(0, authority.len() as int) =~= authority);
        assert(rest.subrange(authority.len() as int, rest.len() as int) =~= tail);
    } else {
        assert(tail =~= Seq::<char>::empty());
        assert(rest =~= authority);
        lemma_find_char_none(rest, '/');
    }
    assert(url_sections(s) == (u.scheme, authority, tail));
    match u.query {
        Some(q) => {
            lemma_find_char_at(tail, '?', u.path.len() as int);
            assert(tail.subrange(0, u.path.len() as int) =~= u.path);
            assert(tail.subrange(u.path.len() as int + 1, tail.len() as int) =~= q);
        },
        None => {
            assert(tail =~= u.path);
            lemma_find_char_none(tail, '?');
        },
    }
    match u.port {
        Some(p) => {
            assert(authority.subrange(0, u.host.len() as int) =~= u.host);
            assert(authority.subrange(u.host.len() as int + 1, authority.len() as int) =~= decimal(
                p as nat,
            ));
            lemma_decimal_round_trip(p as nat);
        },
        None => {
            assert(authority =~= u.host);
        },
    }
}

/// Parsing the text of a well-formed URL and rendering the result gives the
/// same text back.
pub proof fn lemma_render_parse_identity(u: UrlView)
    requires
        well_formed(u),
    ensures
        parse_url(render_url(u)) matches Some(v) && render_url(v) == render_url(u),
{
    lemma_url_round_trip(u);
}

/// A URL with an empty path asks for `/`, followed by its query if any.
pub proof fn lemma_empty_path_target(u: UrlView)
    requires
        u.path.len() == 0,
    ensures
        request_target(u) == seq!['/'] + query_text(u.query),
        u.query is None ==> request_target(u) == seq!['/'],
{
    assert(seq!['/'] + Seq::<char>::empty() =~= seq!['/']);
}

impl Url {
    /// Splits `value` into its parts. Fails only where the authority holds
    /// a `:` followed by something other than a 16-bit unsigned number.
    pub fn parse(value: &str) -> (r: Result<Url, RequestError>)
        ensures
            match parse_url(value@) {
                Some(u) => r matches Ok(url) && url@ == u,
                None => r matches Err(RequestError::InvalidUrl(t)) && t@ == value@,
            },
    {
        let cs = chars_of(value);
        let n = cs.len();
        let ghost s = value@;
        let ghost sections = url_sections(s);
        let scheme: String;
        let a0: usize;
        let a1: usize;
        match find_scheme_end(&cs) {
            Some(i) => {
                proof {
                    lemma_find_seq(s, scheme_sep());
                }
                scheme = value.substring_char(0, i).to_owned();
                a0 = i + 3;
                match find_char_in(&cs, '/', a0, n) {
                    Some(j) => {
                        a1 = j;
                        proof {
                            let rest = s.subrange(a0 as int, n as int);
                            assert(rest.subrange(0, j - a0) =~= s.subrange(a0 as int, j as int));
                            assert(rest.subrange(j - a0, rest.len() as int) =~= s.subrange(
                                j as int,
                                n as int,
                            ));
                            assert(find_char(rest, '/') == Some(j - a0));
                            assert(sections.1 == s.subrange(a0 as int, a1 as int));
                            assert(sections.2 == s.subrange(a1 as int, n as int));
                        }
                    },
                    None => {
                        a1 = n;
                        assert(s.subrange(n as int, n as int) =~= Seq::<char>::empty());
                        assert(sections.1 == s.subrange(a0 as int, a1 as int));
                        assert(sections.2 == s.subrange(a1 as int, n as int));
                    },
                }
            },
            None => {
                scheme = String::new();
                a0 = 0;
                a1 = n;
                assert(s.subrange(0, n as int) =~= s);
                assert(s.subrange(n as int, n as int) =~= Seq::<char>::empty());
                assert(sections.1 == s.subrange(a0 as int, a1 as int));
            },
        }
        assert(sections.0 == scheme@);
        let ghost authority = sections.1;
        let ghost tail = sections.2;
        let host: String;
        let port: Option<u16>;
        match find_char_in(&cs, ':', a0, a1) {
            Some(k) => {
                assert(authority.subrange(k - a0 + 1, authority.len() as int) =~= s.subrange(
                    k + 1,
                    a1 as int,
                ));
                assert(authority.subrange(0, k - a0) =~= s.subrange(a0 as int, k as int));
                match parse_bounded(&cs, k + 1, a1, 65535) {
                    Some(p) => {
                        host = value.substring_char(a0, k).to_owned();
                        port = Some(p as u16);
                    },
                    None => {
                        return Err(RequestError::InvalidUrl(value.to_owned()));
                    },
                }
            },
            None => {
                host = value.substring_char(a0, a1).to_owned();
                port = None;
            },
        }
        let path: String;
        let query: Option<String>;
        match find_char_in(&cs, '?', a1, n) {
            Some(m) => {
                assert(tail.subrange(0, m - a1) =~= s.subrange(a1 as int, m as int));
                assert(tail.subrange(m - a1 + 1, tail.len() as int) =~= s.subrange(
                    m + 1,
                    n as int,
                ));
                path = value.substring_char(a1, m).to_owned();
                query = Some(value.substring_char(m + 1, n).to_owned());
            },
            None => {
                path = value.substring_char(a1, n).to_owned();
                query = None;
            },
        }
        let url = Url { scheme, host, port, path, query };
        assert(url@ == parse_url(s)->Some_0);
        Ok(url)
    }

    /// The port to connect to: the URL's, or 80 where it names none.
    pub fn port_or_default(&self) -> (r: u16)
        ensures
            r == (match self.port {
                Some(p) => p,
                None => DEFAULT_PORT,
            }),
    {
        match self.port {
            Some(p) => p,
            None => DEFAULT_PORT,
        }
    }

    /// `host:port`, with port 80 where the URL names none.
    pub fn addr(&self) -> (r: String)
        ensures
            r@ == address(self@),
    {
        let mut addr = self.host.clone();
        addr.append(":");
        let port = match self.port {
            Some(p) => p,
            None => DEFAULT_PORT,
        };
        let digits = decimal_string(port as u64);
        addr.append(digits.as_str());
        proof {
            reveal_strlit(":");
        }
        addr
    }

    /// The request target: the path (`/` when empty), then `?query` when
    /// there is one.
    pub fn get_path(&self) -> (r: String)
        ensures
            r@ == request_target(self@),
    {
        let mut res = if self.path.as_str().unicode_len() == 0 {
            proof {
                reveal_strlit("/");
            }
            "/".to_owned()
        } else {
            self.path.clone()
        };
        if let Some(q) = &self.query {
            proof {
                reveal_strlit("?");
            }
            res.append("?");
            res.append(q.as_str());
        }
        proof {
            assert(query_text(self@.query) =~= match self.query {
                Some(q) => seq!['?'] + q@,
                None => Seq::<char>::empty(),
            });
        }
        res
    }

    /// `scheme://host[:port]path[?query]`.
    pub fn to_string(&self) -> (r: String)
        ensures
            r@ == render_url(self@),
    {
        let mut url = self.scheme.clone();
        proof {
            reveal_strlit("://");
            reveal_strlit(":");
            reveal_strlit("?");
        }
        url.append("://");
        url.append(self.host.as_str());
        if let Some(port) = self.port {
            url.append(":");
            let digits = decimal_string(port as u64);
            url.append(digits.as_str());
        }
        url.append(self.path.as_str());
        if let Some(q) = &self.query {
            url.append("?");
            url.append(q.as_str());
        }
        proof {
            assert(scheme_sep() =~= "://"@);
        }
        url
    }
}

} // verus!
