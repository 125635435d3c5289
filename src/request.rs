//! Requests and their exact wire form.
use vstd::prelude::*;
use vstd::slice::slice_to_vec;
use vstd::utf8::encode_utf8;

use crate::error::RequestError;
use crate::headers::{
    default_entries, key_index, keys_unique, lemma_key_index, render_headers, Headers,
};
use crate::method::Method;
use crate::url::{parse_url, request_target, address, Url};

verus! {

/// A request to be sent: target, method, headers, body and protocol version.
pub struct Request {
    pub url: Url,
    pub method: String,
    pub headers: Headers,
    pub body: Vec<u8>,
    pub http_version: String,
}

/// `METHOD target HTTP/version`, CRLF, the header lines, CRLF.
pub open spec fn request_head(
    method: Seq<char>,
    target: Seq<char>,
    version: Seq<char>,
    headers: Seq<(Seq<char>, Seq<char>)>,
) -> Seq<char> {
    method + seq![' '] + target + " HTTP/"@ + version + seq!['\r', '\n'] + render_headers(headers)
        + seq!['\r', '\n']
}

impl Request {
    /// The bytes that go on the wire for this request: its head in UTF-8,
    /// then the body verbatim.
    pub open spec fn wire(&self) -> Seq<u8> {
        encode_utf8(
            request_head(self.method@, request_target(self.url@), self.http_version@, self.headers@),
        ) + self.body@
    }

    /// A request for `url` with method `method`, HTTP/1.1, no body, the
    /// default headers and a `Host` header naming the URL's host. Fails
    /// where `url` does not parse.
    pub fn build(url: &str, method: Method) -> (r: Result<Request, RequestError>)
        ensures
            match parse_url(url@) {
                Some(u) => r matches Ok(req) && req.url@ == u && req.method@ == method.name()
                    && req.headers@ == default_entries().push(("Host"@, u.host))
                    && req.body@.len() == 0 && req.http_version@ == "1.1"@ && keys_unique(
                    req.headers@,
                ),
                None => r matches Err(RequestError::InvalidUrl(t)) && t@ == url@,
            },
    {
        let target = Url::parse(url)?;
        let mut headers = Headers::default();
        proof {
            reveal_strlit("Host");
            reveal_strlit("User-Agent");
            reveal_strlit("Accept");
            reveal_strlit("Connection");
            reveal_strlit("Accept-Language");
            reveal_strlit("Accept-Charset");
            let e = default_entries();
            assert(e[0].0.len() == 10 && e[1].0.len() == 6 && e[2].0.len() == 10 && e[3].0.len()
                == 15 && e[4].0.len() == 14);
            lemma_key_index(e, "Host"@);
        }
        headers.set("Host".to_owned(), target.host.clone());
        Ok(
            Request {
                url: target,
                method: method.to_string(),
                headers,
                body: Vec::new(),
                http_version: "1.1".to_owned(),
            },
        )
    }

    /// The request's bytes: `METHOD target HTTP/version` and CRLF, one
    /// `name: value` line per header, CRLF, then the body.
    pub fn to_bytes(&self) -> (r: Vec<u8>)
        ensures
            r@ == self.wire(),
    {
        let mut head = self.method.clone();
        head.append(" ");
        let target = self.url.get_path();
        head.append(target.as_str());
        head.append(" HTTP/");
        head.append(self.http_version.as_str());
        head.append("\r\n");
        let lines = self.headers.to_string();
        head.append(lines.as_str());
        head.append("\r\n");
        proof {
            reveal_strlit(" ");
            reveal_strlit("\r\n");
            assert(head@ =~= request_head(
                self.method@,
                request_target(self.url@),
                self.http_version@,
                self.headers@,
            ));
        }
        let mut data = slice_to_vec(head.as_str().as_bytes());
        let mut i: usize = 0;
        while i < self.body.len()
            invariant
                i <= self.body@.len(),
                data@ == encode_utf8(head@) + self.body@.subrange(0, i as int),
            decreases self.body@.len() - i,
        {
            data.push(self.body[i]);
            i = i + 1;
            assert(data@ =~= encode_utf8(head@) + self.body@.subrange(0, i as int));
        }
        assert(self.body@.subrange(0, i as int) =~= self.body@);
        data
    }

    /// Records a header, replacing an earlier value of the same name.
    pub fn set(&mut self, key: String, value: String)
        ensures
            final(self).headers@ == (match key_index(old(self).headers@, key@) {
                Some(i) => old(self).headers@.update(i, (key@, value@)),
                None => old(self).headers@.push((key@, value@)),
            }),
            keys_unique(final(self).headers@),
            final(self).url == old(self).url,
            final(self).method == old(self).method,
            final(self).body == old(self).body,
            final(self).http_version == old(self).http_version,
    {
        self.headers.set(key, value);
    }

    /// Replaces the body.
    pub fn set_body(&mut self, body: &[u8])
        ensures
            final(self).body@ == body@,
            final(self).url == old(self).url,
            final(self).method == old(self).method,
            final(self).headers == old(self).headers,
            final(self).http_version == old(self).http_version,
    {
        self.body = slice_to_vec(body);
    }

    /// `host:port` of the target, port 80 where the URL names none.
    pub fn addr(&self) -> (r: String)
        ensures
            r@ == address(self.url@),
    {
        self.url.addr()
    }
}

} // verus!
