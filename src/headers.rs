//! Header names and an insertion-ordered header map.
use vstd::prelude::*;

use crate::text::same_text;

verus! {

/// Well-known header names.
#[derive(Clone, Copy, Debug, PartialEq, Eq)]
pub enum HeaderKey {
    Accept,
    ContentType,
    UserAgent,
    Authorization,
    Host,
    AcceptCharset,
}

impl HeaderKey {
    pub open spec fn name(&self) -> Seq<char> {
        match self {
            HeaderKey::Accept => "Accept"@,
            HeaderKey::ContentType => "Content-Type"@,
            HeaderKey::UserAgent => "User-Agent"@,
            HeaderKey::Authorization => "Authorization"@,
            HeaderKey::Host => "Host"@,
            HeaderKey::AcceptCharset => "Accept-Charset"@,
        }
    }

    /// The header name as it appears on the wire.
    pub fn as_str(&self) -> (r: &'static str)
        ensures
            r@ == self.name(),
    {
        match self {
            HeaderKey::Accept => "Accept",
            HeaderKey::ContentType => "Content-Type",
            HeaderKey::UserAgent => "User-Agent",
            HeaderKey::Authorization => "Authorization",
            HeaderKey::Host => "Host",
            HeaderKey::AcceptCharset => "Accept-Charset",
        }
    }

    /// The key named `value`. Recognises `Accept`, `Content-Type`,
    /// `User-Agent`, `Authorization` and `Host`; any other name, including
    /// `Accept-Charset`, is an error that carries the name.
    pub fn try_from(value: &str) -> (r: Result<HeaderKey, String>)
        ensures
            match r {
                Ok(k) => k != HeaderKey::AcceptCharset && k.name() == value@,
                Err(e) => value@ != "Accept"@ && value@ != "Content-Type"@ && value@
                    != "User-Agent"@ && value@ != "Authorization"@ && value@ != "Host"@ && e@
                    == "unknown header key: "@ + value@,
            },
    {
        if same_text(value, "Accept") {
            Ok(HeaderKey::Accept)
        } else if same_text(value, "Content-Type") {
            Ok(HeaderKey::ContentType)
        } else if same_text(value, "User-Agent") {
            Ok(HeaderKey::UserAgent)
        } else if same_text(value, "Authorization") {
            Ok(HeaderKey::Authorization)
        } else if same_text(value, "Host") {
            Ok(HeaderKey::Host)
        } else {
            let mut e = "unknown header key: ".to_owned();
            e.append(value);
            Err(e)
        }
    }
}

/// A header entry as a pair of character sequences.
pub type HeaderEntry = (Seq<char>, Seq<char>);

/// The index of the first entry named `key`.
pub open spec fn key_index(s: Seq<HeaderEntry>, key: Seq<char>) -> Option<int>
    decreases s.len(),
{
    if s.len() == 0 {
        None
    } else {
        match key_index(s.drop_last(), key) {
            Some(i) => Some(i),
            None => if s.last().0 == key {
                Some(s.len() - 1)
            } else {
                None
            },
        }
    }
}

/// The value recorded under `key`.
pub open spec fn lookup(s: Seq<HeaderEntry>, key: Seq<char>) -> Option<Seq<char>> {
    match key_index(s, key) {
        Some(i) => Some(s[i].1),
        None => None,
    }
}

/// No two entries share a name.
pub open spec fn keys_unique(s: Seq<HeaderEntry>) -> bool {
    forall|i: int, j: int| 0 <= i < j < s.len() ==> s[i].0 != s[j].0
}

/// `name: value` followed by CRLF.
pub open spec fn header_line(e: HeaderEntry) -> Seq<char> {
    e.0 + seq![':', ' '] + e.1 + seq!['\r', '\n']
}

/// The wire form of a header block: one line per entry, in order.
pub open spec fn render_headers(s: Seq<HeaderEntry>) -> Seq<char>
    decreases s.len(),
{
    if s.len() == 0 {
        Seq::<char>::empty()
    } else {
        render_headers(s.drop_last()) + header_line(s.last())
    }
}

/// The headers every request starts with.
pub open spec fn default_entries() -> Seq<HeaderEntry> {
    seq![
        ("User-Agent"@, "rcurl/1.0"@),
        ("Accept"@, "*/*"@),
        ("Connection"@, "close"@),
        ("Accept-Language"@, "zh-CN,zh;q=0.9,en-US;q=0.8,en;q=0.7,en-GB;q=0.6"@),
        ("Accept-Charset"@, "charset=utf8"@),
    ]
}

pub proof fn lemma_key_index(s: Seq<HeaderEntry>, key: Seq<char>)
    ensures
        match key_index(s, key) {
            Some(i) => 0 <= i < s.len() && s[i].0 == key && forall|j: int|
                0 <= j < i ==> s[j].0 != key,
            None => forall|j: int| 0 <= j < s.len() ==> s[j].0 != key,
        },
    decreases s.len(),
{
    if s.len() > 0 {
        lemma_key_index(s.drop_last(), key);
        assert forall|j: int| 0 <= j < s.len() - 1 implies s.drop_last()[j] == s[j] by {}
    }
}

/// Every entry's line stands in the rendered block.
pub proof fn lemma_rendered_line(s: Seq<HeaderEntry>, i: int)
    requires
        0 <= i < s.len(),
    ensures
        exists|a: int|
            0 <= a && a + header_line(s[i]).len() <= render_headers(s).len() && #[trigger] render_headers(s).subrange(
                a,
                a + header_line(s[i]).len(),
            ) == header_line(s[i]),
    decreases s.len(),
{
    let r = render_headers(s);
    let line = header_line(s[i]);
    let prev = render_headers(s.drop_last());
    if i == s.len() - 1 {
        let a = prev.len() as int;
        assert(r.subrange(a, a + line.len()) =~= line);
    } else {
        lemma_rendered_line(s.drop_last(), i);
        assert(s.drop_last()[i] == s[i]);
        let a = choose|a: int|
            0 <= a && a + line.len() <= prev.len() && #[trigger] prev.subrange(a, a + line.len())
                == line;
        assert(r.subrange(a, a + line.len()) =~= prev.subrange(a, a + line.len()));
    }
}

/// Header names mapped to values, kept in the order they were first added.
#[derive(Debug)]
pub struct Headers {
    entries: Vec<(String, String)>,
}

impl View for Headers {
    type V = Seq<HeaderEntry>;

    closed spec fn view(&self) -> Seq<HeaderEntry> {
        self.entries@.map_values(|e: (String, String)| (e.0@, e.1@))
    }
}

impl Headers {
    /// No two entries share a name.
    #[verifier::type_invariant]
    spec fn names_unique(&self) -> bool {
        keys_unique(self@)
    }

    /// An empty map.
    pub fn new() -> (r: Headers)
        ensures
            r@ == Seq::<HeaderEntry>::empty(),
    {
        Headers { entries: Vec::new() }
    }

    /// The index of the entry named `key`.
    fn index_of(&self, key: &str) -> (r: Option<usize>)
        ensures
            key_index(self@, key@) == (match r {
                Some(i) => Some(i as int),
                None => None::<int>,
            }),
    {
        proof {
            lemma_key_index(self@, key@);
        }
        let mut i: usize = 0;
        while i < self.entries.len()
            invariant
                i <= self.entries@.len(),
                self@.len() == self.entries@.len(),
                forall|j: int| 0 <= j < i ==> self@[j].0 != key@,
            decreases self.entries@.len() - i,
        {
            if same_text(self.entries[i].0.as_str(), key) {
                proof {
                    lemma_key_index(self@, key@);
                    assert(self@[i as int].0 == self.entries@[i as int].0@);
                }
                return Some(i);
            }
            i = i + 1;
        }
        proof {
            lemma_key_index(self@, key@);
        }
        None
    }

    /// The names, in order; no two are equal.
    pub fn keys(&self) -> (r: Vec<String>)
        ensures
            r@.len() == self@.len(),
            forall|i: int| 0 <= i < r@.len() ==> #[trigger] r@[i]@ == self@[i].0,
            forall|i: int, j: int| 0 <= i < j < r@.len() ==> r@[i]@ != r@[j]@,
    {
        proof {
            use_type_invariant(self);
        }
        let mut r: Vec<String> = Vec::new();
        let mut i: usize = 0;
        while i < self.entries.len()
            invariant
                i <= self.entries@.len(),
                r@.len() == i,
                forall|j: int| 0 <= j < i ==> #[trigger] r@[j]@ == self@[j].0,
            decreases self.entries@.len() - i,
        {
            r.push(self.entries[i].0.clone());
            i = i + 1;
        }
        r
    }

    /// The values, in the order of their names.
    pub fn values(&self) -> (r: Vec<String>)
        ensures
            r@.len() == self@.len(),
            forall|i: int| 0 <= i < r@.len() ==> #[trigger] r@[i]@ == self@[i].1,
    {
        let mut r: Vec<String> = Vec::new();
        let mut i: usize = 0;
        while i < self.entries.len()
            invariant
                i <= self.entries@.len(),
                r@.len() == i,
                forall|j: int| 0 <= j < i ==> #[trigger] r@[j]@ == self@[j].1,
            decreases self.entries@.len() - i,
        {
            r.push(self.entries[i].1.clone());
            i = i + 1;
        }
        r
    }

    /// Records `value` under `key` unless `key` is already present, in which
    /// case the first value stays.
    pub fn add(&mut self, key: String, value: String)
        ensures
            final(self)@ == (if key_index(old(self)@, key@) is Some {
                old(self)@
            } else {
                old(self)@.push((key@, value@))
            }),
            keys_unique(final(self)@),
    {
        proof {
            use_type_invariant(&*self);
        }
        if self.index_of(key.as_str()).is_none() {
            proof {
                lemma_key_index(self@, key@);
            }
            let ghost k = key@;
            let ghost v = value@;
            let mut entries: Vec<(String, String)> = Vec::new();
            std::mem::swap(&mut entries, &mut self.entries);
            entries.push((key, value));
            proof {
                let after = entries@.map_values(|e: (String, String)| (e.0@, e.1@));
                assert(after =~= old(self)@.push((k, v)));
            }
            self.entries = entries;
        }
    }

    /// Records `value` under `key`, replacing any earlier value in place.
    pub fn set(&mut self, key: String, value: String)
        ensures
            final(self)@ == (match key_index(old(self)@, key@) {
                Some(i) => old(self)@.update(i, (key@, value@)),
                None => old(self)@.push((key@, value@)),
            }),
            keys_unique(final(self)@),
    {
        proof {
            use_type_invariant(&*self);
            lemma_key_index(self@, key@);
        }
        let found = self.index_of(key.as_str());
        let ghost k = key@;
        let ghost v = value@;
        let mut entries: Vec<(String, String)> = Vec::new();
        std::mem::swap(&mut entries, &mut self.entries);
        match found {
            Some(i) => {
                entries.set(i, (key, value));
                proof {
                    let after = entries@.map_values(|e: (String, String)| (e.0@, e.1@));
                    assert(after =~= old(self)@.update(i as int, (k, v)));
                }
            },
            None => {
                entries.push((key, value));
                proof {
                    let after = entries@.map_values(|e: (String, String)| (e.0@, e.1@));
                    assert(after =~= old(self)@.push((k, v)));
                }
            },
        }
        self.entries = entries;
    }

    /// The value recorded under `key`.
    pub fn get(&self, key: &str) -> (r: Option<&String>)
        ensures
            match lookup(self@, key@) {
                Some(v) => r matches Some(s) && s@ == v,
                None => r is None,
            },
    {
        proof {
            lemma_key_index(self@, key@);
        }
        match self.index_of(key) {
            Some(i) => Some(&self.entries[i].1),
            None => None,
        }
    }

    /// Drops the entry named `key`, if any; the others keep their order, and
    /// no entry of that name is left.
    pub fn remove(&mut self, key: &str)
        ensures
            final(self)@ == (match key_index(old(self)@, key@) {
                Some(i) => old(self)@.remove(i),
                None => old(self)@,
            }),
            key_index(final(self)@, key@) is None,
            lookup(final(self)@, key@) is None,
            keys_unique(final(self)@),
    {
        proof {
            use_type_invariant(&*self);
            lemma_key_index(self@, key@);
        }
        if let Some(i) = self.index_of(key) {
            let mut entries: Vec<(String, String)> = Vec::new();
            std::mem::swap(&mut entries, &mut self.entries);
            entries.remove(i);
            let ghost after = entries@.map_values(|e: (String, String)| (e.0@, e.1@));
            assert(after =~= old(self)@.remove(i as int));
            assert(keys_unique(after) && forall|a: int| 0 <= a < after.len() ==> after[a].0 != key@)
                by {
                assert forall|a: int| 0 <= a < after.len() implies after[a].0 != key@ by {
                    let a0 = if a < i {
                        a
                    } else {
                        a + 1
                    };
                    assert(after[a] == old(self)@[a0]);
                }
                assert forall|a: int, b: int| 0 <= a < b < after.len() implies after[a].0
                    != after[b].0 by {
                        let a0 = if a < i {
                            a
                        } else {
                            a + 1
                        };
                        let b0 = if b < i {
                            b
                        } else {
                            b + 1
                        };
                    assert(after[a] == old(self)@[a0]);
                    assert(after[b] == old(self)@[b0]);
                }
            }
            self.entries = entries;
        }
        proof {
            lemma_key_index(self@, key@);
        }
    }

    /// The header block as sent: `name: value` and CRLF for each entry, in
    /// order.
    pub fn to_string(&self) -> (r: String)
        ensures
            r@ == render_headers(self@),
    {
        let mut result = String::new();
        let mut i: usize = 0;
        while i < self.entries.len()
            invariant
                i <= self.entries@.len(),
                result@ == render_headers(self@.subrange(0, i as int)),
            decreases self.entries@.len() - i,
        {
            result.append(self.entries[i].0.as_str());
            result.append(": ");
            result.append(self.entries[i].1.as_str());
            result.append("\r\n");
            proof {
                reveal_strlit(": ");
                reveal_strlit("\r\n");
                let s = self@.subrange(0, i + 1);
                assert(s.drop_last() =~= self@.subrange(0, i as int));
                assert(s.last() == self@[i as int]);
            }
            i = i + 1;
        }
        assert(self@.subrange(0, self@.len() as int) =~= self@);
        result
    }
}

impl Clone for Headers {
    /// A copy with the same entries in the same order.
    fn clone(&self) -> (r: Headers)
        ensures
            r@ == self@,
    {
        proof {
            use_type_invariant(self);
        }
        let mut entries: Vec<(String, String)> = Vec::new();
        let mut i: usize = 0;
        while i < self.entries.len()
            invariant
                i <= self.entries@.len(),
                self@.len() == self.entries@.len(),
                entries@.len() == i,
                forall|j: int|
                    0 <= j < i ==> (#[trigger] entries@[j]).0@ == self@[j].0 && entries@[j].1@
                        == self@[j].1,
            decreases self.entries@.len() - i,
        {
            let name = self.entries[i].0.clone();
            let value = self.entries[i].1.clone();
            assert(name@ == self@[i as int].0 && value@ == self@[i as int].1);
            entries.push((name, value));
            i = i + 1;
        }
        let ghost r = entries@.map_values(|e: (String, String)| (e.0@, e.1@));
        assert(r =~= self@);
        Headers { entries }
    }
}

impl Default for Headers {
    /// The headers every request starts with: `User-Agent`, `Accept`,
    /// `Connection: close`, `Accept-Language` and `Accept-Charset`.
    fn default() -> (r: Headers)
        ensures
            r@ == default_entries(),
            keys_unique(r@),
    {
        let entries = vec![
            ("User-Agent".to_owned(), "rcurl/1.0".to_owned()),
            ("Accept".to_owned(), "*/*".to_owned()),
            ("Connection".to_owned(), "close".to_owned()),
            (
                "Accept-Language".to_owned(),
                "zh-CN,zh;q=0.9,en-US;q=0.8,en;q=0.7,en-GB;q=0.6".to_owned(),
            ),
            (HeaderKey::AcceptCharset.as_str().to_owned(), "charset=utf8".to_owned()),
        ];
        proof {
            reveal_strlit("User-Agent");
            reveal_strlit("Accept");
            reveal_strlit("Connection");
            reveal_strlit("Accept-Language");
            reveal_strlit("Accept-Charset");
            let e = default_entries();
            assert(e[0].0.len() == 10 && e[1].0.len() == 6 && e[2].0.len() == 10 && e[3].0.len()
                == 15 && e[4].0.len() == 14);
            assert(e[0].0[0] != e[2].0[0]);
            assert forall|i: int, j: int| 0 <= i < j < e.len() implies e[i].0 != e[j].0 by {
                if i == 0 && j == 2 {
                    assert(e[i].0[0] != e[j].0[0]);
                }
            }
            assert(entries@.map_values(|e: (String, String)| (e.0@, e.1@)) =~= e);
        }
        Headers { entries }
    }
}

} // verus!
