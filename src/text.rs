//! Character-level building blocks shared by the URL, header, response and
//! name-resolution code: whitespace, splitting, trimming, searching and
//! decimal numbers, each with the mathematical model its callers reason over.
use vstd::prelude::*;
use vstd::string::StrSliceExecFns;
use vstd::utf8::*;

verus! {

broadcast use vstd::utf8::group_utf8_lib;

// ---------------------------------------------------------------------------
// Models
// ---------------------------------------------------------------------------

/// Unicode `White_Space`, the set that `char::is_whitespace`, `str::trim` and
/// `str::split_whitespace` use.
pub open spec fn is_space(c: char) -> bool {
    ||| c == '\t'
    ||| c == '\n'
    ||| c == '\u{0B}'
    ||| c == '\u{0C}'
    ||| c == '\r'
    ||| c == ' '
    ||| c == '\u{85}'
    ||| c == '\u{A0}'
    ||| c == '\u{1680}'
    ||| ('\u{2000}' <= c && c <= '\u{200A}')
    ||| c == '\u{2028}'
    ||| c == '\u{2029}'
    ||| c == '\u{202F}'
    ||| c == '\u{205F}'
    ||| c == '\u{3000}'
}

pub open spec fn is_digit(c: char) -> bool {
    '0' <= c && c <= '9'
}

pub open spec fn digit_value(c: char) -> nat {
    (c as int - '0' as int) as nat
}

/// The pieces of `s` between occurrences of `sep`, as `str::split` gives
/// them: never empty, and `k` separators give `k + 1` pieces.
pub open spec fn split_seq<A>(s: Seq<A>, sep: A) -> Seq<Seq<A>>
    decreases s.len(),
{
    if s.len() == 0 {
        seq![Seq::<A>::empty()]
    } else {
        let p = split_seq(s.drop_last(), sep);
        if s.last() == sep {
            p.push(Seq::<A>::empty())
        } else {
            p.drop_last().push(p.last().push(s.last()))
        }
    }
}

/// The maximal runs of non-space characters of `s`, left to right
/// (`str::split_whitespace`).
pub open spec fn words(s: Seq<char>) -> Seq<Seq<char>>
    decreases s.len(),
{
    if s.len() == 0 {
        seq![]
    } else {
        let w = words(s.drop_last());
        if is_space(s.last()) {
            w
        } else if s.len() >= 2 && !is_space(s[s.len() - 2]) {
            w.drop_last().push(w.last().push(s.last()))
        } else {
            w.push(seq![s.last()])
        }
    }
}

/// `s` without its leading whitespace.
pub open spec fn trim_start(s: Seq<char>) -> Seq<char>
    decreases s.len(),
{
    if s.len() > 0 && is_space(s[0]) {
        trim_start(s.drop_first())
    } else {
        s
    }
}

/// `s` without its trailing whitespace.
pub open spec fn trim_end(s: Seq<char>) -> Seq<char>
    decreases s.len(),
{
    if s.len() > 0 && is_space(s.last()) {
        trim_end(s.drop_last())
    } else {
        s
    }
}

/// `s` without leading and trailing whitespace (`str::trim`).
pub open spec fn trim(s: Seq<char>) -> Seq<char> {
    trim_end(trim_start(s))
}

/// The index of the first occurrence of `c` in `s`.
pub open spec fn find_char(s: Seq<char>, c: char) -> Option<int>
    decreases s.len(),
{
    if s.len() == 0 {
        None
    } else {
        match find_char(s.drop_last(), c) {
            Some(i) => Some(i),
            None => if s.last() == c {
                Some(s.len() - 1)
            } else {
                None
            },
        }
    }
}

/// Whether `p` occurs in `s` starting at index `i`.
pub open spec fn occurs_at(s: Seq<char>, p: Seq<char>, i: int) -> bool {
    0 <= i && i + p.len() <= s.len() && s.subrange(i, i + p.len()) == p
}

/// The index of the first occurrence of the non-empty pattern `p` in `s`.
pub open spec fn find_seq(s: Seq<char>, p: Seq<char>) -> Option<int>
    decreases s.len(),
{
    if s.len() < p.len() || s.len() == 0 {
        None
    } else {
        match find_seq(s.drop_last(), p) {
            Some(i) => Some(i),
            None => if occurs_at(s, p, s.len() - p.len()) {
                Some(s.len() - p.len())
            } else {
                None
            },
        }
    }
}

/// The value of a string of decimal digits.
pub open spec fn digits_value(s: Seq<char>) -> nat
    decreases s.len(),
{
    if s.len() == 0 {
        0
    } else {
        digits_value(s.drop_last()) * 10 + digit_value(s.last())
    }
}

pub open spec fn all_digits(s: Seq<char>) -> bool {
    forall|i: int| 0 <= i < s.len() ==> #[trigger] is_digit(s[i])
}

/// An unsigned decimal number as Rust's integer parsers read it: an optional
/// `+`, then one or more ASCII digits.
pub open spec fn unsigned_value(s: Seq<char>) -> Option<nat> {
    let d = if s.len() > 0 && s[0] == '+' {
        s.drop_first()
    } else {
        s
    };
    if d.len() > 0 && all_digits(d) {
        Some(digits_value(d))
    } else {
        None
    }
}

/// `unsigned_value`, where the number must not exceed `max`.
pub open spec fn bounded_value(s: Seq<char>, max: nat) -> Option<nat> {
    match unsigned_value(s) {
        Some(v) => if v <= max {
            Some(v)
        } else {
            None
        },
        None => None,
    }
}

pub open spec fn digit_char(d: nat) -> char {
    if d == 0 {
        '0'
    } else if d == 1 {
        '1'
    } else if d == 2 {
        '2'
    } else if d == 3 {
        '3'
    } else if d == 4 {
        '4'
    } else if d == 5 {
        '5'
    } else if d == 6 {
        '6'
    } else if d == 7 {
        '7'
    } else if d == 8 {
        '8'
    } else {
        '9'
    }
}

/// The decimal form of `n`, without sign or leading zeros.
pub open spec fn decimal(n: nat) -> Seq<char>
    decreases n,
{
    if n < 10 {
        seq![digit_char(n)]
    } else {
        decimal(n / 10).push(digit_char(n % 10))
    }
}

// ---------------------------------------------------------------------------
// Facts about the models
// ---------------------------------------------------------------------------

pub proof fn lemma_find_char(s: Seq<char>, c: char)
    ensures
        match find_char(s, c) {
            Some(i) => 0 <= i < s.len() && s[i] == c && forall|j: int| 0 <= j < i ==> s[j] != c,
            None => forall|j: int| 0 <= j < s.len() ==> s[j] != c,
        },
    decreases s.len(),
{
    if s.len() > 0 {
        lemma_find_char(s.drop_last(), c);
        assert forall|j: int| 0 <= j < s.len() - 1 implies s.drop_last()[j] == s[j] by {}
    }
}

/// `find_char` finds exactly the first occurrence.
pub proof fn lemma_find_char_at(s: Seq<char>, c: char, i: int)
    requires
        0 <= i < s.len(),
        s[i] == c,
        forall|j: int| 0 <= j < i ==> s[j] != c,
    ensures
        find_char(s, c) == Some(i),
{
    lemma_find_char(s, c);
}

pub proof fn lemma_find_char_none(s: Seq<char>, c: char)
    requires
        forall|j: int| 0 <= j < s.len() ==> s[j] != c,
    ensures
        find_char(s, c) is None,
{
    lemma_find_char(s, c);
}

pub proof fn lemma_find_seq(s: Seq<char>, p: Seq<char>)
    requires
        p.len() > 0,
    ensures
        match find_seq(s, p) {
            Some(i) => occurs_at(s, p, i) && forall|j: int| 0 <= j < i ==> !occurs_at(s, p, j),
            None => forall|j: int| !occurs_at(s, p, j),
        },
    decreases s.len(),
{
    if s.len() >= p.len() && s.len() > 0 {
        let t = s.drop_last();
        lemma_find_seq(t, p);
        assert forall|j: int| j + p.len() <= t.len() implies occurs_at(s, p, j) == occurs_at(
            t,
            p,
            j,
        ) by {
            if 0 <= j {
                assert(s.subrange(j, j + p.len()) =~= t.subrange(j, j + p.len()));
            }
        }
    }
}

pub proof fn lemma_find_seq_at(s: Seq<char>, p: Seq<char>, i: int)
    requires
        p.len() > 0,
        occurs_at(s, p, i),
        forall|j: int| 0 <= j < i ==> !occurs_at(s, p, j),
    ensures
        find_seq(s, p) == Some(i),
{
    lemma_find_seq(s, p);
}

pub proof fn lemma_digits_value_monotone(s: Seq<char>, k: int)
    requires
        0 <= k <= s.len(),
    ensures
        digits_value(s.subrange(0, k)) <= digits_value(s),
    decreases s.len() - k,
{
    if k < s.len() {
        lemma_digits_value_monotone(s, k + 1);
        assert(s.subrange(0, k + 1).drop_last() =~= s.subrange(0, k));
    } else {
        assert(s.subrange(0, k) =~= s);
    }
}

pub proof fn lemma_digit_char(d: nat)
    requires
        d < 10,
    ensures
        is_digit(digit_char(d)),
        digit_value(digit_char(d)) == d,
        digit_char(d) != '+',
{
}

pub proof fn lemma_decimal(n: nat)
    ensures
        decimal(n).len() > 0,
        all_digits(decimal(n)),
        digits_value(decimal(n)) == n,
        decimal(n)[0] != '+',
    decreases n,
{
    lemma_digit_char(n % 10);
    if n < 10 {
        assert(n % 10 == n);
        assert(decimal(n).drop_last() =~= Seq::<char>::empty());
        assert(digits_value(Seq::<char>::empty()) == 0);
        assert(digits_value(decimal(n)) == digits_value(decimal(n).drop_last()) * 10
            + digit_value(decimal(n).last()));
    } else {
        lemma_decimal(n / 10);
        assert(decimal(n).drop_last() =~= decimal(n / 10));
        assert(digits_value(decimal(n)) == digits_value(decimal(n / 10)) * 10 + digit_value(
            digit_char(n % 10),
        ));
        assert(n == (n / 10) * 10 + n % 10);
        assert(all_digits(decimal(n))) by {
            assert forall|i: int| 0 <= i < decimal(n).len() implies #[trigger] is_digit(
                decimal(n)[i],
            ) by {
                if i < decimal(n).len() - 1 {
                    assert(decimal(n)[i] == decimal(n / 10)[i]);
                }
            }
        }
    }
}

/// Rendering a number in decimal and reading it back gives the number.
pub proof fn lemma_decimal_round_trip(n: nat)
    ensures
        unsigned_value(decimal(n)) == Some(n),
{
    lemma_decimal(n);
}

// ---------------------------------------------------------------------------
// Executable helpers
// ---------------------------------------------------------------------------

pub fn is_space_char(c: char) -> (r: bool)
    ensures
        r == is_space(c),
{
    c == '\t' || c == '\n' || c == '\u{0B}' || c == '\u{0C}' || c == '\r' || c == ' ' || c
        == '\u{85}' || c == '\u{A0}' || c == '\u{1680}' || ('\u{2000}' <= c && c <= '\u{200A}')
        || c == '\u{2028}' || c == '\u{2029}' || c == '\u{202F}' || c == '\u{205F}' || c
        == '\u{3000}'
}

/// The characters of `s`, in order.
pub fn chars_of(s: &str) -> (r: Vec<char>)
    ensures
        r@ == s@,
{
    let mut r: Vec<char> = Vec::new();
    for c in it: s.chars()
        invariant
            r@ == it.seq().take(it.index()),
    {
        r.push(c);
    }
    r
}

/// Whether two strings hold the same characters.
pub fn same_text(a: &str, b: &str) -> (r: bool)
    ensures
        r == (a@ == b@),
{
    let x = a.as_bytes();
    let y = b.as_bytes();
    proof {
        encode_utf8_decode_utf8(a@);
        encode_utf8_decode_utf8(b@);
    }
    if x.len() != y.len() {
        return false;
    }
    let mut i: usize = 0;
    while i < x.len()
        invariant
            x@ == encode_utf8(a@),
            y@ == encode_utf8(b@),
            x@.len() == y@.len(),
            i <= x@.len(),
            forall|j: int| 0 <= j < i ==> x@[j] == y@[j],
        decreases x@.len() - i,
    {
        if x[i] != y[i] {
            return false;
        }
        i = i + 1;
    }
    assert(x@ =~= y@);
    true
}

/// The first index at or after `from` and before `to` where `c` stands in
/// `s`, searched over `s[from..to]`.
pub fn find_char_in(s: &Vec<char>, c: char, from: usize, to: usize) -> (r: Option<usize>)
    requires
        from <= to <= s@.len(),
    ensures
        find_char(s@.subrange(from as int, to as int), c) == (match r {
            Some(i) => Some(i - from),
            None => None::<int>,
        }),
        match r {
            Some(i) => from <= i < to && s@[i as int] == c && forall|j: int|
                from <= j < i ==> s@[j] != c,
            None => forall|j: int| from <= j < to ==> s@[j] != c,
        },
{
    let ghost t = s@.subrange(from as int, to as int);
    let mut i: usize = from;
    while i < to
        invariant
            from <= i <= to <= s@.len(),
            t == s@.subrange(from as int, to as int),
            forall|j: int| from <= j < i ==> s@[j] != c,
        decreases to - i,
    {
        if s[i] == c {
            proof {
                lemma_find_char_at(t, c, i - from);
            }
            return Some(i);
        }
        i = i + 1;
    }
    proof {
        lemma_find_char_none(t, c);
    }
    None
}

/// The index of the first `://` in `s`.
pub fn find_scheme_end(s: &Vec<char>) -> (r: Option<usize>)
    ensures
        find_seq(s@, seq![':', '/', '/']) == (match r {
            Some(i) => Some(i as int),
            None => None::<int>,
        }),
        r matches Some(i) ==> i + 3 <= s@.len(),
{
    let ghost p = seq![':', '/', '/'];
    let n = s.len();
    if n < 3 {
        proof {
            lemma_find_seq(s@, p);
        }
        return None;
    }
    let mut i: usize = 0;
    while i <= n - 3
        invariant
            n == s@.len(),
            n >= 3,
            p == seq![':', '/', '/'],
            i <= n - 2,
            forall|j: int| 0 <= j < i ==> !occurs_at(s@, p, j),
        decreases n - i,
    {
        if s[i] == ':' && s[i + 1] == '/' && s[i + 2] == '/' {
            proof {
                assert(p[0] == ':' && p[1] == '/' && p[2] == '/');
                assert(s@.subrange(i as int, i + 3) =~= p);
                lemma_find_seq_at(s@, p, i as int);
            }
            return Some(i);
        }
        assert(!occurs_at(s@, p, i as int)) by {
            if occurs_at(s@, p, i as int) {
                assert(p[0] == ':' && p[1] == '/' && p[2] == '/');
                assert(s@.subrange(i as int, i + 3)[0] == s@[i as int]);
                assert(s@.subrange(i as int, i + 3)[1] == s@[i + 1]);
                assert(s@.subrange(i as int, i + 3)[2] == s@[i + 2]);
            }
        }
        i = i + 1;
    }
    proof {
        lemma_find_seq(s@, p);
    }
    None
}

/// Reads `s[from..to]` as an unsigned decimal number no greater than `max`.
pub fn parse_bounded(s: &Vec<char>, from: usize, to: usize, max: u64) -> (r: Option<u64>)
    requires
        from <= to <= s@.len(),
    ensures
        bounded_value(s@.subrange(from as int, to as int), max as nat) == (match r {
            Some(v) => Some(v as nat),
            None => None::<nat>,
        }),
{
    let ghost t = s@.subrange(from as int, to as int);
    let mut start = from;
    if start < to && s[start] == '+' {
        start = start + 1;
    }
    let ghost d = s@.subrange(start as int, to as int);
    assert(d =~= (if t.len() > 0 && t[0] == '+' {
        t.drop_first()
    } else {
        t
    }));
    if start == to {
        return None;
    }
    let mut acc: u64 = 0;
    let mut i: usize = start;
    while i < to
        invariant
            from <= start < to <= s@.len(),
            start <= i <= to,
            t == s@.subrange(from as int, to as int),
            d == (if t.len() > 0 && t[0] == '+' {
                t.drop_first()
            } else {
                t
            }),
            d == s@.subrange(start as int, to as int),
            all_digits(s@.subrange(start as int, i as int)),
            acc as nat == digits_value(s@.subrange(start as int, i as int)),
            acc <= max,
        decreases to - i,
    {
        let c = s[i];
        if !('0' <= c && c <= '9') {
            assert(!all_digits(d)) by {
                assert(d[i - start] == c);
                assert(!is_digit(d[i - start]));
            }
            return None;
        }
        let dv = (c as u32 - '0' as u32) as u64;
        let next: u128 = acc as u128 * 10 + dv as u128;
        proof {
            let a = s@.subrange(start as int, i + 1);
            assert(a.drop_last() =~= s@.subrange(start as int, i as int));
            assert(digits_value(a) == next);
        }
        if next > max as u128 {
            proof {
                let a = s@.subrange(start as int, i + 1);
                if all_digits(d) {
                    lemma_digits_value_monotone(d, i + 1 - start);
                    assert(d.subrange(0, i + 1 - start) =~= a);
                }
            }
            return None;
        }
        acc = next as u64;
        i = i + 1;
        proof {
            let a = s@.subrange(start as int, i as int);
            assert forall|j: int| 0 <= j < a.len() implies #[trigger] is_digit(a[j]) by {
                if j < a.len() - 1 {
                    assert(a[j] == s@.subrange(start as int, i - 1)[j]);
                }
            }
        }
    }
    assert(s@.subrange(start as int, i as int) =~= d);
    Some(acc)
}

/// The one-character string of decimal digit `d`.
fn digit_text(d: u64) -> (r: &'static str)
    requires
        d < 10,
    ensures
        r@ == seq![digit_char(d as nat)],
{
    let all = "0123456789";
    proof {
        reveal_strlit("0123456789");
    }
    let r = all.substring_char(d as usize, (d + 1) as usize);
    assert(r@ =~= seq![digit_char(d as nat)]);
    r
}

/// The decimal form of `n`.
pub fn decimal_string(n: u64) -> (r: String)
    ensures
        r@ == decimal(n as nat),
    decreases n,
{
    if n < 10 {
        digit_text(n).to_owned()
    } else {
        let mut s = decimal_string(n / 10);
        s.append(digit_text(n % 10));
        s
    }
}


/// `p` is a prefix of `s`.
pub open spec fn starts_with(s: Seq<char>, p: Seq<char>) -> bool {
    p.len() <= s.len() && s.subrange(0, p.len() as int) == p
}

/// One more character for `split_seq`: a separator opens a new piece, any
/// other character extends the last one.
pub proof fn lemma_split_push<A>(s: Seq<A>, x: A, sep: A)
    ensures
        split_seq(s.push(x), sep) == (if x == sep {
            split_seq(s, sep).push(Seq::<A>::empty())
        } else {
            split_seq(s, sep).drop_last().push(split_seq(s, sep).last().push(x))
        }),
{
    assert(s.push(x).drop_last() =~= s);
}

/// One more character for `words`.
pub proof fn lemma_words_push(s: Seq<char>, x: char)
    ensures
        words(s.push(x)) == (if is_space(x) {
            words(s)
        } else if s.len() >= 1 && !is_space(s.last()) {
            words(s).drop_last().push(words(s).last().push(x))
        } else {
            words(s).push(seq![x])
        }),
{
    assert(s.push(x).drop_last() =~= s);
}

/// The pieces of `s[from..to]` between occurrences of `sep`, as index spans
/// into `s`.
pub fn split_spans(s: &Vec<char>, from: usize, to: usize, sep: char) -> (r: Vec<(usize, usize)>)
    requires
        from <= to <= s@.len(),
    ensures
        r@.len() == split_seq(s@.subrange(from as int, to as int), sep).len(),
        forall|k: int|
            0 <= k < r@.len() ==> from <= (#[trigger] r@[k]).0 <= r@[k].1 <= to && s@.subrange(
                r@[k].0 as int,
                r@[k].1 as int,
            ) == split_seq(s@.subrange(from as int, to as int), sep)[k],
{
    let mut r: Vec<(usize, usize)> = Vec::new();
    let mut start = from;
    let mut i = from;
    assert(s@.subrange(from as int, from as int) =~= Seq::<char>::empty());
    while i < to
        invariant
            from <= start <= i <= to <= s@.len(),
            split_seq(s@.subrange(from as int, i as int), sep).len() == r@.len() + 1,
            forall|k: int|
                0 <= k < r@.len() ==> from <= (#[trigger] r@[k]).0 <= r@[k].1 <= i && s@.subrange(
                    r@[k].0 as int,
                    r@[k].1 as int,
                ) == split_seq(s@.subrange(from as int, i as int), sep)[k],
            split_seq(s@.subrange(from as int, i as int), sep).last() == s@.subrange(
                start as int,
                i as int,
            ),
        decreases to - i,
    {
        let ghost t = s@.subrange(from as int, i as int);
        proof {
            assert(s@.subrange(from as int, i + 1) =~= t.push(s@[i as int]));
            lemma_split_push(t, s@[i as int], sep);
        }
        if s[i] == sep {
            r.push((start, i));
            start = i + 1;
            assert(s@.subrange(start as int, i + 1) =~= Seq::<char>::empty());
        } else {
            assert(s@.subrange(start as int, i + 1) =~= s@.subrange(start as int, i as int).push(
                s@[i as int],
            ));
        }
        i = i + 1;
    }
    r.push((start, to));
    r
}

/// The words of `s[from..to]`, as index spans into `s`; no span is empty.
pub fn word_spans(s: &Vec<char>, from: usize, to: usize) -> (r: Vec<(usize, usize)>)
    requires
        from <= to <= s@.len(),
    ensures
        r@.len() == words(s@.subrange(from as int, to as int)).len(),
        forall|k: int|
            0 <= k < r@.len() ==> from <= (#[trigger] r@[k]).0 < r@[k].1 <= to && s@.subrange(
                r@[k].0 as int,
                r@[k].1 as int,
            ) == words(s@.subrange(from as int, to as int))[k],
{
    let mut r: Vec<(usize, usize)> = Vec::new();
    let mut i = from;
    assert(s@.subrange(from as int, from as int) =~= Seq::<char>::empty());
    while i < to
        invariant
            from <= i <= to <= s@.len(),
            words(s@.subrange(from as int, i as int)).len() == r@.len(),
            forall|k: int|
                0 <= k < r@.len() ==> from <= (#[trigger] r@[k]).0 < r@[k].1 <= i && s@.subrange(
                    r@[k].0 as int,
                    r@[k].1 as int,
                ) == words(s@.subrange(from as int, i as int))[k],
            i > from && !is_space(s@[i - 1]) ==> r@.len() > 0 && r@.last().1 == i,
        decreases to - i,
    {
        let ghost t = s@.subrange(from as int, i as int);
        let c = s[i];
        proof {
            assert(s@.subrange(from as int, i + 1) =~= t.push(c));
            lemma_words_push(t, c);
            if t.len() >= 1 {
                assert(t.last() == s@[i - 1]);
            }
        }
        if is_space_char(c) {
        } else if i > from && !is_space_char(s[i - 1]) {
            let last = r.len() - 1;
            let a = r[last].0;
            assert(s@.subrange(a as int, i + 1) =~= s@.subrange(a as int, i as int).push(c));
            r.set(last, (a, i + 1));
        } else {
            r.push((i, i + 1));
            assert(s@.subrange(i as int, i + 1) =~= seq![c]);
        }
        i = i + 1;
    }
    r
}

/// Whether `s[from..to]` holds exactly the characters of `t`.
pub fn span_equals(s: &Vec<char>, from: usize, to: usize, t: &Vec<char>) -> (r: bool)
    requires
        from <= to <= s@.len(),
    ensures
        r == (s@.subrange(from as int, to as int) == t@),
{
    if to - from != t.len() {
        return false;
    }
    let mut i: usize = 0;
    while i < t.len()
        invariant
            from <= to <= s@.len(),
            to - from == t@.len(),
            i <= t@.len(),
            forall|j: int| 0 <= j < i ==> s@[from + j] == t@[j],
        decreases t@.len() - i,
    {
        if s[from + i] != t[i] {
            assert(s@.subrange(from as int, to as int)[i as int] != t@[i as int]);
            return false;
        }
        i = i + 1;
    }
    assert(s@.subrange(from as int, to as int) =~= t@);
    true
}


/// The span of `s[from..to]` without its leading and trailing whitespace.
pub fn trim_span(s: &Vec<char>, from: usize, to: usize) -> (r: (usize, usize))
    requires
        from <= to <= s@.len(),
    ensures
        from <= r.0 <= r.1 <= to,
        s@.subrange(r.0 as int, r.1 as int) == trim(s@.subrange(from as int, to as int)),
{
    let mut a = from;
    while a < to && is_space_char(s[a])
        invariant
            from <= a <= to <= s@.len(),
            trim_start(s@.subrange(from as int, to as int)) == trim_start(
                s@.subrange(a as int, to as int),
            ),
        decreases to - a,
    {
        assert(s@.subrange(a as int, to as int).drop_first() =~= s@.subrange(a + 1, to as int));
        a = a + 1;
    }
    let mut b = to;
    while b > a && is_space_char(s[b - 1])
        invariant
            from <= a <= b <= to <= s@.len(),
            trim_end(s@.subrange(a as int, to as int)) == trim_end(s@.subrange(a as int, b as int)),
        decreases b - a,
    {
        assert(s@.subrange(a as int, b as int).drop_last() =~= s@.subrange(a as int, b - 1));
        b = b - 1;
    }
    (a, b)
}

/// A text without the separator is a single piece.
pub proof fn lemma_split_without_sep<A>(s: Seq<A>, sep: A)
    requires
        forall|i: int| 0 <= i < s.len() ==> s[i] != sep,
    ensures
        split_seq(s, sep) == seq![s],
    decreases s.len(),
{
    if s.len() > 0 {
        let t = s.drop_last();
        lemma_split_without_sep(t, sep);
        assert(t.push(s.last()) =~= s);
        assert(seq![t].drop_last() =~= Seq::<Seq<A>>::empty());
        assert(Seq::<Seq<A>>::empty().push(s) =~= seq![s]);
    } else {
        assert(s =~= Seq::<A>::empty());
    }
}

/// The first piece of a split is a prefix of the text, the whole text when
/// there is only one piece.
pub proof fn lemma_split_first<A>(s: Seq<A>, sep: A)
    ensures
        split_seq(s, sep).len() >= 1,
        split_seq(s, sep)[0].len() <= s.len(),
        split_seq(s, sep)[0] == s.subrange(0, split_seq(s, sep)[0].len() as int),
        split_seq(s, sep).len() == 1 ==> split_seq(s, sep)[0] == s,
    decreases s.len(),
{
    if s.len() == 0 {
        assert(s.subrange(0, 0) =~= Seq::<A>::empty());
    } else {
        let t = s.drop_last();
        lemma_split_first(t, sep);
        let p = split_seq(t, sep);
        let f = split_seq(s, sep)[0];
        if s.last() == sep {
            assert(f == p[0]);
            assert(s.subrange(0, f.len() as int) =~= t.subrange(0, f.len() as int));
        } else if p.len() > 1 {
            assert(f == p[0]);
            assert(s.subrange(0, f.len() as int) =~= t.subrange(0, f.len() as int));
        } else {
            assert(f == p[0].push(s.last()));
            assert(f =~= s);
            assert(s.subrange(0, s.len() as int) =~= s);
        }
    }
}

pub open spec fn has_no_space(s: Seq<char>) -> bool {
    forall|i: int| 0 <= i < s.len() ==> !is_space(#[trigger] s[i])
}

/// A non-empty text without whitespace is one word.
pub proof fn lemma_one_word(w: Seq<char>)
    requires
        w.len() > 0,
        has_no_space(w),
    ensures
        words(w) == seq![w],
    decreases w.len(),
{
    let t = w.drop_last();
    assert(!is_space(w[w.len() - 1]));
    if w.len() == 1 {
        assert(t =~= Seq::<char>::empty());
        assert(words(t) =~= Seq::<Seq<char>>::empty());
        assert(seq![w.last()] =~= w);
        assert(Seq::<Seq<char>>::empty().push(w) =~= seq![w]);
    } else {
        assert(has_no_space(t));
        lemma_one_word(t);
        assert(w[w.len() - 2] == t.last());
        assert(!is_space(w[w.len() - 2]));
        assert(t.push(w.last()) =~= w);
        assert(seq![t].drop_last() =~= Seq::<Seq<char>>::empty());
        assert(Seq::<Seq<char>>::empty().push(w) =~= seq![w]);
    }
}

/// Two such words separated by a space are two words.
pub proof fn lemma_two_words(a: Seq<char>, b: Seq<char>)
    requires
        a.len() > 0,
        b.len() > 0,
        has_no_space(a),
        has_no_space(b),
    ensures
        words(a + seq![' '] + b) == seq![a, b],
    decreases b.len(),
{
    let s = a + seq![' '] + b;
    let t = s.drop_last();
    if b.len() == 1 {
        assert(t =~= a.push(' '));
        assert(a.push(' ').drop_last() =~= a);
        lemma_one_word(a);
        assert(words(t) == seq![a]);
        assert(s[s.len() - 2] == ' ');
        assert(seq![s.last()] =~= b);
        assert(seq![a].push(b) =~= seq![a, b]);
    } else {
        let b0 = b.drop_last();
        assert(has_no_space(b0));
        lemma_two_words(a, b0);
        assert(t =~= a + seq![' '] + b0);
        assert(s[s.len() - 2] == b0.last());
        assert(!is_space(s[s.len() - 2]));
        assert(b0.push(s.last()) =~= b);
        assert(seq![a, b0].drop_last().push(b) =~= seq![a, b]);
    }
}

} // verus!
