//! A DNS client codec: A-record queries, validation and parsing of replies,
//! hosts-file and resolver-configuration lookups, and the order in which a
//! resolution consults them.
use vstd::prelude::*;
use vstd::string::StrSliceExecFns;
use vstd::utf8::encode_utf8;

use crate::text::{
    all_digits, chars_of, digits_value, has_no_space, is_digit, lemma_split_first,
    lemma_split_push, lemma_split_without_sep, lemma_two_words, span_equals, split_seq,
    split_spans, starts_with, word_spans, words,
};

verus! {

/// An IPv4 address, as its four octets in network order.
#[derive(Debug, Clone, Copy, PartialEq, Eq, Hash)]
pub struct Ipv4(pub u8, pub u8, pub u8, pub u8);

/// Why a name could not be resolved.
#[derive(Debug, Clone, PartialEq, Eq)]
pub enum DnsError {
    /// The reply is shorter than the 12-byte header.
    TooShort,
    /// The reply answers another query.
    IdMismatch { expected: u16, received: u16 },
    /// The reply's QR bit is clear: it is a query, not a response.
    NotResponse,
    /// The reply carries an opcode other than a standard query.
    UnknownOpcode(u8),
    /// RCODE 1.
    FormatError,
    /// RCODE 2.
    ServerFailure,
    /// RCODE 3: the name does not exist.
    NameError,
    /// RCODE 4.
    NotImplemented,
    /// RCODE 5.
    Refused,
    /// Any RCODE above 5.
    UnknownRcode(u8),
    /// The reply holds no answer records.
    NoAnswers,
    /// The reply ends inside a record.
    Incomplete,
    /// No answer record is an IPv4 address.
    NoIpv4Address,
    /// The resolver configuration names no nameserver.
    NoNameserver,
    /// Reading configuration or talking to the nameserver failed.
    Io(String),
}

// ---------------------------------------------------------------------------
// Replies
// ---------------------------------------------------------------------------

/// The big-endian 16-bit number at `i`.
pub open spec fn be16(r: Seq<u8>, i: int) -> int {
    r[i] as int * 256 + r[i + 1] as int
}

/// The error a non-zero RCODE stands for.
pub open spec fn rcode_error(rcode: u8) -> DnsError {
    if rcode == 1 {
        DnsError::FormatError
    } else if rcode == 2 {
        DnsError::ServerFailure
    } else if rcode == 3 {
        DnsError::NameError
    } else if rcode == 4 {
        DnsError::NotImplemented
    } else if rcode == 5 {
        DnsError::Refused
    } else {
        DnsError::UnknownRcode(rcode)
    }
}

/// Where a name in the question section that starts at `p` ends: after its
/// zero label, or after a two-byte compression pointer, or at the first
/// position past the end of the reply.
pub open spec fn question_name_end(r: Seq<u8>, p: int) -> int
    decreases r.len() - p,
{
    if p < 0 || p >= r.len() {
        p
    } else if r[p] == 0 {
        p + 1
    } else if r[p] & 0xC0 == 0xC0 {
        p + 2
    } else if p + r[p] + 1 >= r.len() {
        p + r[p] + 1
    } else {
        question_name_end(r, p + r[p] + 1)
    }
}

/// Where the question section ends, `n` questions after `p`: each is a name
/// followed by a 4-byte type and class.
pub open spec fn skip_questions(r: Seq<u8>, p: int, n: nat) -> int
    decreases n,
{
    if n == 0 {
        p
    } else {
        skip_questions(r, question_name_end(r, p) + 4, (n - 1) as nat)
    }
}

/// Where a run of labels that starts at `p` ends: after its zero label, or at
/// the first position past the end of the reply.
pub open spec fn labels_end(r: Seq<u8>, p: int) -> int
    decreases r.len() - p,
{
    if p < 0 || p >= r.len() {
        p
    } else if r[p] == 0 {
        p + 1
    } else if p + r[p] + 1 >= r.len() {
        p + r[p] + 1
    } else {
        labels_end(r, p + r[p] + 1)
    }
}

/// Where the name of an answer record that starts at `p` ends: a name that
/// opens with a compression pointer is two bytes long.
pub open spec fn answer_name_end(r: Seq<u8>, p: int) -> int {
    if r[p] & 0xC0 == 0xC0 {
        p + 2
    } else {
        labels_end(r, p)
    }
}

/// The address a record whose fixed part starts at `q` carries: one when its
/// type is A, its data length 4 and its data inside the reply; none else.
pub open spec fn record_address(r: Seq<u8>, q: int) -> Seq<Ipv4> {
    let data = q + 10;
    if be16(r, q) == 1 && be16(r, q + 8) == 4 && data + 4 <= r.len() {
        seq![Ipv4(r[data], r[data + 1], r[data + 2], r[data + 3])]
    } else {
        seq![]
    }
}

/// The addresses of `n` answer records from `p` on, or `Incomplete` where a
/// record's name starts, or its 10-byte fixed part ends, past the reply.
pub open spec fn answers(r: Seq<u8>, p: int, n: nat) -> Result<Seq<Ipv4>, DnsError>
    decreases n,
{
    if n == 0 {
        Ok(seq![])
    } else if p >= r.len() {
        Err(DnsError::Incomplete)
    } else {
        let q = answer_name_end(r, p);
        if q + 10 > r.len() {
            Err(DnsError::Incomplete)
        } else {
            match answers(r, q + 10 + be16(r, q + 8), (n - 1) as nat) {
                Ok(rest) => Ok(record_address(r, q) + rest),
                Err(e) => Err(e),
            }
        }
    }
}

/// The outcome once the answer section is walked: an error, or the
/// addresses found, of which there must be at least one.
pub open spec fn answer_outcome(res: Result<Seq<Ipv4>, DnsError>) -> Result<Seq<Ipv4>, DnsError> {
    match res {
        Ok(ips) => if ips.len() == 0 {
            Err(DnsError::NoIpv4Address)
        } else {
            Ok(ips)
        },
        Err(e) => Err(e),
    }
}

/// What a reply to the query with id `id` says: its checks in order, then
/// the A-record addresses of its answer section.
pub open spec fn parse_reply(r: Seq<u8>, id: u16) -> Result<Seq<Ipv4>, DnsError> {
    if r.len() < 12 {
        Err(DnsError::TooShort)
    } else if be16(r, 0) != id {
        Err(DnsError::IdMismatch { expected: id, received: be16(r, 0) as u16 })
    } else if r[2] >> 7u8 != 1 {
        Err(DnsError::NotResponse)
    } else if (r[2] >> 3u8) & 0x0F != 0 {
        Err(DnsError::UnknownOpcode((r[2] >> 3u8) & 0x0F))
    } else if r[3] & 0x0F != 0 {
        Err(rcode_error(r[3] & 0x0F))
    } else if be16(r, 6) == 0 {
        Err(DnsError::NoAnswers)
    } else {
        answer_outcome(answers(r, skip_questions(r, 12, be16(r, 4) as nat), be16(r, 6) as nat))
    }
}

/// A reply whose id is not the query's is refused as such, whatever else it
/// holds.
pub proof fn lemma_id_mismatch_rejected(r: Seq<u8>, id: u16)
    requires
        r.len() >= 12,
        be16(r, 0) != id,
    ensures
        parse_reply(r, id) == Err::<Seq<Ipv4>, DnsError>(
            DnsError::IdMismatch { expected: id, received: be16(r, 0) as u16 },
        ),
{
}

/// A well-formed response to the query with RCODE 3 is refused as a name
/// error.
pub proof fn lemma_name_error_rejected(r: Seq<u8>, id: u16)
    requires
        r.len() >= 12,
        be16(r, 0) == id,
        r[2] >> 7u8 == 1,
        (r[2] >> 3u8) & 0x0F == 0,
        r[3] & 0x0F == 3,
    ensures
        parse_reply(r, id) == Err::<Seq<Ipv4>, DnsError>(DnsError::NameError),
{
}

/// `p`, or `len` where `p` lies at or past it.
pub open spec fn clamp(p: int, len: int) -> int {
    if p >= len {
        len
    } else {
        p
    }
}

/// `p + n`, or the reply length where that lies at or past it.
fn advance(p: usize, n: usize, len: usize) -> (r: usize)
    requires
        p <= len,
    ensures
        r == clamp(p + n, len as int),
{
    if n >= len - p {
        len
    } else {
        p + n
    }
}

fn read_be16(r: &[u8], i: usize) -> (v: u16)
    requires
        i + 1 < r@.len(),
    ensures
        v as int == be16(r@, i as int),
{
    r[i] as u16 * 256 + r[i + 1] as u16
}

/// The end of the question name at `p`, clamped to the reply length.
fn question_name_end_in(r: &[u8], p: usize) -> (q: usize)
    requires
        p <= r@.len(),
    ensures
        q == clamp(question_name_end(r@, p as int), r@.len() as int),
{
    let len = r.len();
    let mut pos = p;
    while pos < len
        invariant
            len == r@.len(),
            pos <= len,
            question_name_end(r@, p as int) == question_name_end(r@, pos as int),
        decreases len - pos,
    {
        let l = r[pos];
        if l == 0 {
            return pos + 1;
        }
        if l & 0xC0 == 0xC0 {
            return advance(pos, 2, len);
        }
        if l as usize >= len - pos - 1 {
            return len;
        }
        pos = pos + l as usize + 1;
    }
    pos
}

/// The end of the label run at `p`, clamped to the reply length.
fn labels_end_in(r: &[u8], p: usize) -> (q: usize)
    requires
        p <= r@.len(),
    ensures
        q == clamp(labels_end(r@, p as int), r@.len() as int),
{
    let len = r.len();
    let mut pos = p;
    while pos < len
        invariant
            len == r@.len(),
            pos <= len,
            labels_end(r@, p as int) == labels_end(r@, pos as int),
        decreases len - pos,
    {
        let l = r[pos];
        if l == 0 {
            return pos + 1;
        }
        if l as usize >= len - pos - 1 {
            return len;
        }
        pos = pos + l as usize + 1;
    }
    pos
}

/// Adds `acc` in front of the addresses of an outcome.
pub open spec fn prepend(acc: Seq<Ipv4>, res: Result<Seq<Ipv4>, DnsError>) -> Result<
    Seq<Ipv4>,
    DnsError,
> {
    match res {
        Ok(s) => Ok(acc + s),
        Err(e) => Err(e),
    }
}

/// Validates a reply to the query with id `expected_id` and collects the
/// IPv4 addresses of its A records, in order.
pub fn parse_response(response: &[u8], expected_id: u16) -> (r: Result<Vec<Ipv4>, DnsError>)
    ensures
        match parse_reply(response@, expected_id) {
            Ok(ips) => r matches Ok(v) && v@ == ips,
            Err(e) => r == Err::<Vec<Ipv4>, DnsError>(e),
        },
{
    let len = response.len();
    if len < 12 {
        return Err(DnsError::TooShort);
    }
    let id = read_be16(response, 0);
    if id != expected_id {
        return Err(DnsError::IdMismatch { expected: expected_id, received: id });
    }
    let flags_high = response[2];
    let flags_low = response[3];
    if flags_high >> 7u8 != 1 {
        return Err(DnsError::NotResponse);
    }
    let opcode = (flags_high >> 3u8) & 0x0F;
    if opcode != 0 {
        return Err(DnsError::UnknownOpcode(opcode));
    }
    let rcode = flags_low & 0x0F;
    if rcode == 1 {
        return Err(DnsError::FormatError);
    } else if rcode == 2 {
        return Err(DnsError::ServerFailure);
    } else if rcode == 3 {
        return Err(DnsError::NameError);
    } else if rcode == 4 {
        return Err(DnsError::NotImplemented);
    } else if rcode == 5 {
        return Err(DnsError::Refused);
    } else if rcode != 0 {
        return Err(DnsError::UnknownRcode(rcode));
    }
    let qdcount = read_be16(response, 4);
    let ancount = read_be16(response, 6);
    if ancount == 0 {
        return Err(DnsError::NoAnswers);
    }
    let ghost r = response@;
    assert(parse_reply(r, expected_id) == answer_outcome(
        answers(r, skip_questions(r, 12, qdcount as nat), ancount as nat),
    ));
    // The question section. `pos` is the walk's position, clamped to the
    // reply length; `sp` is the position itself.
    let mut pos: usize = 12;
    let ghost mut sp: int = 12;
    let mut k: u16 = 0;
    while k < qdcount
        invariant
            len == r.len(),
            r == response@,
            k <= qdcount,
            pos == clamp(sp, len as int),
            skip_questions(r, 12, qdcount as nat) == skip_questions(r, sp, (qdcount - k) as nat),
        decreases qdcount - k,
    {
        let name_end = question_name_end_in(response, pos);
        proof {
            if sp >= len {
                assert(question_name_end(r, sp) == sp);
            }
        }
        pos = advance(name_end, 4, len);
        proof {
            sp = question_name_end(r, sp) + 4;
        }
        k = k + 1;
    }
    // The answer section.
    let mut ips: Vec<Ipv4> = Vec::new();
    let ghost first = sp;
    assert(first == skip_questions(r, 12, qdcount as nat));
    let mut i: u16 = 0;
    while i < ancount
        invariant
            len == r.len(),
            r == response@,
            i <= ancount,
            pos == clamp(sp, len as int),
            parse_reply(r, expected_id) == answer_outcome(answers(r, first, ancount as nat)),
            answers(r, first, ancount as nat) == prepend(
                ips@,
                answers(r, sp, (ancount - i) as nat),
            ),
        decreases ancount - i,
    {
        if pos >= len {
            return Err(DnsError::Incomplete);
        }
        let q = if response[pos] & 0xC0 == 0xC0 {
            advance(pos, 2, len)
        } else {
            labels_end_in(response, pos)
        };
        if q >= len || len - q < 10 {
            return Err(DnsError::Incomplete);
        }
        let record_type = read_be16(response, q);
        let data_len = read_be16(response, q + 8) as usize;
        let data = q + 10;
        let ghost before = ips@;
        if record_type == 1 && data_len == 4 && len - data >= 4 {
            ips.push(
                Ipv4(response[data], response[data + 1], response[data + 2], response[data + 3]),
            );
        }
        assert(ips@ =~= before + record_address(r, q as int));
        pos = advance(data, data_len, len);
        proof {
            let rest = answers(r, data + data_len, (ancount - i - 1) as nat);
            assert(prepend(before, prepend(record_address(r, q as int), rest)) == prepend(
                ips@,
                rest,
            )) by {
                match rest {
                    Ok(s) => {
                        assert(before + (record_address(r, q as int) + s) =~= ips@ + s);
                    },
                    Err(e) => {},
                }
            }
            sp = data + data_len;
        }
        i = i + 1;
    }
    assert(ips@ + Seq::<Ipv4>::empty() =~= ips@);
    if ips.len() == 0 {
        return Err(DnsError::NoIpv4Address);
    }
    Ok(ips)
}

// ---------------------------------------------------------------------------
// Queries
// ---------------------------------------------------------------------------

/// The 12-byte header of a query: the id, flags 0x0100 (a standard query
/// with recursion desired), one question, no other records.
pub open spec fn query_header(id: u16) -> Seq<u8> {
    seq![(id / 256) as u8, (id % 256) as u8, 0x01, 0x00, 0x00, 0x01, 0, 0, 0, 0, 0, 0]
}

/// Each label preceded by its length in one byte.
pub open spec fn encode_labels(labels: Seq<Seq<u8>>) -> Seq<u8>
    decreases labels.len(),
{
    if labels.len() == 0 {
        Seq::<u8>::empty()
    } else {
        encode_labels(labels.drop_last()) + seq![(labels.last().len() % 256) as u8]
            + labels.last()
    }
}

/// The query for the A records of `domain`: the header, the domain's
/// dot-separated labels each behind its length, a zero byte, type A (1) and
/// class IN (1).
pub open spec fn query_packet(domain: Seq<char>, id: u16) -> Seq<u8> {
    query_header(id) + encode_labels(split_seq(encode_utf8(domain), 46u8)) + seq![0, 0, 1, 0, 1]
}

/// Appends `b[from..to]` behind its length byte.
fn push_label(q: &mut Vec<u8>, b: &[u8], from: usize, to: usize)
    requires
        from <= to <= b@.len(),
    ensures
        final(q)@ == old(q)@ + seq![((to - from) % 256) as u8] + b@.subrange(
            from as int,
            to as int,
        ),
{
    q.push(((to - from) % 256) as u8);
    let mut i = from;
    while i < to
        invariant
            from <= i <= to <= b@.len(),
            q@ == old(q)@ + seq![((to - from) % 256) as u8] + b@.subrange(from as int, i as int),
        decreases to - i,
    {
        q.push(b[i]);
        i = i + 1;
        assert(q@ =~= old(q)@ + seq![((to - from) % 256) as u8] + b@.subrange(
            from as int,
            i as int,
        ));
    }
}

/// The query asking for the A records of `domain` under transaction id `id`.
pub fn build_query(domain: &str, id: u16) -> (r: Vec<u8>)
    ensures
        r@ == query_packet(domain@, id),
{
    let mut query: Vec<u8> = Vec::new();
    query.push((id / 256) as u8);
    query.push((id % 256) as u8);
    query.push(0x01);
    query.push(0x00);
    query.push(0x00);
    query.push(0x01);
    query.push(0x00);
    query.push(0x00);
    query.push(0x00);
    query.push(0x00);
    query.push(0x00);
    query.push(0x00);
    assert(query@ =~= query_header(id));
    let b = domain.as_bytes();
    let mut start: usize = 0;
    let mut i: usize = 0;
    let ghost mut done: Seq<Seq<u8>> = seq![];
    assert(b@.subrange(0, 0) =~= Seq::<u8>::empty());
    while i < b.len()
        invariant
            start <= i <= b@.len(),
            split_seq(b@.subrange(0, i as int), 46u8) == done.push(
                b@.subrange(start as int, i as int),
            ),
            query@ == query_header(id) + encode_labels(done),
        decreases b@.len() - i,
    {
        proof {
            assert(b@.subrange(0, i + 1) =~= b@.subrange(0, i as int).push(b@[i as int]));
            lemma_split_push(b@.subrange(0, i as int), b@[i as int], 46u8);
        }
        if b[i] == 46u8 {
            push_label(&mut query, b, start, i);
            proof {
                let piece = b@.subrange(start as int, i as int);
                assert(done.push(piece).drop_last() =~= done);
                assert(query@ =~= query_header(id) + encode_labels(done.push(piece)));
                done = done.push(piece);
            }
            start = i + 1;
            assert(b@.subrange(start as int, i + 1) =~= Seq::<u8>::empty());
        } else {
            assert(b@.subrange(start as int, i + 1) =~= b@.subrange(start as int, i as int).push(
                b@[i as int],
            ));
            assert(done.push(b@.subrange(start as int, i as int)).drop_last() =~= done);
        }
        i = i + 1;
    }
    push_label(&mut query, b, start, b.len());
    proof {
        let piece = b@.subrange(start as int, b@.len() as int);
        assert(b@.subrange(0, b@.len() as int) =~= b@);
        assert(done.push(piece).drop_last() =~= done);
        assert(query@ =~= query_header(id) + encode_labels(done.push(piece)));
    }
    query.push(0x00);
    query.push(0x00);
    query.push(0x01);
    query.push(0x00);
    query.push(0x01);
    assert(query@ =~= query_packet(domain@, id));
    query
}

/// A transaction id from a clock reading: the low 16 bits of the seconds
/// XOR the low 16 bits of the nanoseconds past them.
pub open spec fn mixed_id(secs: u64, nanos: u32) -> u16 {
    ((secs % 65536) as u16) ^ ((nanos % 65536) as u16)
}

/// Derives a transaction id from a clock reading.
pub fn query_id(secs: u64, nanos: u32) -> (r: u16)
    ensures
        r == mixed_id(secs, nanos),
{
    ((secs % 65536) as u16) ^ ((nanos % 65536) as u16)
}

/// Relies on `std::time::SystemTime::now` measured from `UNIX_EPOCH`
/// (`Duration::as_secs`, `Duration::subsec_nanos`): the time now, in whole
/// seconds and the nanoseconds past them; zero for a clock set before the
/// epoch. Nothing is promised of the values.
#[verifier::external_body]
fn unix_time() -> (u64, u32) {
    let d = std::time::SystemTime::now().duration_since(std::time::UNIX_EPOCH).unwrap_or_default();
    (d.as_secs(), d.subsec_nanos())
}

/// A transaction id taken from the clock: predictable, and not meant to
/// resist spoofing.
pub fn random_id() -> u16 {
    let (secs, nanos) = unix_time();
    query_id(secs, nanos)
}

// ---------------------------------------------------------------------------
// Addresses, the hosts file and the resolver configuration
// ---------------------------------------------------------------------------

/// A dotted-quad octet as Rust's `Ipv4Addr` parser reads it: one to three
/// ASCII digits, no leading zero unless the octet is `0`, at most 255.
pub open spec fn octet_value(s: Seq<char>) -> Option<u8> {
    if 1 <= s.len() <= 3 && all_digits(s) && !(s.len() > 1 && s[0] == '0') && digits_value(s)
        <= 255 {
        Some(digits_value(s) as u8)
    } else {
        None
    }
}

/// The address a dotted quad `a.b.c.d` names.
pub open spec fn parse_ipv4(s: Seq<char>) -> Option<Ipv4> {
    let parts = split_seq(s, '.');
    if parts.len() == 4 {
        match (
            octet_value(parts[0]),
            octet_value(parts[1]),
            octet_value(parts[2]),
            octet_value(parts[3]),
        ) {
            (Some(a), Some(b), Some(c), Some(d)) => Some(Ipv4(a, b, c, d)),
            _ => None,
        }
    } else {
        None
    }
}

/// The octet `s[from..to]` spells.
fn octet_in(s: &Vec<char>, from: usize, to: usize) -> (r: Option<u8>)
    requires
        from <= to <= s@.len(),
    ensures
        r == octet_value(s@.subrange(from as int, to as int)),
{
    let ghost t = s@.subrange(from as int, to as int);
    if to - from < 1 || to - from > 3 || (to - from > 1 && s[from] == '0') {
        return None;
    }
    let mut v: u32 = 0;
    let mut i = from;
    while i < to
        invariant
            from <= i <= to <= s@.len(),
            to - from <= 3,
            t == s@.subrange(from as int, to as int),
            all_digits(s@.subrange(from as int, i as int)),
            v as nat == digits_value(s@.subrange(from as int, i as int)),
            v < 1000,
            i - from <= 3,
            v < (if i - from == 0 {
                1int
            } else if i - from == 1 {
                10int
            } else if i - from == 2 {
                100int
            } else {
                1000int
            }),
        decreases to - i,
    {
        let c = s[i];
        if !('0' <= c && c <= '9') {
            assert(t[i - from] == c);
            assert(!is_digit(t[i - from]));
            return None;
        }
        let ghost a = s@.subrange(from as int, i + 1);
        assert(a.drop_last() =~= s@.subrange(from as int, i as int));
        v = v * 10 + (c as u32 - '0' as u32);
        i = i + 1;
        assert forall|j: int| 0 <= j < a.len() implies #[trigger] is_digit(a[j]) by {
            if j < a.len() - 1 {
                assert(a[j] == s@.subrange(from as int, i - 1)[j]);
            }
        }
    }
    assert(s@.subrange(from as int, to as int) =~= t);
    if v > 255 {
        None
    } else {
        Some(v as u8)
    }
}

/// The address `s[from..to]` spells as a dotted quad.
fn ipv4_in(s: &Vec<char>, from: usize, to: usize) -> (r: Option<Ipv4>)
    requires
        from <= to <= s@.len(),
    ensures
        r == parse_ipv4(s@.subrange(from as int, to as int)),
{
    let parts = split_spans(s, from, to, '.');
    if parts.len() != 4 {
        return None;
    }
    let a = octet_in(s, parts[0].0, parts[0].1);
    let b = octet_in(s, parts[1].0, parts[1].1);
    let c = octet_in(s, parts[2].0, parts[2].1);
    let d = octet_in(s, parts[3].0, parts[3].1);
    match (a, b, c, d) {
        (Some(a), Some(b), Some(c), Some(d)) => Some(Ipv4(a, b, c, d)),
        _ => None,
    }
}

/// The address `text` spells as a dotted quad `a.b.c.d`.
pub fn parse_ipv4_literal(text: &str) -> (r: Option<Ipv4>)
    ensures
        r == parse_ipv4(text@),
{
    let cs = chars_of(text);
    assert(cs@.subrange(0, cs@.len() as int) =~= cs@);
    ipv4_in(&cs, 0, cs.len())
}

/// `ip` once for every name in `names` equal to `domain`.
pub open spec fn matching(names: Seq<Seq<char>>, domain: Seq<char>, ip: Ipv4) -> Seq<Ipv4>
    decreases names.len(),
{
    if names.len() == 0 {
        seq![]
    } else {
        matching(names.drop_last(), domain, ip) + (if names.last() == domain {
            seq![ip]
        } else {
            seq![]
        })
    }
}

/// What one line of a hosts file says of `domain`. A line is an address
/// followed by names; a blank line, a comment (its first field starts with
/// `#`), a line of one field, or one whose first field is not an address
/// says nothing.
pub open spec fn line_addresses(line: Seq<char>, domain: Seq<char>) -> Seq<Ipv4> {
    let w = words(line);
    if w.len() < 2 || w[0][0] == '#' {
        seq![]
    } else {
        match parse_ipv4(w[0]) {
            Some(ip) => matching(w.drop_first(), domain, ip),
            None => seq![],
        }
    }
}

/// What the lines of a hosts file say of `domain`, in order.
pub open spec fn hosts_addresses(lines: Seq<Seq<char>>, domain: Seq<char>) -> Seq<Ipv4>
    decreases lines.len(),
{
    if lines.len() == 0 {
        seq![]
    } else {
        hosts_addresses(lines.drop_last(), domain) + line_addresses(lines.last(), domain)
    }
}

/// The addresses a hosts file gives `domain`, if it names it at all.
pub open spec fn hosts_lookup(text: Seq<char>, domain: Seq<char>) -> Option<Seq<Ipv4>> {
    let found = hosts_addresses(split_seq(text, '\n'), domain);
    if found.len() > 0 {
        Some(found)
    } else {
        None
    }
}

/// A hosts file whose one line is a dotted-quad address and a name gives
/// that name exactly that address.
pub proof fn lemma_hosts_entry(addr: Seq<char>, name: Seq<char>, ip: Ipv4)
    requires
        parse_ipv4(addr) == Some(ip),
        has_no_space(addr),
        name.len() > 0,
        has_no_space(name),
    ensures
        hosts_lookup(addr + seq![' '] + name + seq!['\n'], name) == Some(seq![ip]),
{
    let line = addr + seq![' '] + name;
    let text = line + seq!['\n'];
    // the address opens with a digit, so it is not empty and not a comment
    lemma_split_first(addr, '.');
    let first = split_seq(addr, '.')[0];
    assert(octet_value(first) is Some);
    assert(is_digit(first[0]));
    assert(addr[0] == first[0]);
    lemma_two_words(addr, name);
    let w = words(line);
    assert(w[0][0] != '#');
    assert(w.drop_first() =~= seq![name]);
    assert(seq![name].drop_last() =~= Seq::<Seq<char>>::empty());
    assert(seq![name].last() == name);
    assert(matching(Seq::<Seq<char>>::empty(), name, ip) =~= Seq::<Ipv4>::empty());
    assert(matching(seq![name], name, ip) =~= seq![ip]);
    assert(line_addresses(line, name) == seq![ip]);
    assert forall|i: int| 0 <= i < line.len() implies line[i] != '\n' by {
        if i < addr.len() {
            assert(line[i] == addr[i]);
        } else if i > addr.len() {
            assert(line[i] == name[i - addr.len() - 1]);
        }
    }
    lemma_split_without_sep(line, '\n');
    assert(text =~= line.push('\n'));
    lemma_split_push(line, '\n', '\n');
    let lines = split_seq(text, '\n');
    assert(lines =~= seq![line, Seq::<char>::empty()]);
    assert(words(Seq::<char>::empty()) =~= Seq::<Seq<char>>::empty());
    assert(lines.drop_last() =~= seq![line]);
    assert(seq![line].drop_last() =~= Seq::<Seq<char>>::empty());
    assert(line_addresses(Seq::<char>::empty(), name) =~= Seq::<Ipv4>::empty());
    assert(hosts_addresses(Seq::<Seq<char>>::empty(), name) =~= Seq::<Ipv4>::empty());
    assert(hosts_addresses(seq![line], name) =~= seq![ip]);
    assert(lines.last() == Seq::<char>::empty());
    assert(hosts_addresses(lines, name) =~= seq![ip]);
}

/// The addresses that the hosts file text `hosts` lists for `domain`, in the
/// order of its lines; `None` where it lists none.
pub fn resolve_from_hosts(hosts: &str, domain: &str) -> (r: Option<Vec<Ipv4>>)
    ensures
        match hosts_lookup(hosts@, domain@) {
            Some(ips) => r matches Some(v) && v@ == ips,
            None => r is None,
        },
{
    let cs = chars_of(hosts);
    let dc = chars_of(domain);
    let lines = split_spans(&cs, 0, cs.len(), '\n');
    let ghost all = split_seq(cs@.subrange(0, cs@.len() as int), '\n');
    assert(cs@.subrange(0, cs@.len() as int) =~= hosts@);
    let mut found: Vec<Ipv4> = Vec::new();
    let mut k: usize = 0;
    while k < lines.len()
        invariant
            k <= lines@.len(),
            all.len() == lines@.len(),
            all == split_seq(hosts@, '\n'),
            cs@ == hosts@,
            dc@ == domain@,
            forall|m: int|
                0 <= m < lines@.len() ==> (#[trigger] lines@[m]).0 <= lines@[m].1 <= cs@.len()
                    && cs@.subrange(lines@[m].0 as int, lines@[m].1 as int) == all[m],
            found@ == hosts_addresses(all.subrange(0, k as int), domain@),
        decreases lines@.len() - k,
    {
        let (a, b) = lines[k];
        let ghost line = all[k as int];
        let ws = word_spans(&cs, a, b);
        let ghost w = words(line);
        let ghost before = found@;
        if ws.len() >= 2 && cs[ws[0].0] != '#' {
            assert(w[0][0] == cs@[ws@[0].0 as int]);
            if let Some(ip) = ipv4_in(&cs, ws[0].0, ws[0].1) {
                let mut j: usize = 1;
                assert(w.drop_first().subrange(0, 0) =~= Seq::<Seq<char>>::empty());
                while j < ws.len()
                    invariant
                        1 <= j <= ws@.len(),
                        ws@.len() == w.len(),
                        w == words(line),
                        forall|m: int|
                            0 <= m < ws@.len() ==> (#[trigger] ws@[m]).0 < ws@[m].1 <= cs@.len()
                                && cs@.subrange(ws@[m].0 as int, ws@[m].1 as int) == w[m],
                        dc@ == domain@,
                        found@ == before + matching(
                            w.drop_first().subrange(0, j - 1),
                            domain@,
                            ip,
                        ),
                    decreases ws@.len() - j,
                {
                    let ghost names = w.drop_first().subrange(0, j as int);
                    assert(names.drop_last() =~= w.drop_first().subrange(0, j - 1));
                    assert(names.last() == w[j as int]);
                    if span_equals(&cs, ws[j].0, ws[j].1, &dc) {
                        found.push(ip);
                    }
                    assert(found@ =~= before + matching(names, domain@, ip));
                    j = j + 1;
                }
                assert(w.drop_first().subrange(0, ws@.len() - 1) =~= w.drop_first());
            }
        }
        proof {
            let done = all.subrange(0, k + 1);
            assert(done.drop_last() =~= all.subrange(0, k as int));
            assert(found@ =~= before + line_addresses(line, domain@));
        }
        k = k + 1;
    }
    assert(all.subrange(0, lines@.len() as int) =~= all);
    if found.len() == 0 {
        None
    } else {
        Some(found)
    }
}

/// The nameserver one line of a resolver configuration names: its second
/// field, where the line starts with `nameserver`.
pub open spec fn line_nameserver(line: Seq<char>) -> Seq<Seq<char>> {
    if starts_with(line, "nameserver"@) && words(line).len() >= 2 {
        seq![words(line)[1]]
    } else {
        seq![]
    }
}

/// The nameservers a resolver configuration names, in order.
pub open spec fn nameservers(lines: Seq<Seq<char>>) -> Seq<Seq<char>>
    decreases lines.len(),
{
    if lines.len() == 0 {
        seq![]
    } else {
        nameservers(lines.drop_last()) + line_nameserver(lines.last())
    }
}

pub open spec fn nameserver_list(text: Seq<char>) -> Seq<Seq<char>> {
    nameservers(split_seq(text, '\n'))
}

/// Whether `s[from..to]` starts with `nameserver`.
fn names_a_server(s: &Vec<char>, from: usize, to: usize) -> (r: bool)
    requires
        from <= to <= s@.len(),
    ensures
        r == starts_with(s@.subrange(from as int, to as int), "nameserver"@),
{
    let key = chars_of("nameserver");
    proof {
        reveal_strlit("nameserver");
    }
    if to - from < key.len() {
        return false;
    }
    let r = span_equals(s, from, from + key.len(), &key);
    assert(s@.subrange(from as int, to as int).subrange(0, key@.len() as int) =~= s@.subrange(
        from as int,
        from + key@.len(),
    ));
    r
}

/// The nameservers that the resolver configuration text `conf` names, in
/// order; `NoNameserver` where it names none.
pub fn get_system_dns_servers(conf: &str) -> (r: Result<Vec<String>, DnsError>)
    ensures
        nameserver_list(conf@).len() == 0 ==> r == Err::<Vec<String>, DnsError>(
            DnsError::NoNameserver,
        ),
        nameserver_list(conf@).len() > 0 ==> (r matches Ok(v) && v@.len() == nameserver_list(
            conf@,
        ).len() && forall|i: int| 0 <= i < v@.len() ==> #[trigger] v@[i]@ == nameserver_list(
            conf@,
        )[i]),
{
    let cs = chars_of(conf);
    let lines = split_spans(&cs, 0, cs.len(), '\n');
    let ghost all = split_seq(cs@.subrange(0, cs@.len() as int), '\n');
    assert(cs@.subrange(0, cs@.len() as int) =~= conf@);
    let mut servers: Vec<String> = Vec::new();
    let mut k: usize = 0;
    while k < lines.len()
        invariant
            k <= lines@.len(),
            all.len() == lines@.len(),
            all == split_seq(conf@, '\n'),
            cs@ == conf@,
            forall|m: int|
                0 <= m < lines@.len() ==> (#[trigger] lines@[m]).0 <= lines@[m].1 <= cs@.len()
                    && cs@.subrange(lines@[m].0 as int, lines@[m].1 as int) == all[m],
            servers@.len() == nameservers(all.subrange(0, k as int)).len(),
            forall|i: int|
                0 <= i < servers@.len() ==> #[trigger] servers@[i]@ == nameservers(
                    all.subrange(0, k as int),
                )[i],
        decreases lines@.len() - k,
    {
        let (a, b) = lines[k];
        let ghost line = all[k as int];
        let ghost before = nameservers(all.subrange(0, k as int));
        if names_a_server(&cs, a, b) {
            let ws = word_spans(&cs, a, b);
            if ws.len() >= 2 {
                servers.push(conf.substring_char(ws[1].0, ws[1].1).to_owned());
            }
        }
        proof {
            let done = all.subrange(0, k + 1);
            assert(done.drop_last() =~= all.subrange(0, k as int));
            assert(nameservers(done) == before + line_nameserver(line));
        }
        k = k + 1;
    }
    assert(all.subrange(0, lines@.len() as int) =~= all);
    if servers.len() == 0 {
        Err(DnsError::NoNameserver)
    } else {
        Ok(servers)
    }
}

// ---------------------------------------------------------------------------
// Resolution
// ---------------------------------------------------------------------------

/// How far a resolution has come.
#[derive(Debug, Clone, Copy, PartialEq, Eq)]
pub enum Stage {
    /// Waiting for the hosts file.
    Hosts,
    /// Waiting for the resolver configuration.
    Config,
    /// Waiting for the nameserver's reply.
    Reply,
    /// Over.
    Done,
}

/// What the driver of a resolution does next.
#[derive(Debug)]
pub enum ResolveAction {
    /// Read the hosts file and hand its text to `on_hosts`.
    ReadHosts,
    /// Read the resolver configuration and hand its text to `on_config`.
    ReadConfig,
    /// Send `packet` in one UDP datagram to port 53 of `server`, wait at most
    /// five seconds for one datagram of up to 512 bytes, and hand it to
    /// `on_reply`.
    Send { server: String, packet: Vec<u8> },
    /// The resolution is over, with this outcome.
    Finish(Result<Vec<Ipv4>, DnsError>),
}

/// One resolution of a name to IPv4 addresses: the hosts file decides first;
/// otherwise one query goes to the first configured nameserver, with no
/// retry and no fallback.
pub struct Resolution {
    domain: String,
    id: u16,
    stage: Stage,
}

pub struct ResolutionView {
    pub domain: Seq<char>,
    pub id: u16,
    pub stage: Stage,
}

impl View for Resolution {
    type V = ResolutionView;

    closed spec fn view(&self) -> ResolutionView {
        ResolutionView { domain: self.domain@, id: self.id, stage: self.stage }
    }
}

impl Resolution {
    /// Starts resolving `domain`; the hosts file comes first.
    pub fn new(domain: &str) -> (r: (Resolution, ResolveAction))
        ensures
            r.0@.domain == domain@,
            r.0@.stage == Stage::Hosts,
            r.1 is ReadHosts,
    {
        (Resolution { domain: domain.to_owned(), id: 0, stage: Stage::Hosts }, ResolveAction::ReadHosts)
    }

    /// Takes the hosts file's text: where it lists the name, those addresses
    /// are the outcome and no query is sent.
    pub fn on_hosts(&mut self, hosts: &str) -> (a: ResolveAction)
        requires
            old(self)@.stage == Stage::Hosts,
        ensures
            final(self)@.domain == old(self)@.domain,
            match hosts_lookup(hosts@, old(self)@.domain) {
                Some(ips) => final(self)@.stage == Stage::Done && (a matches ResolveAction::Finish(
                    Ok(v),
                ) && v@ == ips),
                None => final(self)@.stage == Stage::Config && a is ReadConfig,
            },
    {
        match resolve_from_hosts(hosts, self.domain.as_str()) {
            Some(ips) => {
                self.stage = Stage::Done;
                ResolveAction::Finish(Ok(ips))
            },
            None => {
                self.stage = Stage::Config;
                ResolveAction::ReadConfig
            },
        }
    }

    /// Takes the resolver configuration's text: the query goes to the first
    /// nameserver it names, under a fresh transaction id.
    pub fn on_config(&mut self, conf: &str) -> (a: ResolveAction)
        requires
            old(self)@.stage == Stage::Config,
        ensures
            final(self)@.domain == old(self)@.domain,
            nameserver_list(conf@).len() == 0 ==> final(self)@.stage == Stage::Done && (
            a matches ResolveAction::Finish(Err(e)) && e == DnsError::NoNameserver),
            nameserver_list(conf@).len() > 0 ==> final(self)@.stage == Stage::Reply && (
            a matches ResolveAction::Send { server, packet } && server@ == nameserver_list(
                conf@,
            )[0] && packet@ == query_packet(final(self)@.domain, final(self)@.id)),
    {
        match get_system_dns_servers(conf) {
            Err(e) => {
                self.stage = Stage::Done;
                ResolveAction::Finish(Err(e))
            },
            Ok(servers) => {
                let id = random_id();
                self.id = id;
                self.stage = Stage::Reply;
                let packet = build_query(self.domain.as_str(), id);
                ResolveAction::Send { server: servers[0].clone(), packet }
            },
        }
    }

    /// Takes the nameserver's reply: its addresses, or why it was refused.
    pub fn on_reply(&mut self, reply: &[u8]) -> (a: ResolveAction)
        requires
            old(self)@.stage == Stage::Reply,
        ensures
            final(self)@.domain == old(self)@.domain,
            final(self)@.id == old(self)@.id,
            final(self)@.stage == Stage::Done,
            match parse_reply(reply@, old(self)@.id) {
                Ok(ips) => a matches ResolveAction::Finish(Ok(v)) && v@ == ips,
                Err(e) => a matches ResolveAction::Finish(Err(x)) && x == e,
            },
    {
        self.stage = Stage::Done;
        ResolveAction::Finish(parse_response(reply, self.id))
    }
}

} // verus!
