//! Reading a request: where its head ends, what its head says, and how much
//! body remains to be read.

use vstd::prelude::*;
use vstd::utf8::{decode_utf8, valid_utf8};
use crate::error::string_from_utf8;
use crate::text::{chars_of, eq_ic, find_char, lead_len, trail_len, trim_end, position_of, string_of, trim, trim_bounds, trim_start, lead_run, window_eq_ic, CharClass};
use super::http::{decimal, find_bytes, first_occurrence};
use super::MAX_M3U8_SIZE;

verus! {

/// Largest request head, in bytes, that is read.
pub const MAX_HEAD_SIZE: usize = 65536;

/// Largest piece of body read at once, in bytes.
pub const BODY_CHUNK_SIZE: usize = 8192;

/// The blank line that ends a request head.
pub open spec fn head_terminator() -> Seq<u8> {
    seq![13, 10, 13, 10]
}

/// Why a request could not be read.
#[derive(Debug)]
pub enum RequestError {
    /// The connection closed before the head was complete.
    ClosedBeforeHead,
    /// The head grew past [`MAX_HEAD_SIZE`] bytes.
    HeadTooLarge,
    /// The head is not UTF-8.
    HeadNotUtf8(std::string::FromUtf8Error),
    /// The request line names no method.
    MissingMethod,
    /// The request line names no path.
    MissingPath,
    /// A `Content-Length` header is not a number.
    InvalidContentLength,
    /// The announced body is larger than [`MAX_M3U8_SIZE`].
    BodyTooLarge,
    /// The body is chunked, which is not supported.
    ChunkedBody,
    /// The connection closed before the whole body arrived.
    ClosedBeforeBody,
}

/// Where a request head ends, from the bytes received so far: an error once
/// they are more than [`MAX_HEAD_SIZE`], else the position after the first
/// blank line, if it has arrived.
pub fn scan_head(received: &[u8]) -> (r: Result<Option<usize>, RequestError>)
    ensures
        received@.len() > MAX_HEAD_SIZE ==> r matches Err(RequestError::HeadTooLarge),
        received@.len() <= MAX_HEAD_SIZE ==> match first_occurrence(received@, head_terminator()) {
            Some(i) => r == Ok::<Option<usize>, RequestError>(Some((i + 4) as usize)),
            None => r == Ok::<Option<usize>, RequestError>(None),
        },
{
    if received.len() > MAX_HEAD_SIZE {
        return Err(RequestError::HeadTooLarge);
    }
    let terminator: [u8; 4] = [13, 10, 13, 10];
    assert(terminator@ =~= head_terminator());
    match find_bytes(received, &terminator) {
        Some(i) => {
            proof {
                super::http::lemma_first_occurrence_bound(received@, head_terminator());
            }
            Ok(Some(i + 4))
        },
        None => Ok(None),
    }
}

/// Index of the first `\r\n` in `s`.
pub open spec fn find_crlf(s: Seq<char>) -> Option<int>
    decreases s.len(),
{
    if s.len() < 2 {
        None
    } else if s[0] == '\r' && s[1] == '\n' {
        Some(0)
    } else {
        match find_crlf(s.drop_first()) {
            Some(i) => Some(i + 1),
            None => None,
        }
    }
}

/// Whether `s` has `\r\n` at `i`.
pub open spec fn crlf_at(s: Seq<char>, i: int) -> bool {
    0 <= i && i + 1 < s.len() && s[i] == '\r' && s[i + 1] == '\n'
}

proof fn lemma_find_crlf(s: Seq<char>, k: int)
    requires
        0 <= k,
        forall|j: int| 0 <= j < k ==> !crlf_at(s, j),
        crlf_at(s, k) || k + 1 >= s.len(),
    ensures
        find_crlf(s) == (if crlf_at(s, k) { Some(k) } else { None::<int> }),
    decreases k,
{
    if k > 0 && s.len() >= 2 {
        let t = s.drop_first();
        assert(!crlf_at(s, 0));
        assert forall|j: int| 0 <= j < k - 1 implies !crlf_at(t, j) by {
            if crlf_at(t, j) {
                assert(crlf_at(s, j + 1));
            }
        }
        if crlf_at(s, k) {
            assert(crlf_at(t, k - 1));
        } else if crlf_at(t, k - 1) {
            assert(crlf_at(s, k));
        }
        lemma_find_crlf(t, k - 1);
    }
}

/// First `i` in `[lo, hi)` with `\r\n` at `i` in `v[lo..hi]`.
fn position_of_crlf(v: &Vec<char>, lo: usize, hi: usize) -> (r: Option<usize>)
    requires
        lo <= hi <= v.len(),
    ensures
        match r {
            Some(i) => lo <= i && i + 2 <= hi && find_crlf(v@.subrange(lo as int, hi as int)) == Some(i - lo),
            None => find_crlf(v@.subrange(lo as int, hi as int)) is None,
        },
{
    let ghost s = v@.subrange(lo as int, hi as int);
    let mut i = lo;
    while hi - i >= 2
        invariant
            lo <= i <= hi <= v.len(),
            s == v@.subrange(lo as int, hi as int),
            forall|j: int| 0 <= j < i - lo ==> !crlf_at(s, j),
        decreases hi - i,
    {
        if v[i] == '\r' && v[i + 1] == '\n' {
            proof {
                assert(crlf_at(s, i - lo));
                lemma_find_crlf(s, i - lo);
            }
            return Some(i);
        }
        assert(!crlf_at(s, i - lo));
        i += 1;
    }
    proof {
        lemma_find_crlf(s, i - lo);
    }
    None
}

/// Whether every character of `s` is an ASCII decimal digit.
pub open spec fn all_digits(s: Seq<char>) -> bool {
    forall|i: int| 0 <= i < s.len() ==> 48 <= #[trigger] s[i] as u32 <= 57
}

/// The number that a string of decimal digits writes.
pub open spec fn digits_value(s: Seq<char>) -> nat
    decreases s.len(),
{
    if s.len() == 0 {
        0
    } else {
        digits_value(s.drop_last()) * 10 + (s.last() as u32 - 48) as nat
    }
}

/// `str::parse::<usize>`: an optional `+` followed by at least one decimal
/// digit, the value fitting in `usize`.
pub open spec fn parse_usize(s: Seq<char>) -> Option<usize> {
    let d = if s.len() > 0 && s[0] == '+' {
        s.drop_first()
    } else {
        s
    };
    if d.len() > 0 && all_digits(d) && digits_value(d) <= usize::MAX {
        Some(digits_value(d) as usize)
    } else {
        None
    }
}

proof fn lemma_digits_value_grows(s: Seq<char>, i: int)
    requires
        0 <= i <= s.len(),
        all_digits(s),
    ensures
        digits_value(s.take(i)) <= digits_value(s),
    decreases s.len() - i,
{
    if i < s.len() {
        lemma_digits_value_grows(s, i + 1);
        assert(s.take(i + 1).drop_last() =~= s.take(i));
    } else {
        assert(s.take(i) =~= s);
    }
}

/// [`parse_usize`] of the characters `v[lo..hi]`.
fn parse_usize_window(v: &Vec<char>, lo: usize, hi: usize) -> (r: Option<usize>)
    requires
        lo <= hi <= v.len(),
    ensures
        r == parse_usize(v@.subrange(lo as int, hi as int)),
{
    let ghost s = v@.subrange(lo as int, hi as int);
    let start = if lo < hi && v[lo] == '+' { lo + 1 } else { lo };
    let ghost d = v@.subrange(start as int, hi as int);
    assert(d =~= (if s.len() > 0 && s[0] == '+' { s.drop_first() } else { s }));
    if start == hi {
        return None;
    }
    let mut value: usize = 0;
    let mut i = start;
    while i < hi
        invariant
            start <= i <= hi <= v.len(),
            s == v@.subrange(lo as int, hi as int),
            d == (if s.len() > 0 && s[0] == '+' { s.drop_first() } else { s }),
            d == v@.subrange(start as int, hi as int),
            all_digits(d.take(i - start)),
            value == digits_value(d.take(i - start)),
        decreases hi - i,
    {
        let c = v[i] as u32;
        let ghost t = d.take(i - start + 1);
        assert(t.drop_last() =~= d.take(i - start));
        assert(t.last() == v@[i as int]);
        if c < 48 || c > 57 {
            assert(!all_digits(d)) by {
                assert(d[i - start] == v@[i as int]);
            }
            return None;
        }
        assert(all_digits(t)) by {
            assert forall|j: int| 0 <= j < t.len() implies 48 <= #[trigger] t[j] as u32 <= 57 by {
                if j < t.len() - 1 {
                    assert(t[j] == d.take(i - start)[j]);
                }
            }
        }
        let digit = (c - 48) as usize;
        match value.checked_mul(10) {
            None => {
                proof {
                    if all_digits(d) {
                        lemma_digits_value_grows(d, i - start + 1);
                    }
                }
                return None;
            },
            Some(m) => match m.checked_add(digit) {
                None => {
                    proof {
                        if all_digits(d) {
                            lemma_digits_value_grows(d, i - start + 1);
                        }
                    }
                    return None;
                },
                Some(n) => {
                    value = n;
                },
            },
        }
        i += 1;
    }
    assert(d.take(hi - start) =~= d);
    Some(value)
}

/// The first word of `s` and what follows it, as `split_whitespace` finds it.
pub open spec fn first_word(s: Seq<char>) -> Option<(Seq<char>, Seq<char>)> {
    let u = trim_start(s, CharClass::Whitespace);
    if u.len() == 0 {
        None
    } else {
        let n = lead_len(u, CharClass::NotWhitespace);
        Some((u.take(n as int), u.skip(n as int)))
    }
}

/// Bounds of the first word of `v[lo..hi]`.
fn first_word_bounds(v: &Vec<char>, lo: usize, hi: usize) -> (r: Option<(usize, usize)>)
    requires
        lo <= hi <= v.len(),
    ensures
        match first_word(v@.subrange(lo as int, hi as int)) {
            Some((w, rest)) => r matches Some((a, b)) && lo <= a <= b <= hi && w == v@.subrange(a as int, b as int)
                && rest == v@.subrange(b as int, hi as int),
            None => r is None,
        },
{
    let a = lo + lead_run(v, lo, hi, CharClass::Whitespace);
    let ghost s = v@.subrange(lo as int, hi as int);
    assert(trim_start(s, CharClass::Whitespace) =~= v@.subrange(a as int, hi as int));
    if a == hi {
        return None;
    }
    let n = lead_run(v, a, hi, CharClass::NotWhitespace);
    let ghost u = v@.subrange(a as int, hi as int);
    assert(u.take(n as int) =~= v@.subrange(a as int, (a + n) as int));
    assert(u.skip(n as int) =~= v@.subrange((a + n) as int, hi as int));
    Some((a, a + n))
}

/// The name of the header that gives the body's length.
pub open spec fn content_length_name() -> Seq<char> {
    "content-length"@
}

/// The name of the header that gives the body's transfer coding.
pub open spec fn transfer_encoding_name() -> Seq<char> {
    "transfer-encoding"@
}

/// The transfer coding that is refused.
pub open spec fn chunked_coding() -> Seq<char> {
    "chunked"@
}

/// The effect of one header line on the body length and chunked flag read
/// so far; `None` where a `Content-Length` is not a number.
pub open spec fn header_step(line: Seq<char>, length: usize, chunked: bool) -> Option<(usize, bool)> {
    match find_char(line, ':') {
        None => Some((length, chunked)),
        Some(k) => {
            let name = line.take(k);
            let value = line.skip(k + 1);
            if eq_ic(name, content_length_name()) {
                match parse_usize(trim(value)) {
                    Some(n) => Some((n, chunked)),
                    None => None,
                }
            } else if eq_ic(name, transfer_encoding_name()) && eq_ic(trim(value), chunked_coding()) {
                Some((length, true))
            } else {
                Some((length, chunked))
            }
        },
    }
}

/// The body length and chunked flag after the `\r\n`-separated header lines of `s`.
pub open spec fn scan_headers(s: Seq<char>, length: usize, chunked: bool) -> Option<(usize, bool)>
    decreases s.len(),
{
    match find_crlf(s) {
        None => header_step(s, length, chunked),
        Some(i) => match header_step(s.take(i), length, chunked) {
            None => None,
            Some((l, c)) => if 0 <= i && i + 2 <= s.len() {
                scan_headers(s.skip(i + 2), l, c)
            } else {
                None
            },
        },
    }
}

/// What a request head says.
#[derive(Debug)]
pub struct RequestHead {
    /// The method.
    pub method: String,
    /// The request target.
    pub path: String,
    /// The announced body length, zero when none is announced.
    pub content_length: usize,
}

/// The model of reading a request head.
pub enum HeadParse {
    Parsed { method: Seq<char>, path: Seq<char>, content_length: usize },
    NotUtf8,
    MissingMethod,
    MissingPath,
    InvalidContentLength,
    BodyTooLarge,
    ChunkedBody,
}

/// What the bytes of a request head (up to and with its blank line) say:
/// method and path are the first two words of the first line, the later
/// lines are headers.
pub open spec fn spec_parse_head(bytes: Seq<u8>) -> HeadParse {
    if !valid_utf8(bytes) {
        HeadParse::NotUtf8
    } else {
        let text = decode_utf8(bytes);
        let line = match find_crlf(text) {
            Some(i) => text.take(i),
            None => text,
        };
        let headers = match find_crlf(text) {
            Some(i) => scan_headers(text.skip(i + 2), 0, false),
            None => Some((0usize, false)),
        };
        match first_word(line) {
            None => HeadParse::MissingMethod,
            Some((method, after)) => match first_word(after) {
                None => HeadParse::MissingPath,
                Some((path, _)) => match headers {
                    None => HeadParse::InvalidContentLength,
                    Some((length, chunked)) => if length > MAX_M3U8_SIZE {
                        HeadParse::BodyTooLarge
                    } else if chunked {
                        HeadParse::ChunkedBody
                    } else {
                        HeadParse::Parsed { method, path, content_length: length }
                    },
                },
            },
        }
    }
}

/// [`header_step`] of the line `v[lo..hi]`.
fn step_header(v: &Vec<char>, lo: usize, hi: usize, length: usize, chunked: bool, names: &(Vec<char>, Vec<char>, Vec<char>)) -> (r: Option<(usize, bool)>)
    requires
        lo <= hi <= v.len(),
        names.0@ == content_length_name(),
        names.1@ == transfer_encoding_name(),
        names.2@ == chunked_coding(),
    ensures
        r == header_step(v@.subrange(lo as int, hi as int), length, chunked),
{
    let ghost line = v@.subrange(lo as int, hi as int);
    match position_of(v, lo, hi, ':') {
        None => Some((length, chunked)),
        Some(k) => {
            assert(line.take(k - lo) =~= v@.subrange(lo as int, k as int));
            assert(line.skip(k - lo + 1) =~= v@.subrange(k + 1, hi as int));
            let (a, b) = trim_bounds(v, k + 1, hi);
            if window_eq_ic(v, lo, k, &names.0) {
                match parse_usize_window(v, a, b) {
                    Some(n) => Some((n, chunked)),
                    None => None,
                }
            } else if window_eq_ic(v, lo, k, &names.1) && window_eq_ic(v, a, b, &names.2) {
                Some((length, true))
            } else {
                Some((length, chunked))
            }
        },
    }
}

/// Reads a request head: its method, path and announced body length.
#[verifier::loop_isolation(false)]
pub fn parse_head(head: &[u8]) -> (r: Result<RequestHead, RequestError>)
    ensures
        match spec_parse_head(head@) {
            HeadParse::Parsed { method, path, content_length } => r matches Ok(h) && h.method@ == method
                && h.path@ == path && h.content_length == content_length,
            HeadParse::NotUtf8 => r matches Err(RequestError::HeadNotUtf8(_)),
            HeadParse::MissingMethod => r matches Err(RequestError::MissingMethod),
            HeadParse::MissingPath => r matches Err(RequestError::MissingPath),
            HeadParse::InvalidContentLength => r matches Err(RequestError::InvalidContentLength),
            HeadParse::BodyTooLarge => r matches Err(RequestError::BodyTooLarge),
            HeadParse::ChunkedBody => r matches Err(RequestError::ChunkedBody),
        },
{
    let mut bytes: Vec<u8> = Vec::new();
    bytes.extend_from_slice(head);
    assert(bytes@ =~= head@);
    let text = match string_from_utf8(bytes) {
        Ok(t) => t,
        Err(e) => {
            return Err(RequestError::HeadNotUtf8(e));
        },
    };
    let v = chars_of(text.as_str());
    let ghost t = v@;
    assert(v@.subrange(0, v@.len() as int) == v@);
    let names = (chars_of("content-length"), chars_of("transfer-encoding"), chars_of("chunked"));
    let (line_end, rest_start) = match position_of_crlf(&v, 0, v.len()) {
        Some(i) => (i, i + 2),
        None => (v.len(), v.len()),
    };
    assert(match find_crlf(t) {
        Some(i) => t.take(i) == v@.subrange(0, line_end as int),
        None => t == v@.subrange(0, line_end as int),
    });
    let (m0, m1) = match first_word_bounds(&v, 0, line_end) {
        None => {
            return Err(RequestError::MissingMethod);
        },
        Some(b) => b,
    };
    let (p0, p1) = match first_word_bounds(&v, m1, line_end) {
        None => {
            return Err(RequestError::MissingPath);
        },
        Some(b) => b,
    };
    let mut length: usize = 0;
    let mut chunked = false;
    let mut pos = rest_start;
    let ghost headers = match find_crlf(t) {
        Some(i) => scan_headers(t.skip(i + 2), 0, false),
        None => Some((0usize, false)),
    };
    if rest_start < v.len() || line_end < v.len() {
        assert(find_crlf(t) is Some);
        assert(t.skip(rest_start as int) =~= v@.subrange(rest_start as int, v@.len() as int));
        loop
            invariant
                rest_start <= pos <= v.len(),
                names.0@ == content_length_name(),
                names.1@ == transfer_encoding_name(),
                names.2@ == chunked_coding(),
                headers == scan_headers(v@.subrange(pos as int, v@.len() as int), length, chunked),
            decreases v.len() - pos,
        {
            let ghost s = v@.subrange(pos as int, v@.len() as int);
            match position_of_crlf(&v, pos, v.len()) {
                None => {
                    match step_header(&v, pos, v.len(), length, chunked, &names) {
                        None => {
                            return Err(RequestError::InvalidContentLength);
                        },
                        Some((l, c)) => {
                            length = l;
                            chunked = c;
                            break;
                        },
                    }
                },
                Some(i) => {
                    assert(s.take(i - pos) =~= v@.subrange(pos as int, i as int));
                    assert(s.skip(i - pos + 2) =~= v@.subrange(i + 2, v@.len() as int));
                    match step_header(&v, pos, i, length, chunked, &names) {
                        None => {
                            return Err(RequestError::InvalidContentLength);
                        },
                        Some((l, c)) => {
                            length = l;
                            chunked = c;
                            pos = i + 2;
                        },
                    }
                },
            }
        }
    }
    if length > MAX_M3U8_SIZE {
        return Err(RequestError::BodyTooLarge);
    }
    if chunked {
        return Err(RequestError::ChunkedBody);
    }
    Ok(RequestHead { method: string_of(&v, m0, m1), path: string_of(&v, p0, p1), content_length: length })
}

/// The body bytes that arrived with the head: what follows it, cut to the
/// announced length.
pub fn initial_body(received: &[u8], head_end: usize, content_length: usize) -> (body: Vec<u8>)
    requires
        head_end <= received@.len(),
    ensures
        body@ == received@.skip(head_end as int).take(
            if received@.len() - head_end > content_length { content_length as int } else { received@.len() - head_end },
        ),
{
    let mut body: Vec<u8> = Vec::new();
    let end = if received.len() - head_end > content_length { head_end + content_length } else { received.len() };
    let mut i = head_end;
    while i < end
        invariant
            head_end <= i <= end <= received@.len(),
            body@ == received@.subrange(head_end as int, i as int),
        decreases end - i,
    {
        body.push(received[i]);
        assert(received@.subrange(head_end as int, i + 1) =~= received@.subrange(head_end as int, i as int).push(received@[i as int]));
        i += 1;
    }
    assert(body@ =~= received@.skip(head_end as int).take(end - head_end));
    body
}

/// How many bytes to read next for a body of `content_length` bytes of
/// which `have` arrived: `None` once the whole body is there, else what is
/// missing, at most [`BODY_CHUNK_SIZE`].
pub fn next_read_len(have: usize, content_length: usize) -> (n: Option<usize>)
    ensures
        have >= content_length ==> n is None,
        have < content_length ==> n == Some(
            if content_length - have < BODY_CHUNK_SIZE { (content_length - have) as usize } else { BODY_CHUNK_SIZE },
        ),
{
    if have >= content_length {
        return None;
    }
    let remaining = content_length - have;
    if remaining < BODY_CHUNK_SIZE {
        Some(remaining)
    } else {
        Some(BODY_CHUNK_SIZE)
    }
}


/// The decimal text of a number is made of digits that write that number.
proof fn lemma_decimal_digits(n: nat)
    ensures
        decimal(n).len() > 0,
        all_digits(decimal(n)),
        digits_value(decimal(n)) == n,
    decreases n,
{
    let d = decimal(n);
    if n < 10 {
        assert(d.drop_last() =~= Seq::<char>::empty());
        assert(d[0] as u32 == 48 + n);
        assert(digits_value(d) == digits_value(d.drop_last()) * 10 + (d.last() as u32 - 48) as nat);
    } else {
        lemma_decimal_digits(n / 10);
        let p = decimal(n / 10);
        assert(d.drop_last() =~= p);
        assert(d.last() as u32 == 48 + n % 10);
        assert forall|i: int| 0 <= i < d.len() implies 48 <= #[trigger] d[i] as u32 <= 57 by {
            if i < d.len() - 1 {
                assert(d[i] == p[i]);
            }
        }
        assert(digits_value(d) == digits_value(p) * 10 + (d.last() as u32 - 48) as nat);
        assert(n == (n / 10) * 10 + n % 10) by (nonlinear_arith);
    }
}

/// `str::parse::<usize>` reads the decimal text of a number back as that number.
pub proof fn law_parse_usize_decimal(n: usize)
    ensures
        parse_usize(decimal(n as nat)) == Some(n),
{
    lemma_decimal_digits(n as nat);
    let d = decimal(n as nat);
    assert(d[0] as u32 >= 48);
}

/// Where `s` holds no carriage return, the first `\r\n` of `s` followed by
/// `\r\n` is the one right after `s`.
proof fn lemma_find_crlf_after(s: Seq<char>, t: Seq<char>)
    requires
        forall|i: int| 0 <= i < s.len() ==> #[trigger] s[i] != '\r',
    ensures
        find_crlf(s + seq!['\r', '\n'] + t) == Some(s.len() as int),
{
    let x = s + seq!['\r', '\n'] + t;
    assert forall|j: int| 0 <= j < s.len() implies !crlf_at(x, j) by {
        assert(x[j] == s[j]);
    }
    assert(x[s.len() as int] == '\r' && x[s.len() as int + 1] == '\n');
    lemma_find_crlf(x, s.len() as int);
}

/// The request head that uploads a playlist of `n` bytes.
pub open spec fn upload_head(n: nat) -> Seq<char> {
    "POST /api/m3u8 HTTP/1.1"@ + seq!['\r', '\n'] + "Content-Length: "@ + decimal(n) + seq!['\r', '\n', '\r', '\n']
}

/// The header line `Content-Length: <n in decimal>` sets the body length to `n`.
proof fn lemma_content_length_line(n: usize)
    ensures
        header_step("Content-Length: "@ + decimal(n as nat), 0, false) == Some((n, false)),
        forall|i: int| 0 <= i < ("Content-Length: "@ + decimal(n as nat)).len() ==> #[trigger] ("Content-Length: "@
            + decimal(n as nat))[i] != '\r',
{
    reveal_strlit("Content-Length: ");
    reveal_strlit("Content-Length");
    reveal_strlit("content-length");
    let key = "Content-Length: "@;
    let d = decimal(n as nat);
    let h = key + d;
    lemma_decimal_digits(n as nat);
    law_parse_usize_decimal(n);
    assert(key.len() == 16);
    assert forall|i: int| 0 <= i < h.len() implies #[trigger] h[i] != '\r' by {
        if i >= key.len() {
            assert(h[i] == d[i - key.len()]);
            assert(48 <= d[i - key.len()] as u32 <= 57);
        } else {
            assert(h[i] == key[i]);
        }
    }
    assert(forall|j: int| 0 <= j < 14 ==> #[trigger] h[j] != ':');
    assert(h[14] == ':');
    crate::text::lemma_find_char(h, ':', 14);
    assert(h.take(14) =~= "Content-Length"@);
    assert(eq_ic(h.take(14), content_length_name()));
    let value = h.skip(15);
    assert(value =~= seq![' '] + d);
    assert(!crate::text::is_ws(value[1])) by {
        assert(value[1] == d[0]);
        assert(48 <= d[0] as u32 <= 57);
    }
    crate::text::lemma_lead_len_is(value, CharClass::Whitespace, 1);
    assert(trim_start(value, CharClass::Whitespace) =~= d);
    assert(48 <= d[d.len() - 1] as u32 <= 57);
    crate::text::lemma_trail_len_is(d, CharClass::Whitespace, 0);
    assert(trim_end(d, CharClass::Whitespace) =~= d);
    assert(trim(value) == d);
}

/// The request line `POST /api/m3u8 HTTP/1.1` names that method and path.
proof fn lemma_upload_request_line()
    ensures
        first_word("POST /api/m3u8 HTTP/1.1"@) matches Some((m, after)) && m == "POST"@ && (first_word(after) matches Some(
            (p, _),
        ) && p == "/api/m3u8"@),
        "POST /api/m3u8 HTTP/1.1"@.len() == 23,
        forall|i: int| 0 <= i < 23 ==> #[trigger] "POST /api/m3u8 HTTP/1.1"@[i] != '\r',
{
    reveal_strlit("POST /api/m3u8 HTTP/1.1");
    reveal_strlit("POST");
    reveal_strlit("/api/m3u8");
    let line = "POST /api/m3u8 HTTP/1.1"@;
    assert(!crate::text::is_ws(line[0]));
    crate::text::lemma_lead_len_is(line, CharClass::Whitespace, 0);
    assert(trim_start(line, CharClass::Whitespace) =~= line);
    assert(forall|j: int| 0 <= j < 4 ==> !crate::text::is_ws(#[trigger] line[j]));
    assert(crate::text::is_ws(line[4]));
    crate::text::lemma_lead_len_is(line, CharClass::NotWhitespace, 4);
    assert(line.take(4) =~= "POST"@);
    let after = line.skip(4);
    assert(crate::text::is_ws(after[0]) && !crate::text::is_ws(after[1]));
    crate::text::lemma_lead_len_is(after, CharClass::Whitespace, 1);
    let u = after.skip(1);
    assert(trim_start(after, CharClass::Whitespace) =~= u);
    assert(forall|j: int| 0 <= j < 9 ==> !crate::text::is_ws(#[trigger] u[j]));
    assert(crate::text::is_ws(u[9]));
    crate::text::lemma_lead_len_is(u, CharClass::NotWhitespace, 9);
    assert(u.take(9) =~= "/api/m3u8"@);
}

/// The `Content-Length` header is read as the number it writes: the head
/// `POST /api/m3u8 HTTP/1.1`, `Content-Length: <n in decimal>`, blank line
/// reads as that method and path with a body of `n` bytes for every `n` up
/// to 16 MiB, and is refused as too large for every larger `n`.
pub proof fn law_content_length_read(n: usize)
    ensures
        n <= 16 * 1024 * 1024 ==> spec_parse_head(vstd::utf8::encode_utf8(upload_head(n as nat))) == (HeadParse::Parsed {
            method: "POST"@,
            path: "/api/m3u8"@,
            content_length: n,
        }),
        n > 16 * 1024 * 1024 ==> spec_parse_head(vstd::utf8::encode_utf8(upload_head(n as nat)))
            == HeadParse::BodyTooLarge,
{
    let line = "POST /api/m3u8 HTTP/1.1"@;
    let h = "Content-Length: "@ + decimal(n as nat);
    let text = upload_head(n as nat);
    lemma_content_length_line(n);
    lemma_upload_request_line();
    vstd::utf8::encode_utf8_valid_utf8(text);
    vstd::utf8::encode_utf8_decode_utf8(text);
    assert(text =~= line + seq!['\r', '\n'] + (h + seq!['\r', '\n', '\r', '\n']));
    lemma_find_crlf_after(line, h + seq!['\r', '\n', '\r', '\n']);
    assert(text.take(23) =~= line);
    let rest = text.skip(25);
    assert(rest =~= h + seq!['\r', '\n'] + seq!['\r', '\n']);
    lemma_find_crlf_after(h, seq!['\r', '\n']);
    assert(rest.take(h.len() as int) =~= h);
    let blank = seq!['\r', '\n'];
    assert(rest.skip(h.len() as int + 2) =~= blank);
    assert(find_crlf(blank) == Some(0int));
    assert(blank.take(0) =~= Seq::<char>::empty());
    assert(blank.skip(2) =~= Seq::<char>::empty());
    assert(find_char(Seq::<char>::empty(), ':') is None);
    assert(find_crlf(Seq::<char>::empty()) is None);
    assert(scan_headers(Seq::<char>::empty(), n, false) == Some((n, false)));
    assert(scan_headers(blank, n, false) == Some((n, false)));
    assert(scan_headers(rest, 0, false) == Some((n, false)));
}

} // verus!
