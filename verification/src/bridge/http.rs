//! The bridge's HTTP/1.1 framing: responses as bytes, the check of a status
//! reply, and locating the end of a request's head.

use vstd::prelude::*;
use vstd::utf8::encode_utf8;
use vstd::string::StrSliceExecFns;

verus! {

broadcast use vstd::string::group_string_axioms;

/// A response to send.
#[derive(Debug)]
pub struct Response {
    /// The status code.
    pub code: u16,
    /// The reason phrase.
    pub reason: String,
    /// The value of the `Content-Type` header.
    pub content_type: String,
    /// The body.
    pub body: Vec<u8>,
}

/// The model of a response.
pub struct ResponseView {
    pub code: u16,
    pub reason: Seq<char>,
    pub content_type: Seq<char>,
    pub body: Seq<u8>,
}

impl View for Response {
    type V = ResponseView;

    open spec fn view(&self) -> ResponseView {
        ResponseView {
            code: self.code,
            reason: self.reason@,
            content_type: self.content_type@,
            body: self.body@,
        }
    }
}

/// The content type of plain-text bodies.
pub open spec fn plain_text() -> Seq<char> {
    "text/plain; charset=utf-8"@
}

/// A plain-text response with the given status and message.
pub fn text_response(code: u16, reason: &str, message: &str) -> (r: Response)
    ensures
        r@ == (ResponseView {
            code,
            reason: reason@,
            content_type: plain_text(),
            body: encode_utf8(message@),
        }),
{
    Response {
        code,
        reason: reason.to_string(),
        content_type: "text/plain; charset=utf-8".to_string(),
        body: message.as_bytes_vec(),
    }
}

/// The decimal digits of `n`, most significant first.
pub open spec fn decimal(n: nat) -> Seq<char>
    decreases n,
{
    if n < 10 {
        seq![((48 + n) as u8) as char]
    } else {
        decimal(n / 10).push(((48 + n % 10) as u8) as char)
    }
}

/// Appends the decimal digits of `n` to `s`.
pub fn push_decimal(s: &mut String, n: u64)
    ensures
        final(s)@ == old(s)@ + decimal(n as nat),
    decreases n,
{
    if n >= 10 {
        push_decimal(s, n / 10);
    }
    let d = (n % 10) as u8;
    crate::text::push_char(s, (48 + d) as char);
}

/// The head of a response: status line and headers, up to the blank line.
pub open spec fn response_head(r: ResponseView) -> Seq<char> {
    "HTTP/1.1 "@ + decimal(r.code as nat) + " "@ + r.reason + "\r\nContent-Type: "@
        + r.content_type + "\r\nContent-Length: "@ + decimal(r.body.len())
        + "\r\nAccess-Control-Allow-Origin: *\r\nAccess-Control-Allow-Methods: GET, POST, OPTIONS\r\nAccess-Control-Allow-Headers: Content-Type\r\nCache-Control: no-store\r\nConnection: close\r\n\r\n"@
}

/// The head of a response announces the length of its body: it holds the
/// header line `Content-Length: ` followed by the decimal byte count of the
/// body, whatever the status, reason phrase and content type.
pub proof fn law_head_announces_body_length(r: ResponseView)
    ensures
        exists|i: int|
            0 <= i && i + content_length_line(r.body.len()).len() <= response_head(r).len()
                && #[trigger] response_head(r).subrange(i, i + content_length_line(r.body.len()).len())
                == content_length_line(r.body.len()),
{
    reveal_strlit("\r\nContent-Length: ");
    reveal_strlit("\r\n");
    reveal_strlit(
        "\r\nAccess-Control-Allow-Origin: *\r\nAccess-Control-Allow-Methods: GET, POST, OPTIONS\r\nAccess-Control-Allow-Headers: Content-Type\r\nCache-Control: no-store\r\nConnection: close\r\n\r\n",
    );
    let a = "HTTP/1.1 "@ + decimal(r.code as nat) + " "@ + r.reason + "\r\nContent-Type: "@ + r.content_type;
    let rest = "\r\nAccess-Control-Allow-Origin: *\r\nAccess-Control-Allow-Methods: GET, POST, OPTIONS\r\nAccess-Control-Allow-Headers: Content-Type\r\nCache-Control: no-store\r\nConnection: close\r\n\r\n"@;
    let line = content_length_line(r.body.len());
    let h = response_head(r);
    assert(h =~= a + ("\r\nContent-Length: "@ + decimal(r.body.len())) + rest);
    assert(rest.take(2) =~= "\r\n"@);
    assert(h =~= a + line + rest.skip(2)) by {
        assert(rest =~= "\r\n"@ + rest.skip(2));
    }
    assert(h.subrange(a.len() as int, a.len() + line.len() as int) =~= line);
}

/// The header line that announces a body of `n` bytes, with the line breaks
/// around it.
pub open spec fn content_length_line(n: nat) -> Seq<char> {
    "\r\nContent-Length: "@ + decimal(n) + "\r\n"@
}

/// The head of a response, as text.
pub fn render_head(r: &Response) -> (h: String)
    ensures
        h@ == response_head(r@),
{
    let mut h = "HTTP/1.1 ".to_string();
    push_decimal(&mut h, r.code as u64);
    h.append(" ");
    h.append(r.reason.as_str());
    h.append("\r\nContent-Type: ");
    h.append(r.content_type.as_str());
    h.append("\r\nContent-Length: ");
    push_decimal(&mut h, r.body.len() as u64);
    h.append(
        "\r\nAccess-Control-Allow-Origin: *\r\nAccess-Control-Allow-Methods: GET, POST, OPTIONS\r\nAccess-Control-Allow-Headers: Content-Type\r\nCache-Control: no-store\r\nConnection: close\r\n\r\n",
    );
    h
}

/// The bytes that send a response: its head in UTF-8, then its body.
pub fn render_response(r: &Response) -> (bytes: Vec<u8>)
    ensures
        bytes@ == encode_utf8(response_head(r@)) + r.body@,
{
    let head = render_head(r);
    let mut bytes = head.as_str().as_bytes_vec();
    let mut body = r.body.clone();
    bytes.append(&mut body);
    bytes
}

/// Whether `needle` occurs in `hay` at position `i`.
pub open spec fn occurs_at(hay: Seq<u8>, needle: Seq<u8>, i: int) -> bool {
    0 <= i && i + needle.len() <= hay.len() && hay.subrange(i, i + needle.len()) == needle
}

/// First position at which `needle` occurs in `hay`.
pub open spec fn first_occurrence(hay: Seq<u8>, needle: Seq<u8>) -> Option<int>
    decreases hay.len(),
{
    if hay.len() < needle.len() {
        None
    } else if hay.take(needle.len() as int) == needle {
        Some(0)
    } else if hay.len() == 0 {
        None
    } else {
        match first_occurrence(hay.drop_first(), needle) {
            Some(i) => Some(i + 1),
            None => None,
        }
    }
}

/// [`first_occurrence`] is `k` when `needle` first occurs at `k`, and
/// nothing when it does not occur before `k` and `k` is past the last place.
proof fn lemma_first_occurrence(hay: Seq<u8>, needle: Seq<u8>, k: int)
    requires
        needle.len() > 0,
        0 <= k,
        forall|j: int| 0 <= j < k ==> !occurs_at(hay, needle, j),
        occurs_at(hay, needle, k) || k + needle.len() > hay.len(),
    ensures
        first_occurrence(hay, needle) == (if occurs_at(hay, needle, k) { Some(k) } else { None::<int> }),
    decreases k,
{
    if hay.len() == 0 {
    } else if k == 0 {
        if occurs_at(hay, needle, 0) {
            assert(hay.take(needle.len() as int) =~= hay.subrange(0, needle.len() as int));
        }
    } else {
        assert(!occurs_at(hay, needle, 0));
        assert(hay.take(needle.len() as int) =~= hay.subrange(0, needle.len() as int));
        let t = hay.drop_first();
        assert forall|j: int| 0 <= j < k - 1 implies !occurs_at(t, needle, j) by {
            if occurs_at(t, needle, j) {
                assert(hay.subrange(j + 1, j + 1 + needle.len()) =~= t.subrange(j, j + needle.len()));
                assert(occurs_at(hay, needle, j + 1));
            }
        }
        if occurs_at(hay, needle, k) {
            assert(hay.subrange(k, k + needle.len()) =~= t.subrange(k - 1, k - 1 + needle.len()));
        } else {
            if occurs_at(t, needle, k - 1) {
                assert(hay.subrange(k, k + needle.len()) =~= t.subrange(k - 1, k - 1 + needle.len()));
            }
        }
        lemma_first_occurrence(t, needle, k - 1);
    }
}

/// What [`first_occurrence`] finds is an occurrence.
pub proof fn lemma_first_occurrence_bound(hay: Seq<u8>, needle: Seq<u8>)
    ensures
        first_occurrence(hay, needle) matches Some(i) ==> occurs_at(hay, needle, i),
    decreases hay.len(),
{
    if hay.len() >= needle.len() && hay.take(needle.len() as int) != needle && hay.len() > 0 {
        let t = hay.drop_first();
        lemma_first_occurrence_bound(t, needle);
        if let Some(i) = first_occurrence(t, needle) {
            assert(hay.subrange(i + 1, i + 1 + needle.len()) =~= t.subrange(i, i + needle.len()));
        }
    } else if hay.len() >= needle.len() && hay.take(needle.len() as int) == needle {
        assert(hay.take(needle.len() as int) =~= hay.subrange(0, needle.len() as int));
    }
}

/// Whether `needle` occurs in `hay` at `i`, compared byte by byte.
fn matches_at(hay: &[u8], needle: &[u8], i: usize) -> (r: bool)
    requires
        i + needle.len() <= hay.len(),
    ensures
        r == occurs_at(hay@, needle@, i as int),
{
    let mut k: usize = 0;
    while k < needle.len()
        invariant
            i + needle.len() <= hay.len(),
            k <= needle@.len(),
            forall|j: int| 0 <= j < k ==> hay@[i + j] == needle@[j],
        decreases needle@.len() - k,
    {
        if hay[i + k] != needle[k] {
            assert(hay@.subrange(i as int, i + needle@.len())[k as int] != needle@[k as int]);
            return false;
        }
        k += 1;
    }
    assert(hay@.subrange(i as int, i + needle@.len()) =~= needle@);
    true
}

/// The position of the first occurrence of `needle` in `haystack`.
pub fn find_bytes(haystack: &[u8], needle: &[u8]) -> (r: Option<usize>)
    requires
        needle@.len() > 0,
    ensures
        match first_occurrence(haystack@, needle@) {
            Some(i) => r == Some(i as usize),
            None => r is None,
        },
{
    if needle.len() > haystack.len() {
        proof {
            lemma_first_occurrence(haystack@, needle@, 0);
        }
        return None;
    }
    let last = haystack.len() - needle.len();
    let mut i: usize = 0;
    while i <= last
        invariant
            last + needle@.len() == haystack@.len(),
            needle@.len() > 0,
            last < usize::MAX,
            forall|j: int| 0 <= j < i ==> !occurs_at(haystack@, needle@, j),
        decreases last + 1 - i,
    {
        if matches_at(haystack, needle, i) {
            proof {
                lemma_first_occurrence(haystack@, needle@, i as int);
            }
            return Some(i);
        }
        i += 1;
    }
    proof {
        lemma_first_occurrence(haystack@, needle@, i as int);
    }
    None
}

/// The status reply that a running bridge gives starts with this line.
pub open spec fn status_ok_line() -> Seq<u8> {
    seq![72, 84, 84, 80, 47, 49, 46, 49, 32, 50, 48, 48, 32, 79, 75]
}

/// A running bridge's status reply contains this.
pub open spec fn status_ok_flag() -> Seq<u8> {
    seq![34, 111, 107, 34, 58, 116, 114, 117, 101]
}

/// Whether the first bytes read back from a status request show a running
/// bridge: they start with `HTTP/1.1 200 OK` and contain `"ok":true`. Both
/// patterns are ASCII, so testing the bytes is testing their text decoded
/// with replacement of invalid sequences.
pub fn status_reply_ok(reply: &[u8]) -> (r: bool)
    ensures
        r == (reply@.len() >= 15 && reply@.take(15) == status_ok_line()
            && first_occurrence(reply@, status_ok_flag()) is Some),
{
    let line = "HTTP/1.1 200 OK".as_bytes();
    let flag = "\"ok\":true".as_bytes();
    proof {
        reveal_strlit("HTTP/1.1 200 OK");
        reveal_strlit("\"ok\":true");
        assert(vstd::string::is_ascii("HTTP/1.1 200 OK"));
        assert(vstd::string::is_ascii("\"ok\":true"));
        assert(line@ =~= status_ok_line());
        assert(flag@ =~= status_ok_flag());
    }
    if reply.len() < 15 || !matches_at(reply, line, 0) {
        assert(reply@.len() >= 15 ==> reply@.take(15) =~= reply@.subrange(0, 15));
        return false;
    }
    assert(reply@.take(15) =~= reply@.subrange(0, 15));
    find_bytes(reply, flag).is_some()
}

/// The request a client sends to ask whether the bridge runs.
pub fn status_request() -> (r: String)
    ensures
        r@ == "GET /api/status HTTP/1.1\r\nHost: 127.0.0.1:"@ + decimal(super::DEFAULT_PORT as nat)
            + "\r\nConnection: close\r\n\r\n"@,
{
    let mut r = "GET /api/status HTTP/1.1\r\nHost: 127.0.0.1:".to_string();
    push_decimal(&mut r, super::DEFAULT_PORT as u64);
    r.append("\r\nConnection: close\r\n\r\n");
    r
}

} // verus!
