//! Parsing of `ush://<app>?<payload>` links.

use vstd::prelude::*;
use vstd::utf8::{decode_utf8, encode_scalar, encode_utf8, has_width_1_encoding, valid_utf8};
use crate::error::AppError;
use crate::text::{chars_of, find_char, position_of, string_of, trail_run, trim, trim_bounds, trim_end, CharClass};

verus! {

/// The scheme prefix of every handled link.
pub open spec fn scheme_prefix() -> Seq<char> {
    seq!['u', 's', 'h', ':', '/', '/']
}

/// Value of an ASCII hexadecimal digit byte, either case.
pub open spec fn hex_digit_value(b: u8) -> Option<u8> {
    if 0x30 <= b <= 0x39 {
        Some((b - 0x30) as u8)
    } else if 0x41 <= b <= 0x46 {
        Some((b - 0x41 + 10) as u8)
    } else if 0x61 <= b <= 0x66 {
        Some((b - 0x61 + 10) as u8)
    } else {
        None
    }
}

/// Percent-decoding of bytes: `%` followed by two hex digits stands for one
/// byte, every other byte (a `%` not so followed included) stands for itself.
pub open spec fn percent_decode(b: Seq<u8>) -> Seq<u8>
    decreases b.len(),
{
    if b.len() == 0 {
        seq![]
    } else if b[0] == 0x25 && b.len() >= 3 && hex_digit_value(b[1]) is Some && hex_digit_value(
        b[2],
    ) is Some {
        seq![(hex_digit_value(b[1])->0 * 16 + hex_digit_value(b[2])->0) as u8] + percent_decode(
            b.skip(3),
        )
    } else {
        seq![b[0]] + percent_decode(b.skip(1))
    }
}

/// `urlencoding::decode`: percent-decodes the UTF-8 bytes of `data` and reads
/// the result as UTF-8. The contract states exactly that, and that the call
/// fails precisely when the decoded bytes are not valid UTF-8.
#[verifier::external_body]
fn url_decode(data: &str) -> (r: Result<String, std::string::FromUtf8Error>)
    ensures
        r is Ok <==> valid_utf8(percent_decode(encode_utf8(data@))),
        r matches Ok(s) ==> s@ == decode_utf8(percent_decode(encode_utf8(data@))),
{
    urlencoding::decode(data).map(|text| text.into_owned())
}

/// The application name that the raw application part `raw` of a link
/// stands for: percent-decoded after its trailing `/` are removed, when that
/// gives UTF-8.
#[verifier::opaque]
pub open spec fn decoded_app_name(raw: Seq<char>) -> Option<Seq<char>> {
    let bytes = percent_decode(encode_utf8(trim_end(raw, CharClass::Exactly('/'))));
    if valid_utf8(bytes) {
        Some(decode_utf8(bytes))
    } else {
        None
    }
}

/// What [`parse_url`] makes of a link.
pub enum UrlParse {
    /// The decoded application name and the raw payload.
    Parsed { app: Seq<char>, payload: Seq<char> },
    /// The link is malformed, with the message of the `InvalidUrl` error.
    Rejected(Seq<char>),
    /// The application name does not percent-decode to UTF-8.
    Undecodable,
}

/// The raw application and payload parts of a link: trim it, strip `ush://`
/// and split at the first `?`; otherwise the message that rejects it.
pub open spec fn link_parts(input: Seq<char>) -> Result<(Seq<char>, Seq<char>), Seq<char>> {
    let t = trim(input);
    if !(t.len() >= 6 && t.take(6) == scheme_prefix()) {
        Err("input does not start with ush://"@)
    } else {
        let rest = t.skip(6);
        match find_char(rest, '?') {
            None => Err("expected ush://<app>?<gzip-base64>"@),
            Some(q) => Ok((rest.take(q), rest.skip(q + 1))),
        }
    }
}

/// The meaning of a link: its parts as [`link_parts`] finds them, the
/// application part percent-decoded (without trailing `/`), both required to
/// be non-blank; the payload loses its trailing `/`.
pub open spec fn spec_parse_url(input: Seq<char>) -> UrlParse {
    match link_parts(input) {
        Err(msg) => UrlParse::Rejected(msg),
        Ok((raw_app, payload)) => match decoded_app_name(raw_app) {
            None => UrlParse::Undecodable,
            Some(app) => if trim(app).len() == 0 {
                UrlParse::Rejected("application name is empty"@)
            } else if trim(payload).len() == 0 {
                UrlParse::Rejected("gzip payload is empty"@)
            } else {
                UrlParse::Parsed { app, payload: trim_end(payload, CharClass::Exactly('/')) }
            },
        },
    }
}

/// Whether the characters `v[a..b]` start with `ush://`.
fn has_scheme(v: &Vec<char>, a: usize, b: usize) -> (r: bool)
    requires
        a <= b <= v.len(),
    ensures
        r == {
            let t = v@.subrange(a as int, b as int);
            t.len() >= 6 && t.take(6) == scheme_prefix()
        },
{
    let prefix = chars_of("ush://");
    proof {
        reveal_strlit("ush://");
        assert(prefix@ =~= scheme_prefix());
        if b - a >= 6 {
            assert(v@.subrange(a as int, b as int).take(6) =~= v@.subrange(a as int, a + 6));
        }
    }
    b - a >= 6 && crate::text::window_eq(&v, a, a + 6, &prefix)
}

/// Whether the text of `s` is blank.
fn is_blank(s: &String) -> (r: bool)
    ensures
        r == (trim(s@).len() == 0),
{
    let v = chars_of(s.as_str());
    let (x, y) = trim_bounds(&v, 0, v.len());
    assert(v@.subrange(0, v@.len() as int) == v@);
    x == y
}

/// The link's application part with trailing `/` removed, and that part decoded.
fn decode_app(v: &Vec<char>, lo: usize, q: usize) -> (r: Result<String, AppError>)
    requires
        lo <= q <= v.len(),
    ensures
        match decoded_app_name(v@.subrange(lo as int, q as int)) {
            Some(app) => r matches Ok(s) && s@ == app,
            None => r matches Err(AppError::InvalidUrl(_)),
        },
{
    reveal(decoded_app_name);
    let n = trail_run(v, lo, q, CharClass::Exactly('/'));
    let encoded = string_of(v, lo, q - n);
    assert(encoded@ =~= trim_end(v@.subrange(lo as int, q as int), CharClass::Exactly('/')));
    match url_decode(encoded.as_str()) {
        Ok(s) => Ok(s),
        Err(e) => Err(AppError::InvalidUrl(e.to_string())),
    }
}

/// Locates the parts of a link in its characters `v`: the application part
/// is `v[lo..q]` and the payload `v[q + 1..b]`.
fn locate_parts(v: &Vec<char>) -> (r: Result<(usize, usize, usize), AppError>)
    ensures
        match link_parts(v@) {
            Err(msg) => r matches Err(AppError::InvalidUrl(m)) && m@ == msg,
            Ok((raw_app, payload)) => r matches Ok((lo, q, b)) && lo <= q < b <= v.len()
                && raw_app == v@.subrange(lo as int, q as int) && payload == v@.subrange(
                q + 1,
                b as int,
            ),
        },
{
    let (a, b) = trim_bounds(v, 0, v.len());
    assert(v@.subrange(0, v@.len() as int) == v@);
    assert(trim(v@) == v@.subrange(a as int, b as int));
    if !has_scheme(v, a, b) {
        return Err(AppError::InvalidUrl("input does not start with ush://".to_string()));
    }
    let lo = a + 6;
    let ghost rest = v@.subrange(a as int, b as int).skip(6);
    assert(rest =~= v@.subrange(lo as int, b as int));
    match position_of(v, lo, b, '?') {
        None => Err(AppError::InvalidUrl("expected ush://<app>?<gzip-base64>".to_string())),
        Some(q) => {
            assert(rest.take(q - lo) =~= v@.subrange(lo as int, q as int));
            assert(rest.skip(q - lo + 1) =~= v@.subrange(q + 1, b as int));
            Ok((lo, q, b))
        },
    }
}

/// Splits a `ush://<app>?<payload>` link into the decoded application name
/// and the payload text.
pub fn parse_url(input: &str) -> (r: Result<(String, String), AppError>)
    ensures
        match spec_parse_url(input@) {
            UrlParse::Parsed { app, payload } => r matches Ok((a, p)) && a@ == app && p@
                == payload,
            UrlParse::Rejected(msg) => r matches Err(AppError::InvalidUrl(m)) && m@ == msg,
            UrlParse::Undecodable => r matches Err(AppError::InvalidUrl(_)),
        },
{
    let v = chars_of(input);
    let (lo, q, b) = match locate_parts(&v) {
        Ok(parts) => parts,
        Err(e) => {
            return Err(e);
        },
    };
    let app = match decode_app(&v, lo, q) {
        Ok(app) => app,
        Err(e) => {
            return Err(e);
        },
    };
    if is_blank(&app) {
        return Err(AppError::InvalidUrl("application name is empty".to_string()));
    }
    let (p0, p1) = trim_bounds(&v, q + 1, b);
    if p0 == p1 {
        return Err(AppError::InvalidUrl("gzip payload is empty".to_string()));
    }
    let m = trail_run(&v, q + 1, b, CharClass::Exactly('/'));
    let payload = string_of(&v, q + 1, b - m);
    assert(payload@ =~= trim_end(v@.subrange(q + 1, b as int), CharClass::Exactly('/')));
    Ok((app, payload))
}

/// Percent-decoding leaves bytes without `%` as they are.
proof fn lemma_percent_decode_plain(b: Seq<u8>)
    requires
        forall|i: int| 0 <= i < b.len() ==> b[i] != 0x25,
    ensures
        percent_decode(b) == b,
    decreases b.len(),
{
    if b.len() > 0 {
        let t = b.skip(1);
        assert forall|i: int| 0 <= i < t.len() implies t[i] != 0x25 by {
            assert(t[i] == b[i + 1]);
        }
        lemma_percent_decode_plain(t);
        assert(seq![b[0]] + t =~= b);
    }
}

/// No byte of the UTF-8 encoding of a character other than `%` is `%`.
proof fn lemma_encode_scalar_no_percent(c: char)
    requires
        c != '%',
    ensures
        forall|i: int| 0 <= i < encode_scalar(c as u32).len() ==> #[trigger] encode_scalar(c as u32)[i] != 0x25,
{
    let v = c as u32;
    assert(v != 0x25);
    if has_width_1_encoding(v) {
        assert(((v & 0x7F) as u8) != 0x25u8) by (bit_vector)
            requires
                v <= 0x7F,
                v != 0x25,
        ;
    } else {
        assert((0xC0u8 | ((v >> 6) & 0x1F) as u8) != 0x25u8) by (bit_vector);
        assert((0xE0u8 | ((v >> 12) & 0x0F) as u8) != 0x25u8) by (bit_vector);
        assert((0xF0u8 | ((v >> 18) & 0x7) as u8) != 0x25u8) by (bit_vector);
        assert((0x80u8 | (v & 0x3F) as u8) != 0x25u8) by (bit_vector);
        assert((0x80u8 | ((v >> 6) & 0x3F) as u8) != 0x25u8) by (bit_vector);
        assert((0x80u8 | ((v >> 12) & 0x3F) as u8) != 0x25u8) by (bit_vector);
    }
}

/// No byte of the UTF-8 encoding of a text without `%` is `%`.
proof fn lemma_encode_utf8_no_percent(chars: Seq<char>)
    requires
        forall|i: int| 0 <= i < chars.len() ==> chars[i] != '%',
    ensures
        forall|i: int| 0 <= i < encode_utf8(chars).len() ==> #[trigger] encode_utf8(chars)[i] != 0x25,
    decreases chars.len(),
{
    if chars.len() > 0 {
        let t = chars.drop_first();
        assert forall|i: int| 0 <= i < t.len() implies t[i] != '%' by {
            assert(t[i] == chars[i + 1]);
        }
        lemma_encode_utf8_no_percent(t);
        lemma_encode_scalar_no_percent(chars[0]);
        let head = encode_scalar(chars[0] as u32);
        let all = encode_utf8(chars);
        assert(all == head + encode_utf8(t));
        assert forall|i: int| 0 <= i < all.len() implies all[i] != 0x25 by {
            if i < head.len() {
                assert(all[i] == head[i]);
            } else {
                assert(all[i] == encode_utf8(t)[i - head.len()]);
            }
        }
    }
}

/// A link made as the documentation shows, `ush://<app>?<payload>`, splits
/// back into that application name and payload: where the name is not
/// blank, holds no `%` or `?` and does not end in `/`, and the payload is not
/// blank and ends in neither whitespace nor `/`.
pub proof fn law_link_roundtrip(app: Seq<char>, payload: Seq<char>)
    requires
        trim(app).len() > 0,
        forall|i: int| 0 <= i < app.len() ==> app[i] != '%' && app[i] != '?',
        app.last() != '/',
        trim(payload).len() > 0,
        !crate::text::is_ws(payload.last()),
        payload.last() != '/',
    ensures
        spec_parse_url("ush://"@ + app + seq!['?'] + payload) == (UrlParse::Parsed { app, payload }),
{
    reveal_strlit("ush://");
    assert("ush://"@ =~= scheme_prefix());
    let input = scheme_prefix() + app + seq!['?'] + payload;
    crate::text::lemma_lead_len_bound(app, CharClass::Whitespace);
    crate::text::lemma_lead_len_bound(payload, CharClass::Whitespace);
    assert(input[0] == 'u');
    crate::text::lemma_lead_len_is(input, CharClass::Whitespace, 0);
    assert(crate::text::trim_start(input, CharClass::Whitespace) =~= input);
    assert(input.last() == payload.last());
    crate::text::lemma_trail_len_is(input, CharClass::Whitespace, 0);
    assert(trim(input) =~= input);
    assert(input.take(6) =~= scheme_prefix());
    let rest = input.skip(6);
    assert(rest =~= app + seq!['?'] + payload);
    assert forall|j: int| 0 <= j < app.len() implies rest[j] != '?' by {
        assert(rest[j] == app[j]);
    }
    crate::text::lemma_find_char(rest, '?', app.len() as int);
    assert(rest.take(app.len() as int) =~= app);
    assert(rest.skip(app.len() as int + 1) =~= payload);
    crate::text::lemma_trail_len_is(app, CharClass::Exactly('/'), 0);
    assert(trim_end(app, CharClass::Exactly('/')) =~= app);
    crate::text::lemma_trail_len_is(payload, CharClass::Exactly('/'), 0);
    assert(trim_end(payload, CharClass::Exactly('/')) =~= payload);
    lemma_encode_utf8_no_percent(app);
    lemma_percent_decode_plain(encode_utf8(app));
    vstd::utf8::encode_utf8_valid_utf8(app);
    vstd::utf8::encode_utf8_decode_utf8(app);
    reveal(decoded_app_name);
}

} // verus!
