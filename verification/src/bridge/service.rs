//! What the bridge answers to a request, and how the answer changes the
//! playlist cache.

use vstd::prelude::*;
use vstd::utf8::{decode_utf8, encode_utf8, valid_utf8};
use crate::error::string_from_utf8;
use crate::text::{chars_of, string_of, window_eq};
use super::http::{decimal, push_decimal, plain_text, text_response, Response, ResponseView};
use super::id::{format_id, id_text, new_id, parse_id, parse_id_text};
use super::playlist::{is_playlist, looks_like_playlist};
use super::store::{bytes_total, evict, find_id, ids_distinct, is_expired, live, without_id, Store, Stored};
use super::{DEFAULT_PORT, MAX_STORE_SIZE};

verus! {

broadcast use vstd::string::group_string_axioms, vstd::utf8::group_utf8_lib;

/// A request, as far as the bridge looks at it.
#[derive(Debug)]
pub struct Request {
    /// The method.
    pub method: String,
    /// The request target.
    pub path: String,
    /// The body.
    pub body: Vec<u8>,
}

/// Why a request got no answer.
#[derive(Debug)]
pub enum HandleError {
    /// A playlist upload whose body is not UTF-8.
    BodyNotUtf8(std::string::FromUtf8Error),
    /// A playlist upload that got no identifier: the operating system gave
    /// no random bytes.
    NoRandomId,
}

/// The content type of JSON bodies.
pub open spec fn json_type() -> Seq<char> {
    "application/json; charset=utf-8"@
}

/// The content type of playlists.
pub open spec fn playlist_type() -> Seq<char> {
    "application/vnd.apple.mpegurl; charset=utf-8"@
}

/// A plain-text answer.
pub open spec fn text_answer(code: u16, reason: Seq<char>, message: Seq<char>) -> ResponseView {
    ResponseView { code, reason, content_type: plain_text(), body: encode_utf8(message) }
}

/// The answer to a preflight request.
pub open spec fn no_content() -> ResponseView {
    ResponseView { code: 204, reason: "No Content"@, content_type: plain_text(), body: Seq::empty() }
}

/// The body of the status answer.
pub open spec fn status_json() -> Seq<char> {
    "{\"ok\":true,\"port\":"@ + decimal(DEFAULT_PORT as nat) + "}"@
}

/// The answer to a status request.
pub open spec fn status_answer() -> ResponseView {
    ResponseView { code: 200, reason: "OK"@, content_type: json_type(), body: encode_utf8(status_json()) }
}

/// The URL under which the playlist `id` is served.
pub open spec fn playlist_url(id: u128) -> Seq<char> {
    "http://127.0.0.1:"@ + decimal(DEFAULT_PORT as nat) + "/m3u8/"@ + id_text(id)
}

/// The answer to a stored upload.
pub open spec fn stored_answer(id: u128) -> ResponseView {
    ResponseView {
        code: 200,
        reason: "OK"@,
        content_type: json_type(),
        body: encode_utf8("{\"url\":\""@ + playlist_url(id) + "\"}"@),
    }
}

/// The answer that serves a playlist.
pub open spec fn playlist_answer(bytes: Seq<u8>) -> ResponseView {
    ResponseView { code: 200, reason: "OK"@, content_type: playlist_type(), body: bytes }
}

/// The prefix of playlist paths.
pub open spec fn playlist_prefix() -> Seq<char> {
    "/m3u8/"@
}

/// The cache and answer after a request at time `now`, where an upload is
/// stored under `id`; `None` where an upload's body is not UTF-8.
pub open spec fn spec_handle(
    s: Seq<Stored>,
    method: Seq<char>,
    path: Seq<char>,
    body: Seq<u8>,
    now: u128,
    id: u128,
) -> Option<(Seq<Stored>, ResponseView)> {
    if method == "OPTIONS"@ {
        Some((s, no_content()))
    } else if method == "GET"@ && path == "/api/status"@ {
        Some((s, status_answer()))
    } else if method == "POST"@ && path == "/api/m3u8"@ {
        if !valid_utf8(body) {
            None
        } else if !looks_like_playlist(decode_utf8(body)) {
            Some((s, text_answer(400, "Bad Request"@, "request body is not a valid m3u8"@)))
        } else if body.len() > MAX_STORE_SIZE {
            Some(
                (
                    live(s, now),
                    text_answer(413, "Payload Too Large"@, "m3u8 is larger than the Bridge cache limit"@),
                ),
            )
        } else {
            Some(
                (
                    without_id(evict(live(s, now), body.len()), id).push(
                        Stored { id, text: decode_utf8(body), last_access: now },
                    ),
                    stored_answer(id),
                ),
            )
        }
    } else if method == "GET"@ && path.len() >= 6 && path.take(6) == playlist_prefix() {
        let s1 = live(s, now);
        match parse_id_text(path.skip(6)) {
            Some(x) => match find_id(s1, x) {
                Some(k) => Some(
                    (
                        s1.update(k, Stored { last_access: now, ..s1[k] }),
                        playlist_answer(encode_utf8(s1[k].text)),
                    ),
                ),
                None => Some((s1, text_answer(404, "Not Found"@, "m3u8 not found"@))),
            },
            None => Some((s1, text_answer(404, "Not Found"@, "m3u8 not found"@))),
        }
    } else {
        Some((s, text_answer(404, "Not Found"@, "not found"@)))
    }
}

/// Whether `after` and `r` are the cache and outcome that [`spec_handle`]
/// calls for.
pub open spec fn answers(
    before: Seq<Stored>,
    method: Seq<char>,
    path: Seq<char>,
    body: Seq<u8>,
    now: u128,
    id: u128,
    after: Seq<Stored>,
    r: Result<Response, HandleError>,
) -> bool {
    match spec_handle(before, method, path, body, now, id) {
        Some((s, answer)) => r matches Ok(resp) && resp@ == answer && after == s,
        None => r matches Err(HandleError::BodyNotUtf8(_)) && after == before,
    }
}

/// Uploading a playlist stores it under the identifier in the answer, and
/// fetching that identifier's URL path before the entry's time-to-live has
/// passed gives back exactly the uploaded bytes, whatever else is cached.
pub proof fn law_upload_then_fetch(s: Seq<Stored>, body: Seq<u8>, now: u128, id: u128, later: u128, other: u128)
    requires
        valid_utf8(body),
        looks_like_playlist(decode_utf8(body)),
        body.len() <= MAX_STORE_SIZE,
        later <= now || later - now <= super::ENTRY_TTL_NANOS,
    ensures
        spec_handle(s, "POST"@, "/api/m3u8"@, body, now, id) matches Some((s1, a1)) && (a1 == stored_answer(id)
            && (spec_handle(s1, "GET"@, playlist_prefix() + id_text(id), Seq::empty(), later, other)
            matches Some((_, a2)) && a2 == playlist_answer(body))),
{
    reveal_strlit("POST");
    reveal_strlit("OPTIONS");
    reveal_strlit("GET");
    reveal_strlit("/api/status");
    reveal_strlit("/api/m3u8");
    reveal_strlit("/m3u8/");
    assert("POST"@.len() != "OPTIONS"@.len());
    assert("POST"@ != "GET"@);
    assert("GET"@.len() != "OPTIONS"@.len());
    assert("GET"@ != "POST"@);
    let entry = Stored { id, text: decode_utf8(body), last_access: now };
    let s1 = without_id(evict(live(s, now), body.len()), id).push(entry);
    let path = playlist_prefix() + id_text(id);
    super::id::lemma_id_text_roundtrip(id);
    assert(path.len() == 38);
    assert(path.take(6) =~= playlist_prefix());
    assert(path.skip(6) =~= id_text(id));
    assert(path != "/api/status"@);
    let l = live(s1, later);
    assert(s1.drop_last() =~= without_id(evict(live(s, now), body.len()), id));
    assert(l == live(s1.drop_last(), later).push(entry));
    assert(find_id(l, id) == Some(l.len() - 1));
    vstd::utf8::decode_utf8_encode_utf8(body);
    assert(spec_handle(s, "POST"@, "/api/m3u8"@, body, now, id) == Some((s1, stored_answer(id))));
    assert(l[l.len() - 1] == entry);
    assert(spec_handle(s1, "GET"@, path, Seq::empty(), later, other) == Some((
        l.update(l.len() - 1, Stored { last_access: later, ..l[l.len() - 1] }),
        playlist_answer(body),
    )));
}

/// The methods and paths that the laws below compare are distinct texts.
proof fn lemma_literals()
    ensures
        "POST"@ != "OPTIONS"@,
        "POST"@ != "GET"@,
        "GET"@ != "OPTIONS"@,
        "GET"@ != "POST"@,
        "/api/status"@.len() == 11,
        playlist_prefix().len() == 6,
{
    reveal_strlit("POST");
    reveal_strlit("OPTIONS");
    reveal_strlit("GET");
    reveal_strlit("/api/status");
    reveal_strlit("/m3u8/");
    assert("POST"@.len() != "OPTIONS"@.len());
    assert("GET"@.len() != "OPTIONS"@.len());
    assert("POST"@.len() != "GET"@.len());
}

/// What a fetch of the playlist URL path of `id` at `now` does: it clears
/// out expired playlists, then answers with the playlist, marking it
/// accessed, or with not found.
proof fn lemma_fetch_shape(s: Seq<Stored>, id: u128, now: u128, other: u128)
    ensures
        spec_handle(s, "GET"@, playlist_prefix() + id_text(id), Seq::empty(), now, other) == Some(
            match find_id(live(s, now), id) {
                Some(k) => (
                    live(s, now).update(k, Stored { last_access: now, ..live(s, now)[k] }),
                    playlist_answer(encode_utf8(live(s, now)[k].text)),
                ),
                None => (live(s, now), text_answer(404, "Not Found"@, "m3u8 not found"@)),
            },
        ),
{
    lemma_literals();
    let path = playlist_prefix() + id_text(id);
    super::id::lemma_id_text_roundtrip(id);
    assert(path.len() == 38);
    assert(path.take(6) =~= playlist_prefix());
    assert(path.skip(6) =~= id_text(id));
    assert(path != "/api/status"@);
}

/// Fetching a playlist marks it accessed: fetching it again before the
/// time-to-live has passed since gives the same answer, whatever was cached.
pub proof fn law_fetch_keeps_alive(s: Seq<Stored>, id: u128, t1: u128, t2: u128, o1: u128, o2: u128)
    requires
        ids_distinct(s),
        t2 <= t1 || t2 - t1 <= super::ENTRY_TTL_NANOS,
    ensures
        spec_handle(s, "GET"@, playlist_prefix() + id_text(id), Seq::empty(), t1, o1) matches Some((s1, a1))
            && (a1.code == 200 ==> (spec_handle(s1, "GET"@, playlist_prefix() + id_text(id), Seq::empty(), t2, o2)
            matches Some((_, a2)) && a2 == a1)),
{
    lemma_fetch_shape(s, id, t1, o1);
    let l1 = live(s, t1);
    super::store::lemma_live_distinct(s, t1);
    super::store::lemma_find_id(l1, id);
    if let Some(k) = find_id(l1, id) {
        let u = Stored { last_access: t1, ..l1[k] };
        let s1 = l1.update(k, u);
        super::store::lemma_distinct_update(l1, k, u);
        assert(s1[k] == u);
        super::store::law_live_keeps_unexpired(s1, t2, u);
        super::store::lemma_live_distinct(s1, t2);
        super::store::lemma_find_unique(live(s1, t2), u);
        lemma_fetch_shape(s1, id, t2, o2);
    }
}

/// A playlist whose time-to-live has passed since its last access is not
/// served any more: fetching its URL path answers not found.
pub proof fn law_expired_not_served(s: Seq<Stored>, e: Stored, now: u128, other: u128)
    requires
        ids_distinct(s),
        s.contains(e),
        super::store::is_expired(e, now),
    ensures
        spec_handle(s, "GET"@, playlist_prefix() + id_text(e.id), Seq::empty(), now, other) matches Some((_, a))
            && a == text_answer(404, "Not Found"@, "m3u8 not found"@),
{
    lemma_fetch_shape(s, e.id, now, other);
    let l = live(s, now);
    super::store::lemma_find_id(l, e.id);
    if let Some(j) = find_id(l, e.id) {
        super::store::law_live_keeps_unexpired(s, now, l[j]);
        super::store::law_live_keeps_unexpired(s, now, e);
        assert(l.contains(l[j]));
        let a = choose|a: int| 0 <= a < s.len() && s[a] == l[j];
        let b = choose|b: int| 0 <= b < s.len() && s[b] == e;
        assert(s[a].id == s[b].id);
    }
}

/// A request in the model: method, path, body, the time it is answered,
/// and the identifier an upload would be stored under.
pub struct Call {
    pub method: Seq<char>,
    pub path: Seq<char>,
    pub body: Seq<u8>,
    pub now: u128,
    pub id: u128,
}

/// The cache after answering `c`.
pub open spec fn cache_after(s: Seq<Stored>, c: Call) -> Seq<Stored> {
    match spec_handle(s, c.method, c.path, c.body, c.now, c.id) {
        Some((s2, _)) => s2,
        None => s,
    }
}

/// The cache after answering `calls` in order.
pub open spec fn run_calls(s: Seq<Stored>, calls: Seq<Call>) -> Seq<Stored>
    decreases calls.len(),
{
    if calls.len() == 0 {
        s
    } else {
        run_calls(cache_after(s, calls[0]), calls.drop_first())
    }
}

/// Whether `c` is an upload that gets stored.
pub open spec fn stores_upload(c: Call) -> bool {
    &&& c.method == "POST"@
    &&& c.path == "/api/m3u8"@
    &&& valid_utf8(c.body)
    &&& looks_like_playlist(decode_utf8(c.body))
    &&& c.body.len() <= MAX_STORE_SIZE
}

/// Whether answering `c` on the cache `s` drops the playlist `e`: an upload
/// stored under its identifier, or one that evicts it to make room.
pub open spec fn displaces(s: Seq<Stored>, c: Call, e: Stored) -> bool {
    stores_upload(c) && (c.id == e.id || !evict(live(s, c.now), c.body.len()).contains(e))
}

/// Whether answering `calls` in order, starting from `s`, neither expires
/// nor drops the playlist cached under `id`.
pub open spec fn spares(s: Seq<Stored>, id: u128, calls: Seq<Call>) -> bool
    decreases calls.len(),
{
    if calls.len() == 0 {
        true
    } else {
        &&& forall|x: Stored| #[trigger] s.contains(x) && x.id == id ==> !is_expired(x, calls[0].now)
            && !displaces(s, calls[0], x)
        &&& spares(cache_after(s, calls[0]), id, calls.drop_first())
    }
}

/// Answering any request keeps identifiers distinct.
pub proof fn lemma_handle_distinct(s: Seq<Stored>, c: Call)
    requires
        ids_distinct(s),
    ensures
        ids_distinct(cache_after(s, c)),
{
    super::store::lemma_live_distinct(s, c.now);
    let l = live(s, c.now);
    if stores_upload(c) && c.method != "OPTIONS"@ && !(c.method == "GET"@ && c.path == "/api/status"@) {
        let w = without_id(evict(l, c.body.len()), c.id);
        super::store::lemma_evict_distinct(l, c.body.len());
        super::store::lemma_without_id_distinct(evict(l, c.body.len()), c.id);
        assert forall|y: Stored| w.contains(y) implies y.id != c.id by {
            super::store::lemma_without_id_contains(evict(l, c.body.len()), c.id, y);
        }
        super::store::lemma_push_distinct(w, Stored { id: c.id, text: decode_utf8(c.body), last_access: c.now });
    }
    if c.method == "GET"@ && c.path.len() >= 6 && c.path.take(6) == playlist_prefix() {
        if let Some(x) = parse_id_text(c.path.skip(6)) {
            super::store::lemma_find_id(l, x);
            if let Some(k) = find_id(l, x) {
                super::store::lemma_distinct_update(l, k, Stored { last_access: c.now, ..l[k] });
            }
        }
    }
}

/// A cached playlist that a request neither expires nor drops stays cached
/// with the same identifier and text. Only a fetch of its own URL path
/// changes it, and then only its time of last access, to the time of the
/// fetch.
pub proof fn law_request_keeps_playlist(s: Seq<Stored>, c: Call, e: Stored)
    requires
        ids_distinct(s),
        s.contains(e),
        !is_expired(e, c.now),
        !displaces(s, c, e),
    ensures
        ids_distinct(cache_after(s, c)),
        cache_after(s, c).contains(e) || (c.method == "GET"@ && c.path == playlist_prefix() + id_text(e.id)
            && cache_after(s, c).contains(Stored { last_access: c.now, ..e })),
{
    lemma_handle_distinct(s, c);
    lemma_literals();
    super::store::lemma_live_distinct(s, c.now);
    super::store::law_live_keeps_unexpired(s, c.now, e);
    let l = live(s, c.now);
    if stores_upload(c) {
        let w = without_id(evict(l, c.body.len()), c.id);
        super::store::lemma_without_id_contains(evict(l, c.body.len()), c.id, e);
        lemma_push_contains_stored(w, Stored { id: c.id, text: decode_utf8(c.body), last_access: c.now }, e);
    }
    if c.method == "GET"@ && c.path.len() >= 6 && c.path.take(6) == playlist_prefix() {
        if let Some(x) = parse_id_text(c.path.skip(6)) {
            super::store::lemma_find_id(l, x);
            if let Some(k) = find_id(l, x) {
                let u = Stored { last_access: c.now, ..l[k] };
                let l2 = l.update(k, u);
                let a = choose|a: int| 0 <= a < l.len() && l[a] == e;
                if a == k {
                    super::id::lemma_parse_id_text_unique(c.path.skip(6), x);
                    assert(c.path =~= c.path.take(6) + c.path.skip(6));
                    assert(l2[k] == u);
                    assert(u == Stored { last_access: c.now, ..e });
                } else {
                    assert(l2[a] == e);
                }
            }
        }
    }
}

/// A pushed playlist is contained, and so is every one before it.
proof fn lemma_push_contains_stored(l: Seq<Stored>, x: Stored, e: Stored)
    ensures
        l.contains(e) ==> l.push(x).contains(e),
{
    if l.contains(e) {
        let i = choose|i: int| 0 <= i < l.len() && l[i] == e;
        assert(l.push(x)[i] == e);
    }
}

/// A cached playlist that has not expired is served, byte for byte, at its
/// URL path.
pub proof fn law_fetch_serves_stored(s: Seq<Stored>, e: Stored, now: u128, other: u128)
    requires
        ids_distinct(s),
        s.contains(e),
        !is_expired(e, now),
    ensures
        spec_handle(s, "GET"@, playlist_prefix() + id_text(e.id), Seq::empty(), now, other) matches Some((_, a))
            && a == playlist_answer(encode_utf8(e.text)),
{
    lemma_fetch_shape(s, e.id, now, other);
    super::store::lemma_live_distinct(s, now);
    super::store::law_live_keeps_unexpired(s, now, e);
    super::store::lemma_find_unique(live(s, now), e);
}

/// Requests that neither expire nor drop a cached playlist keep it cached
/// with its identifier and text.
proof fn lemma_run_keeps(s: Seq<Stored>, e: Stored, calls: Seq<Call>)
    requires
        ids_distinct(s),
        s.contains(e),
        spares(s, e.id, calls),
    ensures
        ids_distinct(run_calls(s, calls)),
        exists|x: Stored| #[trigger] run_calls(s, calls).contains(x) && x.id == e.id && x.text == e.text,
    decreases calls.len(),
{
    if calls.len() == 0 {
        assert(run_calls(s, calls).contains(e));
    } else {
        let c = calls[0];
        assert(s.contains(e) && e.id == e.id);
        law_request_keeps_playlist(s, c, e);
        let s2 = cache_after(s, c);
        assert(run_calls(s, calls) == run_calls(s2, calls.drop_first()));
        let x = if s2.contains(e) { e } else { Stored { last_access: c.now, ..e } };
        lemma_run_keeps(s2, x, calls.drop_first());
        let y = choose|y: Stored| #[trigger] run_calls(s2, calls.drop_first()).contains(y) && y.id == x.id
            && y.text == x.text;
        assert(run_calls(s, calls).contains(y));
    }
}

/// Read after write: an upload, followed by any requests that neither
/// expire the playlist nor drop it (by an upload under its identifier or by
/// eviction), is then served at the URL path that the upload's answer names,
/// with exactly the uploaded bytes, as long as it has not expired by then.
pub proof fn law_upload_survives_requests(
    s: Seq<Stored>,
    body: Seq<u8>,
    now: u128,
    id: u128,
    calls: Seq<Call>,
    later: u128,
    other: u128,
)
    requires
        ids_distinct(s),
        valid_utf8(body),
        looks_like_playlist(decode_utf8(body)),
        body.len() <= MAX_STORE_SIZE,
        spares(cache_after(s, Call { method: "POST"@, path: "/api/m3u8"@, body, now, id }), id, calls),
        forall|x: Stored| #[trigger]
            run_calls(cache_after(s, Call { method: "POST"@, path: "/api/m3u8"@, body, now, id }), calls).contains(x)
            && x.id == id ==> !is_expired(x, later),
    ensures
        spec_handle(s, "POST"@, "/api/m3u8"@, body, now, id) matches Some((s1, a1)) && a1 == stored_answer(id)
            && (spec_handle(run_calls(s1, calls), "GET"@, playlist_prefix() + id_text(id), Seq::empty(), later, other)
            matches Some((_, a2)) && a2 == playlist_answer(body)),
{
    let up = Call { method: "POST"@, path: "/api/m3u8"@, body, now, id };
    law_upload_then_fetch(s, body, now, id, now, other);
    lemma_handle_distinct(s, up);
    let s1 = cache_after(s, up);
    let entry = Stored { id, text: decode_utf8(body), last_access: now };
    let w = without_id(evict(live(s, now), body.len()), id);
    lemma_literals();
    assert(s1 == w.push(entry));
    assert(s1.contains(entry)) by {
        assert(s1[w.len() as int] == entry);
    }
    lemma_run_keeps(s1, entry, calls);
    let x = choose|x: Stored| #[trigger] run_calls(s1, calls).contains(x) && x.id == entry.id && x.text == entry.text;
    law_fetch_serves_stored(run_calls(s1, calls), x, later, other);
    vstd::utf8::decode_utf8_encode_utf8(body);
}

/// A playlist last accessed more than thirty minutes before `now` is not
/// served at `now`: a fetch of its URL path answers not found.
pub proof fn law_stale_not_served(s: Seq<Stored>, e: Stored, now: u128, other: u128)
    requires
        ids_distinct(s),
        s.contains(e),
        e.last_access < now,
        now - e.last_access > 30 * 60 * 1_000_000_000,
    ensures
        spec_handle(s, "GET"@, playlist_prefix() + id_text(e.id), Seq::empty(), now, other) matches Some((_, a))
            && a == text_answer(404, "Not Found"@, "m3u8 not found"@),
{
    law_expired_not_served(s, e, now, other);
}

/// Whether the text `s` is `lit`.
fn text_is(s: &str, lit: &str) -> (r: bool)
    ensures
        r == (s@ == lit@),
{
    let a = chars_of(s);
    let b = chars_of(lit);
    assert(a@.subrange(0, a@.len() as int) == a@);
    window_eq(&a, 0, a.len(), &b)
}

/// The JSON answer to a stored upload.
fn stored_response(id: u128) -> (r: Response)
    ensures
        r@ == stored_answer(id),
{
    let mut text = "{\"url\":\"http://127.0.0.1:".to_string();
    push_decimal(&mut text, DEFAULT_PORT as u64);
    text.append("/m3u8/");
    text.append(format_id(id).as_str());
    text.append("\"}");
    proof {
        reveal_strlit("{\"url\":\"http://127.0.0.1:");
        reveal_strlit("{\"url\":\"");
        reveal_strlit("http://127.0.0.1:");
        assert("{\"url\":\"http://127.0.0.1:"@ =~= "{\"url\":\""@ + "http://127.0.0.1:"@);
        assert(text@ =~= "{\"url\":\""@ + playlist_url(id) + "\"}"@);
    }
    Response {
        code: 200,
        reason: "OK".to_string(),
        content_type: "application/json; charset=utf-8".to_string(),
        body: text.as_str().as_bytes_vec(),
    }
}

/// The JSON answer to a status request.
fn status_response() -> (r: Response)
    ensures
        r@ == status_answer(),
{
    let mut text = "{\"ok\":true,\"port\":".to_string();
    push_decimal(&mut text, DEFAULT_PORT as u64);
    text.append("}");
    Response {
        code: 200,
        reason: "OK".to_string(),
        content_type: "application/json; charset=utf-8".to_string(),
        body: text.as_str().as_bytes_vec(),
    }
}

/// The identifier part of a playlist path `/m3u8/<id>`: everything after the prefix.
pub fn playlist_id_text(path: &str) -> (r: Option<String>)
    ensures
        path@.len() >= 6 && path@.take(6) == playlist_prefix() ==> (r matches Some(t) && t@ == path@.skip(6)),
        !(path@.len() >= 6 && path@.take(6) == playlist_prefix()) ==> r is None,
{
    let v = chars_of(path);
    let prefix = chars_of("/m3u8/");
    if v.len() >= 6 && window_eq(&v, 0, 6, &prefix) {
        assert(v@.take(6) =~= v@.subrange(0, 6));
        let t = string_of(&v, 6, v.len());
        assert(t@ =~= path@.skip(6));
        return Some(t);
    }
    assert(v@.len() >= 6 ==> v@.take(6) =~= v@.subrange(0, 6));
    None
}

impl Store {
    /// Answers a request at time `now`, storing an upload under `id`.
    pub fn handle_request_with_id(&mut self, request: Request, now: u128, id: u128) -> (r: Result<Response, HandleError>)
        requires
            old(self).wf(),
        ensures
            final(self).wf(),
            answers(old(self)@, request.method@, request.path@, request.body@, now, id, final(self)@, r),
    {
        let ghost s0 = self@;
        let method = request.method.as_str();
        let path = request.path.as_str();
        if text_is(method, "OPTIONS") {
            return Ok(Response {
                code: 204,
                reason: "No Content".to_string(),
                content_type: "text/plain; charset=utf-8".to_string(),
                body: Vec::new(),
            });
        }
        if text_is(method, "GET") && text_is(path, "/api/status") {
            return Ok(status_response());
        }
        if text_is(method, "POST") && text_is(path, "/api/m3u8") {
            let ghost body = request.body@;
            let content = match string_from_utf8(request.body) {
                Ok(c) => c,
                Err(e) => {
                    return Err(HandleError::BodyNotUtf8(e));
                },
            };
            if !is_playlist(content.as_str()) {
                return Ok(text_response(400, "Bad Request", "request body is not a valid m3u8"));
            }
            proof {
                vstd::utf8::decode_utf8_encode_utf8(body);
            }
            return Ok(self.store_playlist(content, now, id));
        }
        if text_is(method, "GET") {
            if let Some(id_text) = playlist_id_text(path) {
                self.cleanup_expired(now);
                let found = match parse_id(id_text.as_str()) {
                    Some(x) => self.fetch(x, now),
                    None => None,
                };
                return match found {
                    Some(bytes) => Ok(Response {
                        code: 200,
                        reason: "OK".to_string(),
                        content_type: "application/vnd.apple.mpegurl; charset=utf-8".to_string(),
                        body: bytes,
                    }),
                    None => Ok(text_response(404, "Not Found", "m3u8 not found")),
                };
            }
        }
        Ok(text_response(404, "Not Found", "not found"))
    }

    /// Stores a playlist upload at time `now` under `id`, after clearing out
    /// expired playlists and making room, unless it is larger than the cache.
    fn store_playlist(&mut self, content: String, now: u128, id: u128) -> (r: Response)
        requires
            old(self).wf(),
        ensures
            final(self).wf(),
            encode_utf8(content@).len() > MAX_STORE_SIZE ==> final(self)@ == live(old(self)@, now) && r@ == text_answer(
                413,
                "Payload Too Large"@,
                "m3u8 is larger than the Bridge cache limit"@,
            ),
            encode_utf8(content@).len() <= MAX_STORE_SIZE ==> final(self)@ == without_id(
                evict(live(old(self)@, now), encode_utf8(content@).len()),
                id,
            ).push(Stored { id, text: content@, last_access: now }) && r@ == stored_answer(id),
    {
        let ghost s0 = self@;
        self.cleanup_expired(now);
        let len = content.as_str().as_bytes().len();
        if len > MAX_STORE_SIZE {
            return text_response(413, "Payload Too Large", "m3u8 is larger than the Bridge cache limit");
        }
        self.make_room(len);
        proof {
            super::store::law_evict_fits(live(s0, now), len as nat);
            if self@.len() == 0 {
                assert(bytes_total(self@) == 0);
            }
        }
        self.insert(id, content, now);
        stored_response(id)
    }

    /// Answers a request at time `now`. An upload that will be stored is
    /// given a fresh random identifier, drawn once the body has been checked;
    /// where none can be drawn, the upload is refused and nothing changes.
    pub fn handle_request(&mut self, request: Request, now: u128) -> (r: Result<Response, HandleError>)
        requires
            old(self).wf(),
        ensures
            final(self).wf(),
            r matches Err(HandleError::NoRandomId) ==> request.method@ == "POST"@ && request.path@ == "/api/m3u8"@
                && valid_utf8(request.body@) && looks_like_playlist(decode_utf8(request.body@)) && final(self)@ == old(
                self,
            )@,
            !(r matches Err(HandleError::NoRandomId)) ==> exists|id: u128| #[trigger]
                answers(old(self)@, request.method@, request.path@, request.body@, now, id, final(self)@, r),
    {
        if text_is(request.method.as_str(), "POST") && text_is(request.path.as_str(), "/api/m3u8") {
            let ghost s0 = self@;
            let ghost method = request.method@;
            let ghost path = request.path@;
            let ghost body = request.body@;
            proof {
                lemma_literals();
            }
            let content = match string_from_utf8(request.body) {
                Ok(c) => c,
                Err(e) => {
                    let r = Err(HandleError::BodyNotUtf8(e));
                    assert(answers(s0, method, path, body, now, 0, self@, r));
                    return r;
                },
            };
            if !is_playlist(content.as_str()) {
                let r = Ok(text_response(400, "Bad Request", "request body is not a valid m3u8"));
                assert(answers(s0, method, path, body, now, 0, self@, r));
                return r;
            }
            proof {
                vstd::utf8::decode_utf8_encode_utf8(body);
            }
            let id = match new_id() {
                Some(id) => id,
                None => {
                    return Err(HandleError::NoRandomId);
                },
            };
            let r = Ok(self.store_playlist(content, now, id));
            assert(answers(s0, method, path, body, now, id, self@, r));
            return r;
        }
        self.handle_request_with_id(request, now, 0)
    }
}

} // verus!
