//! The local HTTP bridge that keeps m3u8 playlists for a player: whether a
//! link asks for it, how its start-up is awaited, and how many connections
//! it serves at once.

pub mod http;
pub mod id;
pub mod playlist;
pub mod request;
pub mod service;
pub mod store;

use vstd::prelude::*;
use crate::text::{chars_of, eq_ic, find_char, position_of, window_eq, window_eq_ic};

verus! {

/// The port the bridge listens on, on 127.0.0.1.
pub const DEFAULT_PORT: u16 = 17891;

/// Largest m3u8 body, in bytes, that a request may carry.
pub const MAX_M3U8_SIZE: usize = 16777216;

/// Largest total size, in bytes, of the playlists kept at once.
pub const MAX_STORE_SIZE: usize = 268435456;

/// Most connections served at once.
pub const MAX_CONCURRENT_CONNECTIONS: usize = 32;

/// Time, in nanoseconds, after its last access that a playlist is dropped.
pub const ENTRY_TTL_NANOS: u128 = 1_800_000_000_000;

/// The query key that asks for the bridge.
pub open spec fn need_server_key() -> Seq<char> {
    seq!['n', 'e', 'e', 'd', 'S', 'e', 'r', 'v', 'e', 'r']
}

/// The key and value of a query part: the text before and after its first
/// `=`; without `=`, the whole part and an empty value.
pub open spec fn key_value(part: Seq<char>) -> (Seq<char>, Seq<char>) {
    match find_char(part, '=') {
        Some(i) => (part.take(i), part.skip(i + 1)),
        None => (part, Seq::empty()),
    }
}

/// Whether a query part is `needServer=1`, the key in any ASCII case.
pub open spec fn part_asks_for_server(part: Seq<char>) -> bool {
    eq_ic(key_value(part).0, need_server_key()) && key_value(part).1 == seq!['1']
}

/// Whether some `&`-separated part of the query `q` asks for the bridge.
pub open spec fn query_asks_for_server(q: Seq<char>) -> bool
    decreases q.len(),
{
    match find_char(q, '&') {
        None => part_asks_for_server(q),
        Some(i) => part_asks_for_server(q.take(i)) || if 0 <= i < q.len() {
            query_asks_for_server(q.skip(i + 1))
        } else {
            false
        },
    }
}

/// Whether the link asks for the bridge: some part of the query after its
/// first `?` is `needServer=1`.
pub open spec fn spec_needs_server(input: Seq<char>) -> bool {
    match find_char(input, '?') {
        None => false,
        Some(i) => query_asks_for_server(input.skip(i + 1)),
    }
}

/// Whether the twelve characters of `s` from `i` on are `needServer=1`, the
/// key in any ASCII case.
pub open spec fn request_at(s: Seq<char>, i: int) -> bool {
    &&& 0 <= i
    &&& i + 12 <= s.len()
    &&& eq_ic(s.subrange(i, i + 10), "needServer"@)
    &&& s[i + 10] == '='
    &&& s[i + 11] == '1'
}

/// A text equal to the key up to ASCII case holds neither `&` nor `=`.
proof fn lemma_key_chars(key: Seq<char>)
    requires
        eq_ic(key, need_server_key()),
    ensures
        key.len() == 10,
        forall|i: int| 0 <= i < 10 ==> #[trigger] key[i] != '&' && key[i] != '=',
{
    assert forall|i: int| 0 <= i < 10 implies #[trigger] key[i] != '&' && key[i] != '=' by {
        assert(crate::text::char_eq_ic(key[i], need_server_key()[i]));
        let k = need_server_key();
        assert(k[0] == 'n' && k[1] == 'e' && k[2] == 'e' && k[3] == 'd' && k[4] == 'S');
        assert(k[5] == 'e' && k[6] == 'r' && k[7] == 'v' && k[8] == 'e' && k[9] == 'r');
    }
}

/// A query part that asks for the bridge is `needServer=1`.
proof fn lemma_part_shape(part: Seq<char>)
    requires
        part_asks_for_server(part),
    ensures
        request_at(part, 0),
        part.len() == 12,
{
    reveal_strlit("needServer");
    assert("needServer"@ =~= need_server_key());
    crate::text::lemma_find_char_found(part, '=');
    let i = find_char(part, '=')->0;
    assert(seq!['1'].len() == 1);
    lemma_key_chars(part.take(i));
    assert(part.skip(i + 1) == seq!['1']);
    assert(part.subrange(0, 10) =~= part.take(i));
    assert(part[11] == part.skip(i + 1)[0]);
}

/// A query that asks for the bridge holds `needServer=1` somewhere.
proof fn lemma_query_mentions(q: Seq<char>)
    requires
        query_asks_for_server(q),
    ensures
        exists|i: int| #[trigger] request_at(q, i),
    decreases q.len(),
{
    crate::text::lemma_find_char_found(q, '&');
    match find_char(q, '&') {
        None => {
            lemma_part_shape(q);
            assert(request_at(q, 0));
        },
        Some(j) => {
            if part_asks_for_server(q.take(j)) {
                lemma_part_shape(q.take(j));
                assert(q.take(j).subrange(0, 10) =~= q.subrange(0, 10));
                assert(request_at(q, 0));
            } else {
                let t = q.skip(j + 1);
                lemma_query_mentions(t);
                let i = choose|i: int| #[trigger] request_at(t, i);
                assert(t.subrange(i, i + 10) =~= q.subrange(j + 1 + i, j + 1 + i + 10));
                assert(request_at(q, j + 1 + i));
            }
        },
    }
}

/// A link in which `needServer=1` (the key in any ASCII case) occurs
/// nowhere does not ask for the bridge.
pub proof fn law_no_request_no_bridge(input: Seq<char>)
    requires
        forall|i: int| !#[trigger] request_at(input, i),
    ensures
        !spec_needs_server(input),
{
    if spec_needs_server(input) {
        let k = find_char(input, '?')->0;
        crate::text::lemma_find_char_found(input, '?');
        let q = input.skip(k + 1);
        lemma_query_mentions(q);
        let i = choose|i: int| #[trigger] request_at(q, i);
        assert(q.subrange(i, i + 10) =~= input.subrange(k + 1 + i, k + 1 + i + 10));
        assert(request_at(input, k + 1 + i));
    }
}

/// A query whose `&`-separated parts include `key=1`, `key` being the key in
/// any ASCII case, asks for the bridge.
proof fn lemma_query_with_request(before: Seq<char>, key: Seq<char>, after: Seq<char>)
    requires
        before.len() == 0 || before.last() == '&',
        after.len() == 0 || after[0] == '&',
        eq_ic(key, need_server_key()),
    ensures
        query_asks_for_server(before + key + seq!['=', '1'] + after),
    decreases before.len(),
{
    let part = key + seq!['=', '1'];
    let q = before + key + seq!['=', '1'] + after;
    assert(q =~= before + part + after);
    lemma_key_chars(key);
    crate::text::lemma_find_char(part, '=', 10);
    assert(part.take(10) =~= key);
    assert(part.skip(11) =~= seq!['1']);
    assert(part_asks_for_server(part));
    if before.len() == 0 {
        if after.len() == 0 {
            crate::text::lemma_find_char(q, '&', 12);
            assert(q =~= part);
        } else {
            crate::text::lemma_find_char(q, '&', 12);
            assert(q.take(12) =~= part);
        }
    } else {
        crate::text::lemma_find_char_found(before, '&');
        let j = find_char(before, '&')->0;
        crate::text::lemma_find_char(q, '&', j);
        let rest = before.skip(j + 1);
        assert(q.skip(j + 1) =~= rest + key + seq!['=', '1'] + after);
        if rest.len() > 0 {
            assert(rest.last() == before.last());
        }
        lemma_query_with_request(rest, key, after);
    }
}

/// A link whose query, after its first `?`, has `needServer=1` (the key in
/// any ASCII case) as one of its `&`-separated parts asks for the bridge.
pub proof fn law_request_asks_for_bridge(head: Seq<char>, before: Seq<char>, key: Seq<char>, after: Seq<char>)
    requires
        find_char(head, '?') is None,
        before.len() == 0 || before.last() == '&',
        after.len() == 0 || after[0] == '&',
        eq_ic(key, "needServer"@),
    ensures
        spec_needs_server(head + seq!['?'] + before + key + seq!['=', '1'] + after),
{
    reveal_strlit("needServer");
    assert("needServer"@ =~= need_server_key());
    let input = head + seq!['?'] + before + key + seq!['=', '1'] + after;
    crate::text::lemma_find_char_found(head, '?');
    crate::text::lemma_find_char(input, '?', head.len() as int);
    assert(input.skip(head.len() as int + 1) =~= before + key + seq!['=', '1'] + after);
    lemma_query_with_request(before, key, after);
}

/// Whether the query part `v[lo..hi]` is `needServer=1`.
fn part_is_request(v: &Vec<char>, lo: usize, hi: usize, key: &Vec<char>, one: &Vec<char>) -> (r: bool)
    requires
        lo <= hi <= v.len(),
        key@ == need_server_key(),
        one@ == seq!['1'],
    ensures
        r == part_asks_for_server(v@.subrange(lo as int, hi as int)),
{
    let ghost part = v@.subrange(lo as int, hi as int);
    match position_of(v, lo, hi, '=') {
        Some(e) => {
            assert(part.take(e - lo) =~= v@.subrange(lo as int, e as int));
            assert(part.skip(e - lo + 1) =~= v@.subrange(e + 1, hi as int));
            window_eq_ic(v, lo, e, key) && window_eq(v, e + 1, hi, one)
        },
        None => {
            assert(Seq::<char>::empty() != seq!['1']) by {
                assert(seq!['1'].len() == 1);
            }
            window_eq_ic(v, lo, hi, key) && false
        },
    }
}

/// Whether a `ush://` link explicitly requests the HTTP bridge.
pub fn needs_server(input: &str) -> (r: bool)
    ensures
        r == spec_needs_server(input@),
{
    let v = chars_of(input);
    let key = chars_of("needServer");
    let one = chars_of("1");
    proof {
        reveal_strlit("needServer");
        reveal_strlit("1");
        assert(key@ =~= need_server_key());
        assert(one@ =~= seq!['1']);
    }
    assert(v@.subrange(0, v@.len() as int) == v@);
    let q = match position_of(&v, 0, v.len(), '?') {
        None => {
            return false;
        },
        Some(q) => q,
    };
    let mut start = q + 1;
    assert(input@.skip(q + 1) =~= v@.subrange(start as int, v@.len() as int));
    loop
        invariant
            q < start <= v.len(),
            key@ == need_server_key(),
            one@ == seq!['1'],
            spec_needs_server(input@) == query_asks_for_server(
                v@.subrange(start as int, v@.len() as int),
            ),
        decreases v.len() - start,
    {
        let ghost rest = v@.subrange(start as int, v@.len() as int);
        match position_of(&v, start, v.len(), '&') {
            None => {
                return part_is_request(&v, start, v.len(), &key, &one);
            },
            Some(amp) => {
                assert(rest.take(amp - start) =~= v@.subrange(start as int, amp as int));
                assert(rest.skip(amp - start + 1) =~= v@.subrange(amp + 1, v@.len() as int));
                if part_is_request(&v, start, amp, &key, &one) {
                    return true;
                }
                start = amp + 1;
            },
        }
    }
}

/// The number of open connections after admitting one more, or `None` when
/// the limit is reached.
pub fn try_acquire_connection(active: usize) -> (r: Option<usize>)
    ensures
        active < MAX_CONCURRENT_CONNECTIONS ==> r == Some((active + 1) as usize),
        active >= MAX_CONCURRENT_CONNECTIONS ==> r is None,
{
    if active < MAX_CONCURRENT_CONNECTIONS {
        Some(active + 1)
    } else {
        None
    }
}

/// Times the bridge's status is asked for after starting it.
pub const STARTUP_POLLS: u32 = 100;

/// Pause, in milliseconds, after each status check that finds no bridge.
pub const STARTUP_POLL_INTERVAL_MS: u64 = 100;

/// What making sure the bridge runs does after a status check.
#[derive(Debug, PartialEq, Eq, Structural)]
pub enum StartupStep {
    /// The bridge answers: done.
    Ready,
    /// Start the bridge process, then check again at once.
    Spawn,
    /// Pause, then check again.
    Retry,
    /// Pause, then stop waiting: the bridge may still be starting, and the
    /// client side checks its status itself.
    GiveUp,
}

/// The next step after status check number `checks_done` (counting from 0)
/// found the bridge running or not. Check 0 comes before the bridge is
/// started; checks 1 to [`STARTUP_POLLS`] follow its start.
pub fn startup_step(checks_done: u32, available: bool) -> (r: StartupStep)
    requires
        checks_done <= STARTUP_POLLS,
    ensures
        available ==> r == StartupStep::Ready,
        !available && checks_done == 0 ==> r == StartupStep::Spawn,
        !available && 0 < checks_done < STARTUP_POLLS ==> r == StartupStep::Retry,
        !available && checks_done == STARTUP_POLLS ==> r == StartupStep::GiveUp,
{
    if available {
        StartupStep::Ready
    } else if checks_done == 0 {
        StartupStep::Spawn
    } else if checks_done < STARTUP_POLLS {
        StartupStep::Retry
    } else {
        StartupStep::GiveUp
    }
}

/// The answer to a connection beyond [`MAX_CONCURRENT_CONNECTIONS`].
pub fn busy_response() -> (r: http::Response)
    ensures
        r@ == service::text_answer(429, "Too Many Requests"@, "too many concurrent HTTP Bridge connections"@),
{
    http::text_response(429, "Too Many Requests", "too many concurrent HTTP Bridge connections")
}

} // verus!
