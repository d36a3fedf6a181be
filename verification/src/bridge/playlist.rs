//! Recognising an m3u8 playlist: after any byte-order marks and leading
//! whitespace, its first line is `#EXTM3U`.

use vstd::prelude::*;
use crate::text::{find_char, lead_len, lemma_lead_len_is, trim_start, CharClass};

verus! {

broadcast use vstd::string::group_string_axioms;

/// The byte-order mark that may precede a playlist.
pub open spec fn bom() -> char {
    '\u{feff}'
}

/// The header line of an m3u8 playlist.
pub open spec fn playlist_header() -> Seq<char> {
    seq!['#', 'E', 'X', 'T', 'M', '3', 'U']
}

/// A line without its trailing carriage return, if any.
pub open spec fn strip_cr(l: Seq<char>) -> Seq<char> {
    if l.len() > 0 && l.last() == '\r' {
        l.drop_last()
    } else {
        l
    }
}

/// The first line of a non-empty text, as `str::lines` yields it: up to the
/// first line feed, without a carriage return before it; without a line
/// feed, the whole text.
pub open spec fn first_line(u: Seq<char>) -> Seq<char> {
    match find_char(u, '\n') {
        Some(i) => strip_cr(u.take(i)),
        None => u,
    }
}

/// The text after its leading byte-order marks and then its leading whitespace.
pub open spec fn playlist_body(t: Seq<char>) -> Seq<char> {
    trim_start(trim_start(t, CharClass::Exactly(bom())), CharClass::Whitespace)
}

/// Whether a text is an m3u8 playlist: what follows its leading byte-order
/// marks and whitespace is not empty and its first line is `#EXTM3U`.
pub open spec fn looks_like_playlist(t: Seq<char>) -> bool {
    playlist_body(t).len() > 0 && first_line(playlist_body(t)) == playlist_header()
}

/// A text whose first line is `#EXTM3U`, ended by `\n` or `\r\n`, is a
/// playlist, whatever follows.
pub proof fn law_header_line_is_playlist(rest: Seq<char>)
    ensures
        looks_like_playlist("#EXTM3U"@ + seq!['\n'] + rest),
        looks_like_playlist("#EXTM3U"@ + seq!['\r', '\n'] + rest),
{
    reveal_strlit("#EXTM3U");
    let h = "#EXTM3U"@;
    assert(h =~= playlist_header());
    let t1 = h + seq!['\n'] + rest;
    let t2 = h + seq!['\r', '\n'] + rest;
    lemma_lead_len_is(t1, CharClass::Exactly(bom()), 0);
    lemma_lead_len_is(t2, CharClass::Exactly(bom()), 0);
    assert(trim_start(t1, CharClass::Exactly(bom())) =~= t1);
    assert(trim_start(t2, CharClass::Exactly(bom())) =~= t2);
    lemma_lead_len_is(t1, CharClass::Whitespace, 0);
    lemma_lead_len_is(t2, CharClass::Whitespace, 0);
    assert(playlist_body(t1) =~= t1);
    assert(playlist_body(t2) =~= t2);
    assert(forall|j: int| 0 <= j < 7 ==> #[trigger] t1[j] != '\n');
    crate::text::lemma_find_char(t1, '\n', 7);
    assert(t1.take(7) =~= h);
    assert(forall|j: int| 0 <= j < 8 ==> #[trigger] t2[j] != '\n');
    crate::text::lemma_find_char(t2, '\n', 8);
    assert(t2.take(8).drop_last() =~= h);
}

/// A text is a playlist only if, after byte-order marks and whitespace, it
/// has `#EXTM3U` followed by the end of the text, by `\n`, or by `\r\n`.
pub proof fn law_playlist_starts_with_header(t: Seq<char>)
    requires
        looks_like_playlist(t),
    ensures
        exists|k: int| #![trigger t.subrange(k, k + 7)]
            0 <= k && k + 7 <= t.len()
            && (forall|j: int| 0 <= j < k ==> #[trigger] t[j] == '\u{feff}' || crate::text::is_ws(t[j]))
            && t.subrange(k, k + 7) == "#EXTM3U"@
            && (k + 7 == t.len() || t[k + 7] == '\n' || (k + 8 < t.len() && t[k + 7] == '\r' && t[k + 8] == '\n')),
{
    reveal_strlit("#EXTM3U");
    let bc = CharClass::Exactly(bom());
    let nb = lead_len(t, bc) as int;
    crate::text::lemma_lead_len_bound(t, bc);
    let v = t.skip(nb);
    let nw = lead_len(v, CharClass::Whitespace) as int;
    crate::text::lemma_lead_len_bound(v, CharClass::Whitespace);
    let u = v.skip(nw);
    assert(u == playlist_body(t));
    let k = nb + nw;
    assert(u =~= t.skip(k));
    assert forall|j: int| 0 <= j < k implies #[trigger] t[j] == '\u{feff}' || crate::text::is_ws(t[j]) by {
        if j < nb {
            assert(crate::text::in_class(bc, t[j]));
        } else {
            assert(t[j] == v[j - nb]);
            assert(crate::text::in_class(CharClass::Whitespace, v[j - nb]));
        }
    }
    crate::text::lemma_find_char_found(u, '\n');
    match find_char(u, '\n') {
        None => {
            assert(u =~= playlist_header());
            assert(t.subrange(k, k + 7) =~= u);
        },
        Some(i) => {
            let l = u.take(i);
            if l.len() > 0 && l.last() == '\r' {
                assert(l.drop_last() =~= playlist_header());
                assert(i == 8);
                assert(t.subrange(k, k + 7) =~= l.drop_last());
                assert(t[k + 7] == u[7] && t[k + 8] == u[8]);
            } else {
                assert(l =~= playlist_header());
                assert(t.subrange(k, k + 7) =~= l);
                assert(t[k + 7] == u[7]);
            }
        },
    }
    assert(t.subrange(k, k + 7) == "#EXTM3U"@);
}

/// Whether `buf` is the header line once a final line feed and a carriage
/// return before it are removed (`has_lf`), or as it is.
fn line_is_header(buf: &Vec<char>, has_lf: bool) -> (r: bool)
    requires
        has_lf ==> buf@.len() > 0,
    ensures
        r == (if has_lf {
            strip_cr(buf@.drop_last()) == playlist_header()
        } else {
            buf@ == playlist_header()
        }),
{
    let header = crate::text::chars_of("#EXTM3U");
    proof {
        reveal_strlit("#EXTM3U");
        assert(header@ =~= playlist_header());
    }
    let mut end = buf.len();
    if has_lf {
        end = end - 1;
        if end > 0 && buf[end - 1] == '\r' {
            end = end - 1;
        }
        proof {
            let l = buf@.drop_last();
            if l.len() > 0 && l.last() == '\r' {
                assert(buf@.subrange(0, end as int) =~= l.drop_last());
            } else {
                assert(buf@.subrange(0, end as int) =~= l);
            }
        }
    } else {
        assert(buf@.subrange(0, end as int) =~= buf@);
    }
    crate::text::window_eq(buf, 0, end, &header)
}

/// Whether a text is an m3u8 playlist. Reads only as far into the text as
/// its first line needs.
pub fn is_playlist(text: &str) -> (r: bool)
    ensures
        r == looks_like_playlist(text@),
{
    let ghost t = text@;
    let ghost bom_class = CharClass::Exactly(bom());
    let mut it = text.chars();
    let ghost mut seen: Seq<char> = Seq::empty();
    let ghost mut nb: int = 0;
    let ghost mut nw: int = 0;
    let mut phase: u8 = 0;
    let mut buf: Vec<char> = Vec::new();
    let mut ended = false;
    loop
        invariant_except_break
            !ended,
            phase == 2 ==> 0 <= nw && nb + nw <= seen.len() && nw == lead_len(t.skip(nb), CharClass::Whitespace)
                && buf@ == seen.skip(nb + nw) && 1 <= buf@.len() < 9 && forall|i: int| 0 <= i < buf@.len() ==> #[trigger] buf@[i] != '\n',
            phase == 0 ==> buf@.len() == 0,
            phase == 1 ==> buf@.len() == 0,
        invariant
            t == text@,
            bom_class == CharClass::Exactly(bom()),
            seen + vstd::std_specs::iter::IteratorSpec::remaining(&it) == t,
            vstd::std_specs::iter::IteratorSpec::decrease(&it) is Some,
            phase <= 2,
            phase == 0 ==> forall|i: int| 0 <= i < seen.len() ==> #[trigger] seen[i] == bom(),
            phase >= 1 ==> 0 <= nb <= seen.len() && nb == lead_len(t, bom_class),
            phase == 1 ==> forall|i: int| nb <= i < seen.len() ==> crate::text::is_ws(#[trigger] seen[i]),
        ensures
            seen + vstd::std_specs::iter::IteratorSpec::remaining(&it) == t,
            phase <= 2,
            ended ==> vstd::std_specs::iter::IteratorSpec::remaining(&it).len() == 0,
            phase == 0 ==> ended && forall|i: int| 0 <= i < seen.len() ==> #[trigger] seen[i] == bom(),
            phase >= 1 ==> 0 <= nb <= seen.len() && nb == lead_len(t, bom_class),
            phase == 1 ==> ended && forall|i: int| nb <= i < seen.len() ==> crate::text::is_ws(#[trigger] seen[i]),
            phase == 2 ==> 0 <= nw && nb + nw <= seen.len() && nw == lead_len(t.skip(nb), CharClass::Whitespace)
                && buf@ == seen.skip(nb + nw) && 1 <= buf@.len() <= 9
                && (forall|i: int| 0 <= i < buf@.len() - 1 ==> #[trigger] buf@[i] != '\n')
                && (!ended ==> (buf@.last() == '\n' || (buf@.len() == 9 && buf@.last() != '\n')))
                && (ended ==> buf@.last() != '\n'),
        decreases vstd::std_specs::iter::IteratorSpec::decrease(&it)->0,
    {
        let ghost before = seen;
        match it.next() {
            None => {
                ended = true;
                break;
            },
            Some(c) => {
                proof {
                    seen = seen.push(c);
                    assert(t[before.len() as int] == c);
                    assert(seen =~= t.take(seen.len() as int));
                }
                if phase == 0 && c != '\u{feff}' {
                    proof {
                        nb = before.len() as int;
                        assert forall|j: int| 0 <= j < nb implies crate::text::in_class(bom_class, #[trigger] t[j]) by {
                            assert(t[j] == before[j]);
                            assert(before[j] == bom());
                        }
                        assert(t[nb] == c);
                        assert(!crate::text::in_class(bom_class, t[nb]));
                        lemma_lead_len_is(t, bom_class, nb);
                    }
                    phase = 1;
                }
                if phase == 1 && !crate::text::is_whitespace(c) {
                    proof {
                        nw = before.len() - nb;
                        let u = t.skip(nb);
                        assert forall|j: int| 0 <= j < nw implies crate::text::in_class(CharClass::Whitespace, #[trigger] u[j]) by {
                            assert(u[j] == t[nb + j]);
                            assert(t[nb + j] == before[nb + j]);
                        }
                        assert(u[nw] == c);
                        lemma_lead_len_is(u, CharClass::Whitespace, nw);
                    }
                    phase = 2;
                }
                if phase == 2 {
                    buf.push(c);
                    assert(buf@ =~= seen.skip(nb + nw));
                    if c == '\n' || buf.len() >= 9 {
                        break;
                    }
                }
            },
        }
    }
    proof {
        if ended {
            assert(seen =~= t);
        }
    }
    let ghost u = playlist_body(t);
    if phase == 0 {
        proof {
            assert forall|j: int| 0 <= j < t.len() implies crate::text::in_class(bom_class, #[trigger] t[j]) by {}
            lemma_lead_len_is(t, bom_class, t.len() as int);
            assert(trim_start(t, bom_class).len() == 0);
        }
        return false;
    }
    if phase == 1 {
        proof {
            let v = t.skip(nb);
            assert(trim_start(t, bom_class) =~= v);
            assert forall|j: int| 0 <= j < v.len() implies crate::text::in_class(CharClass::Whitespace, #[trigger] v[j]) by {
                assert(v[j] == t[nb + j]);
            }
            lemma_lead_len_is(v, CharClass::Whitespace, v.len() as int);
        }
        return false;
    }
    proof {
        assert(trim_start(t, bom_class) =~= t.skip(nb));
        assert(u =~= t.skip(nb + nw));
        assert(buf@ =~= u.take(buf@.len() as int));
    }
    if ended {
        proof {
            assert(buf@ =~= u);
            assert forall|j: int| 0 <= j < u.len() implies u[j] != '\n' by {
                assert(u[j] == buf@[j]);
            }
            crate::text::lemma_find_char(u, '\n', u.len() as int);
        }
        return line_is_header(&buf, false);
    }
    let n = buf.len();
    if buf[n - 1] == '\n' {
        proof {
            assert forall|j: int| 0 <= j < n - 1 implies u[j] != '\n' by {
                assert(u[j] == buf@[j]);
            }
            assert(u[n - 1] == '\n');
            crate::text::lemma_find_char(u, '\n', n - 1);
            assert(u.take(n - 1) =~= buf@.drop_last());
        }
        return line_is_header(&buf, true);
    }
    proof {
        assert forall|j: int| 0 <= j < 9 implies u[j] != '\n' by {
            assert(u[j] == buf@[j]);
        }
        crate::text::lemma_find_char_found(u, '\n');
        if let Some(i) = find_char(u, '\n') {
            assert(i >= 9);
            assert(strip_cr(u.take(i)).len() >= 8);
        }
    }
    false
}

} // verus!
