//! Character-level helpers shared by the parsers: whitespace, trimming and
//! ASCII case folding, each with the `Seq<char>` model it implements.

use vstd::prelude::*;

verus! {

broadcast use vstd::string::group_string_axioms;

/// Unicode `White_Space`, the set of characters for which `char::is_whitespace` holds.
pub open spec fn is_ws(c: char) -> bool {
    let u = c as u32;
    ||| 0x09 <= u <= 0x0D
    ||| u == 0x20
    ||| u == 0x85
    ||| u == 0xA0
    ||| u == 0x1680
    ||| 0x2000 <= u <= 0x200A
    ||| u == 0x2028
    ||| u == 0x2029
    ||| u == 0x202F
    ||| u == 0x205F
    ||| u == 0x3000
}

/// Executable form of [`is_ws`].
pub fn is_whitespace(c: char) -> (b: bool)
    ensures
        b == is_ws(c),
{
    let u = c as u32;
    (0x09 <= u && u <= 0x0D) || u == 0x20 || u == 0x85 || u == 0xA0 || u == 0x1680 || (0x2000
        <= u && u <= 0x200A) || u == 0x2028 || u == 0x2029 || u == 0x202F || u == 0x205F || u
        == 0x3000
}

/// The characters of `s`, in order.
pub fn chars_of(s: &str) -> (v: Vec<char>)
    ensures
        v@ == s@,
{
    let mut it = s.chars();
    let mut v: Vec<char> = Vec::new();
    loop
        invariant
            v@ + vstd::std_specs::iter::IteratorSpec::remaining(&it) == s@,
            vstd::std_specs::iter::IteratorSpec::decrease(&it) is Some,
        ensures
            v@ == s@,
        decreases vstd::std_specs::iter::IteratorSpec::decrease(&it)->0,
    {
        match it.next() {
            Some(c) => {
                v.push(c);
            },
            None => {
                break ;
            },
        }
    }
    v
}


/// A set of characters that a trimming operation strips.
#[derive(Clone, Copy)]
pub enum CharClass {
    /// Unicode whitespace, as `str::trim` strips it.
    Whitespace,
    /// One given character, as `str::trim_end_matches(c)` strips it.
    Exactly(char),
    /// Anything but Unicode whitespace: the characters of a word.
    NotWhitespace,
}

/// Whether `c` belongs to the class `k`.
pub open spec fn in_class(k: CharClass, c: char) -> bool {
    match k {
        CharClass::Whitespace => is_ws(c),
        CharClass::Exactly(x) => c == x,
        CharClass::NotWhitespace => !is_ws(c),
    }
}

/// Number of leading characters of `s` that belong to `k`.
pub open spec fn lead_len(s: Seq<char>, k: CharClass) -> nat
    decreases s.len(),
{
    if s.len() > 0 && in_class(k, s[0]) {
        1 + lead_len(s.drop_first(), k)
    } else {
        0
    }
}

/// Number of trailing characters of `s` that belong to `k`.
pub open spec fn trail_len(s: Seq<char>, k: CharClass) -> nat
    decreases s.len(),
{
    if s.len() > 0 && in_class(k, s.last()) {
        1 + trail_len(s.drop_last(), k)
    } else {
        0
    }
}

/// `s` without its leading characters of class `k`.
pub open spec fn trim_start(s: Seq<char>, k: CharClass) -> Seq<char> {
    s.skip(lead_len(s, k) as int)
}

/// `s` without its trailing characters of class `k`.
pub open spec fn trim_end(s: Seq<char>, k: CharClass) -> Seq<char> {
    s.take(s.len() - trail_len(s, k))
}

/// `s` without leading and trailing whitespace, as `str::trim` gives it.
pub open spec fn trim(s: Seq<char>) -> Seq<char> {
    trim_end(trim_start(s, CharClass::Whitespace), CharClass::Whitespace)
}

/// The run of leading class members is bounded by the sequence.
pub proof fn lemma_lead_len_bound(s: Seq<char>, k: CharClass)
    ensures
        lead_len(s, k) <= s.len(),
        forall|j: int| 0 <= j < lead_len(s, k) ==> in_class(k, #[trigger] s[j]),
        lead_len(s, k) < s.len() ==> !in_class(k, s[lead_len(s, k) as int]),
    decreases s.len(),
{
    if s.len() > 0 && in_class(k, s[0]) {
        lemma_lead_len_bound(s.drop_first(), k);
        assert forall|j: int| 0 <= j < lead_len(s, k) implies in_class(k, #[trigger] s[j]) by {
            if j > 0 {
                assert(s[j] == s.drop_first()[j - 1]);
            }
        }
    }
}

/// The run of trailing class members is bounded by the sequence.
pub proof fn lemma_trail_len_bound(s: Seq<char>, k: CharClass)
    ensures
        trail_len(s, k) <= s.len(),
        forall|j: int| s.len() - trail_len(s, k) <= j < s.len() ==> in_class(k, #[trigger] s[j]),
        trail_len(s, k) < s.len() ==> !in_class(k, s[s.len() - trail_len(s, k) - 1]),
    decreases s.len(),
{
    if s.len() > 0 && in_class(k, s.last()) {
        lemma_trail_len_bound(s.drop_last(), k);
        assert forall|j: int| s.len() - trail_len(s, k) <= j < s.len() implies in_class(
            k,
            #[trigger] s[j],
        ) by {
            if j < s.len() - 1 {
                assert(s[j] == s.drop_last()[j]);
            }
        }
    }
}

/// A run of `i` class members followed by a non-member (or the end) has length `i`.
pub proof fn lemma_lead_len_is(s: Seq<char>, k: CharClass, i: int)
    requires
        0 <= i <= s.len(),
        forall|j: int| 0 <= j < i ==> in_class(k, #[trigger] s[j]),
        i == s.len() || !in_class(k, s[i]),
    ensures
        lead_len(s, k) == i,
    decreases i,
{
    if i > 0 {
        let t = s.drop_first();
        assert forall|j: int| 0 <= j < i - 1 implies in_class(k, #[trigger] t[j]) by {
            assert(t[j] == s[j + 1]);
        }
        if i < s.len() {
            assert(t[i - 1] == s[i]);
        }
        lemma_lead_len_is(t, k, i - 1);
    }
}

/// A trailing run of `i` class members preceded by a non-member (or the start) has length `i`.
pub proof fn lemma_trail_len_is(s: Seq<char>, k: CharClass, i: int)
    requires
        0 <= i <= s.len(),
        forall|j: int| s.len() - i <= j < s.len() ==> in_class(k, #[trigger] s[j]),
        i == s.len() || !in_class(k, s[s.len() - i - 1]),
    ensures
        trail_len(s, k) == i,
    decreases i,
{
    if i > 0 {
        let t = s.drop_last();
        assert forall|j: int| t.len() - (i - 1) <= j < t.len() implies in_class(
            k,
            #[trigger] t[j],
        ) by {
            assert(t[j] == s[j]);
        }
        if i < s.len() {
            assert(t[t.len() - (i - 1) - 1] == s[s.len() - i - 1]);
        }
        lemma_trail_len_is(t, k, i - 1);
    }
}

/// Executable test of class membership.
pub fn char_in_class(k: CharClass, c: char) -> (b: bool)
    ensures
        b == in_class(k, c),
{
    match k {
        CharClass::Whitespace => is_whitespace(c),
        CharClass::Exactly(x) => c == x,
        CharClass::NotWhitespace => !is_whitespace(c),
    }
}

/// Length of the leading run of class `k` in `v[lo..hi]`.
pub fn lead_run(v: &Vec<char>, lo: usize, hi: usize, k: CharClass) -> (n: usize)
    requires
        lo <= hi <= v.len(),
    ensures
        n == lead_len(v@.subrange(lo as int, hi as int), k),
        n <= hi - lo,
{
    let mut i = lo;
    while i < hi && char_in_class(k, v[i])
        invariant
            lo <= i <= hi <= v.len(),
            forall|j: int| lo <= j < i ==> in_class(k, #[trigger] v@[j]),
        decreases hi - i,
    {
        i += 1;
    }
    proof {
        let s = v@.subrange(lo as int, hi as int);
        assert forall|j: int| 0 <= j < i - lo implies in_class(k, #[trigger] s[j]) by {
            assert(s[j] == v@[lo + j]);
        }
        if i < hi {
            assert(s[i - lo] == v@[i as int]);
        }
        lemma_lead_len_is(s, k, i - lo);
    }
    i - lo
}

/// Length of the trailing run of class `k` in `v[lo..hi]`.
pub fn trail_run(v: &Vec<char>, lo: usize, hi: usize, k: CharClass) -> (n: usize)
    requires
        lo <= hi <= v.len(),
    ensures
        n == trail_len(v@.subrange(lo as int, hi as int), k),
        n <= hi - lo,
{
    let mut j = hi;
    while j > lo && char_in_class(k, v[j - 1])
        invariant
            lo <= j <= hi <= v.len(),
            forall|x: int| j <= x < hi ==> in_class(k, #[trigger] v@[x]),
        decreases j - lo,
    {
        j -= 1;
    }
    proof {
        let s = v@.subrange(lo as int, hi as int);
        assert forall|x: int| s.len() - (hi - j) <= x < s.len() implies in_class(
            k,
            #[trigger] s[x],
        ) by {
            assert(s[x] == v@[lo + x]);
        }
        if j > lo {
            assert(s[s.len() - (hi - j) - 1] == v@[j - 1]);
        }
        lemma_trail_len_is(s, k, hi - j);
    }
    hi - j
}

/// Bounds `[a, b)` of `trim(v[lo..hi])` inside `v`.
pub fn trim_bounds(v: &Vec<char>, lo: usize, hi: usize) -> (r: (usize, usize))
    requires
        lo <= hi <= v.len(),
    ensures
        lo <= r.0 <= r.1 <= hi,
        v@.subrange(r.0 as int, r.1 as int) == trim(v@.subrange(lo as int, hi as int)),
{
    let a = lo + lead_run(v, lo, hi, CharClass::Whitespace);
    let n = trail_run(v, a, hi, CharClass::Whitespace);
    proof {
        let s = v@.subrange(lo as int, hi as int);
        assert(trim_start(s, CharClass::Whitespace) =~= v@.subrange(a as int, hi as int));
        assert(v@.subrange(a as int, (hi - n) as int) =~= trim_end(
            v@.subrange(a as int, hi as int),
            CharClass::Whitespace,
        ));
    }
    (a, hi - n)
}

/// ASCII case-insensitive equality of two characters, as `char::eq_ignore_ascii_case`.
pub open spec fn char_eq_ic(a: char, b: char) -> bool {
    ||| a == b
    ||| (0x41 <= a as u32 <= 0x5A && a as u32 + 32 == b as u32)
    ||| (0x41 <= b as u32 <= 0x5A && b as u32 + 32 == a as u32)
}

/// ASCII case-insensitive equality of two strings, as `str::eq_ignore_ascii_case`.
pub open spec fn eq_ic(a: Seq<char>, b: Seq<char>) -> bool {
    &&& a.len() == b.len()
    &&& forall|i: int| 0 <= i < a.len() ==> char_eq_ic(#[trigger] a[i], b[i])
}

/// Executable form of [`char_eq_ic`].
pub fn char_eq_ignore_ascii_case(a: char, b: char) -> (r: bool)
    ensures
        r == char_eq_ic(a, b),
{
    let x = a as u32;
    let y = b as u32;
    x == y || (0x41 <= x && x <= 0x5A && x + 32 == y) || (0x41 <= y && y <= 0x5A && y + 32 == x)
}

/// Whether `v[lo..hi]` equals `w` up to ASCII case.
pub fn window_eq_ic(v: &Vec<char>, lo: usize, hi: usize, w: &Vec<char>) -> (r: bool)
    requires
        lo <= hi <= v.len(),
    ensures
        r == eq_ic(v@.subrange(lo as int, hi as int), w@),
{
    if hi - lo != w.len() {
        return false;
    }
    let mut i: usize = 0;
    while i < w.len()
        invariant
            lo <= hi <= v.len(),
            hi - lo == w.len(),
            i <= w.len(),
            forall|j: int| 0 <= j < i ==> char_eq_ic(#[trigger] v@[lo + j], w@[j]),
        decreases w.len() - i,
    {
        if !char_eq_ignore_ascii_case(v[lo + i], w[i]) {
            assert(v@.subrange(lo as int, hi as int)[i as int] == v@[lo + i]);
            return false;
        }
        i += 1;
    }
    assert forall|j: int| 0 <= j < hi - lo implies char_eq_ic(
        #[trigger] v@.subrange(lo as int, hi as int)[j],
        w@[j],
    ) by {
        assert(v@.subrange(lo as int, hi as int)[j] == v@[lo + j]);
    }
    true
}

/// Whether `v[lo..hi]` equals `w` exactly.
pub fn window_eq(v: &Vec<char>, lo: usize, hi: usize, w: &Vec<char>) -> (r: bool)
    requires
        lo <= hi <= v.len(),
    ensures
        r == (v@.subrange(lo as int, hi as int) == w@),
{
    if hi - lo != w.len() {
        return false;
    }
    let mut i: usize = 0;
    while i < w.len()
        invariant
            lo <= hi <= v.len(),
            hi - lo == w.len(),
            i <= w.len(),
            forall|j: int| 0 <= j < i ==> #[trigger] v@[lo + j] == w@[j],
        decreases w.len() - i,
    {
        if v[lo + i] != w[i] {
            assert(v@.subrange(lo as int, hi as int)[i as int] == v@[lo + i]);
            return false;
        }
        i += 1;
    }
    assert(v@.subrange(lo as int, hi as int) =~= w@) by {
        assert forall|j: int| 0 <= j < hi - lo implies #[trigger] v@.subrange(
            lo as int,
            hi as int,
        )[j] == w@[j] by {
            assert(v@.subrange(lo as int, hi as int)[j] == v@[lo + j]);
        }
    }
    true
}

/// Index of the first `c` in `s`, if any.
pub open spec fn find_char(s: Seq<char>, c: char) -> Option<int>
    decreases s.len(),
{
    if s.len() == 0 {
        None
    } else if s[0] == c {
        Some(0)
    } else {
        match find_char(s.drop_first(), c) {
            Some(i) => Some(i + 1),
            None => None,
        }
    }
}

/// [`find_char`] finds `k` when `s[k]` is the first `c`, and nothing when
/// `s` holds no `c`.
pub proof fn lemma_find_char(s: Seq<char>, c: char, k: int)
    requires
        0 <= k <= s.len(),
        forall|j: int| 0 <= j < k ==> s[j] != c,
        k < s.len() ==> s[k] == c,
    ensures
        find_char(s, c) == (if k < s.len() { Some(k) } else { None::<int> }),
    decreases k,
{
    if k > 0 {
        let t = s.drop_first();
        assert forall|j: int| 0 <= j < k - 1 implies t[j] != c by {
            assert(t[j] == s[j + 1]);
        }
        if k < s.len() {
            assert(t[k - 1] == s[k]);
        }
        lemma_find_char(t, c, k - 1);
    }
}

/// What [`find_char`] finds is a `c`, preceded by none.
pub proof fn lemma_find_char_found(s: Seq<char>, c: char)
    ensures
        find_char(s, c) matches Some(k) ==> 0 <= k < s.len() && s[k] == c && forall|j: int|
            0 <= j < k ==> s[j] != c,
        find_char(s, c) is None ==> forall|j: int| 0 <= j < s.len() ==> s[j] != c,
    decreases s.len(),
{
    if s.len() > 0 && s[0] != c {
        let t = s.drop_first();
        lemma_find_char_found(t, c);
        assert forall|j: int| 0 < j < s.len() implies s[j] == t[j - 1] by {}
    }
}

/// First index `i` in `[lo, hi)` with `v[i] == c`.
pub fn position_of(v: &Vec<char>, lo: usize, hi: usize, c: char) -> (r: Option<usize>)
    requires
        lo <= hi <= v.len(),
    ensures
        match r {
            Some(i) => lo <= i < hi && v@[i as int] == c && find_char(
                v@.subrange(lo as int, hi as int),
                c,
            ) == Some(i - lo),
            None => find_char(v@.subrange(lo as int, hi as int), c) is None,
        },
{
    let ghost s = v@.subrange(lo as int, hi as int);
    let mut i = lo;
    while i < hi
        invariant
            lo <= i <= hi <= v.len(),
            s == v@.subrange(lo as int, hi as int),
            forall|j: int| lo <= j < i ==> #[trigger] v@[j] != c,
        decreases hi - i,
    {
        if v[i] == c {
            proof {
                assert forall|j: int| 0 <= j < i - lo implies s[j] != c by {
                    assert(s[j] == v@[lo + j]);
                }
                lemma_find_char(s, c, i - lo);
            }
            return Some(i);
        }
        i += 1;
    }
    proof {
        assert forall|j: int| 0 <= j < s.len() implies s[j] != c by {
            assert(s[j] == v@[lo + j]);
        }
        lemma_find_char(s, c, s.len() as int);
    }
    None
}

/// The string made of the characters `v[lo..hi]`.
pub fn string_of(v: &Vec<char>, lo: usize, hi: usize) -> (s: String)
    requires
        lo <= hi <= v.len(),
    ensures
        s@ == v@.subrange(lo as int, hi as int),
{
    let mut s = String::new();
    let mut i = lo;
    while i < hi
        invariant
            lo <= i <= hi <= v.len(),
            s@ == v@.subrange(lo as int, i as int),
        decreases hi - i,
    {
        push_char(&mut s, v[i]);
        assert(v@.subrange(lo as int, i + 1) == v@.subrange(lo as int, i as int).push(v@[i as int]));
        i += 1;
    }
    s
}

/// `String::push`: appends one character.
#[verifier::external_body]
pub(crate) fn push_char(s: &mut String, c: char)
    ensures
        final(s)@ == old(s)@.push(c),
{
    s.push(c);
}

} // verus!
