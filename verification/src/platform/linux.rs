//! Linux desktops, where a desktop entry declares the scheme handler.

use vstd::prelude::*;
use crate::text::{chars_of, push_char};

verus! {

/// Whether a desktop-entry `Exec` argument needs a backslash before `c`.
pub open spec fn needs_escape(c: char) -> bool {
    c == '\\' || c == '"' || c == '$' || c == '`'
}

/// `s` with a backslash before each `\`, `"`, `$` and `` ` ``.
pub open spec fn escaped(s: Seq<char>) -> Seq<char>
    decreases s.len(),
{
    if s.len() == 0 {
        Seq::empty()
    } else if needs_escape(s.last()) {
        escaped(s.drop_last()) + seq!['\\', s.last()]
    } else {
        escaped(s.drop_last()).push(s.last())
    }
}

/// An `Exec` argument as quoted for a desktop entry.
pub open spec fn quoted(s: Seq<char>) -> Seq<char> {
    seq!['"'] + escaped(s) + seq!['"']
}

/// Reading back an escaped argument from left to right: a backslash
/// followed by `\`, `"`, `$` or `` ` `` stands for that character; every
/// other character stands for itself.
pub open spec fn unescaped(s: Seq<char>) -> Seq<char>
    decreases s.len(),
{
    if s.len() == 0 {
        Seq::empty()
    } else if s[0] == '\\' && s.len() >= 2 && needs_escape(s[1]) {
        seq![s[1]] + unescaped(s.skip(2))
    } else {
        seq![s[0]] + unescaped(s.skip(1))
    }
}

proof fn lemma_unescaped_append(a: Seq<char>, c: char)
    requires
        unescaped(escaped(a)) == a,
    ensures
        unescaped(escaped(a.push(c))) == a.push(c),
{
    let e = escaped(a);
    let tail = if needs_escape(c) { seq!['\\', c] } else { seq![c] };
    assert(a.push(c).drop_last() =~= a);
    assert(escaped(a.push(c)) =~= e + tail);
    lemma_unescaped_concat(e, tail);
    if needs_escape(c) {
        assert(tail.skip(2) =~= Seq::<char>::empty());
        assert(unescaped(tail.skip(2)) == Seq::<char>::empty());
        assert(unescaped(tail) =~= seq![c]);
    } else {
        assert(tail.skip(1) =~= Seq::<char>::empty());
        assert(unescaped(tail.skip(1)) == Seq::<char>::empty());
        assert(unescaped(tail) =~= seq![c]);
    }
    assert(a + unescaped(tail) =~= a.push(c));
}

/// Reading back an escaped text and a following escaped piece reads back each.
proof fn lemma_unescaped_concat(e: Seq<char>, tail: Seq<char>)
    requires
        exists|a: Seq<char>| escaped(a) == e,
    ensures
        unescaped(e + tail) == unescaped(e) + unescaped(tail),
    decreases e.len(),
{
    let a = choose|a: Seq<char>| escaped(a) == e;
    lemma_escaped_head(a);
    if e.len() == 0 {
        assert(e + tail =~= tail);
    } else if e[0] == '\\' {
        let a2 = a.skip(1);
        assert(escaped(a2) == e.skip(2));
        lemma_unescaped_concat(e.skip(2), tail);
        assert((e + tail).skip(2) =~= e.skip(2) + tail);
    } else {
        let a2 = a.skip(1);
        assert(escaped(a2) == e.skip(1));
        lemma_unescaped_concat(e.skip(1), tail);
        assert((e + tail).skip(1) =~= e.skip(1) + tail);
    }
}

/// The escaping of a non-empty text starts with the escaping of its first character.
proof fn lemma_escaped_head(a: Seq<char>)
    ensures
        a.len() == 0 ==> escaped(a).len() == 0,
        a.len() > 0 && needs_escape(a[0]) ==> escaped(a).len() >= 2 && escaped(a)[0] == '\\'
            && escaped(a)[1] == a[0] && escaped(a).skip(2) == escaped(a.skip(1)),
        a.len() > 0 && !needs_escape(a[0]) ==> escaped(a).len() >= 1 && escaped(a)[0] == a[0]
            && escaped(a)[0] != '\\' && escaped(a).skip(1) == escaped(a.skip(1)),
    decreases a.len(),
{
    if a.len() > 1 {
        let t = a.drop_last();
        lemma_escaped_head(t);
        assert(t[0] == a[0]);
        assert(a.skip(1).drop_last() =~= t.skip(1));
        assert(a.skip(1).last() == a.last());
        if needs_escape(a[0]) {
            assert(escaped(a).skip(2) =~= escaped(a.skip(1)));
        } else {
            assert(escaped(a).skip(1) =~= escaped(a.skip(1)));
        }
    } else if a.len() == 1 {
        assert(a.drop_last() =~= Seq::<char>::empty());
        assert(escaped(a.drop_last()) == Seq::<char>::empty());
        assert(a.last() == a[0]);
        assert(a.skip(1) =~= Seq::<char>::empty());
        if needs_escape(a[0]) {
            assert(escaped(a) =~= seq!['\\', a[0]]);
            assert(escaped(a).skip(2) =~= Seq::<char>::empty());
        } else {
            assert(escaped(a) =~= seq![a[0]]);
            assert(escaped(a).skip(1) =~= Seq::<char>::empty());
        }
    }
}

/// Escaping a desktop-entry argument loses nothing: reading the escaped
/// text back gives the original.
pub proof fn law_escape_roundtrip(s: Seq<char>)
    ensures
        unescaped(escaped(s)) == s,
    decreases s.len(),
{
    if s.len() > 0 {
        law_escape_roundtrip(s.drop_last());
        lemma_unescaped_append(s.drop_last(), s.last());
        assert(s.drop_last().push(s.last()) =~= s);
    }
}

/// A character gets a backslash before it exactly when it is `\`, `"`, `$`
/// or `` ` ``; every other character is kept as it is.
pub proof fn law_escaped_char(c: char)
    ensures
        escaped(seq![c]) == (if c == '\\' || c == '"' || c == '$' || c == '`' {
            seq!['\\', c]
        } else {
            seq![c]
        }),
{
    let s = seq![c];
    assert(s.drop_last() =~= Seq::<char>::empty());
    assert(escaped(s.drop_last()) == Seq::<char>::empty());
    assert(Seq::<char>::empty() + seq!['\\', c] =~= seq!['\\', c]);
    assert(Seq::<char>::empty().push(c) =~= seq![c]);
}

/// Escaping goes character by character: escaping two texts one after the
/// other gives the escaping of each, one after the other.
pub proof fn law_escaped_concat(a: Seq<char>, b: Seq<char>)
    ensures
        escaped(a + b) == escaped(a) + escaped(b),
    decreases b.len(),
{
    if b.len() == 0 {
        assert(a + b =~= a);
        assert(escaped(b) == Seq::<char>::empty());
        assert(escaped(a) + escaped(b) =~= escaped(a));
    } else {
        let t = b.drop_last();
        law_escaped_concat(a, t);
        assert((a + b).drop_last() =~= a + t);
        assert((a + b).last() == b.last());
        if needs_escape(b.last()) {
            assert(escaped(a + b) =~= escaped(a) + escaped(t) + seq!['\\', b.last()]);
        } else {
            assert(escaped(a + b) =~= (escaped(a) + escaped(t)).push(b.last()));
        }
    }
}

/// A path that holds none of `\`, `"`, `$` and `` ` `` is quoted as it is,
/// between double quotes: no backslash is added anywhere.
pub proof fn law_plain_path_quoted(p: Seq<char>)
    requires
        forall|i: int| 0 <= i < p.len() ==> #[trigger] p[i] != '\\' && p[i] != '"' && p[i] != '$' && p[i] != '`',
    ensures
        quoted(p) == seq!['"'] + p + seq!['"'],
        escaped(p) == p,
    decreases p.len(),
{
    if p.len() > 0 {
        let t = p.drop_last();
        assert forall|i: int| 0 <= i < t.len() implies #[trigger] t[i] != '\\' && t[i] != '"' && t[i] != '$'
            && t[i] != '`' by {
            assert(t[i] == p[i]);
        }
        law_plain_path_quoted(t);
        assert(p.last() == p[p.len() - 1]);
        assert(t.push(p.last()) =~= p);
    } else {
        assert(p =~= Seq::<char>::empty());
    }
}

/// A quoted `Exec` argument is enclosed in double quotes, and reading back
/// what stands between them gives the original argument.
pub proof fn law_quoted_roundtrip(p: Seq<char>)
    ensures
        quoted(p).len() >= 2,
        quoted(p)[0] == '"',
        quoted(p).last() == '"',
        unescaped(quoted(p).subrange(1, quoted(p).len() - 1)) == p,
{
    law_escape_roundtrip(p);
    assert(quoted(p).subrange(1, quoted(p).len() - 1) =~= escaped(p));
}

/// Quotes a path for the `Exec` line of a desktop entry: within double
/// quotes, with `\`, `"`, `$` and `` ` `` escaped by a backslash.
pub fn quote_exec_arg(path: &str) -> (r: String)
    ensures
        r@ == quoted(path@),
{
    let v = chars_of(path);
    let mut r = String::new();
    push_char(&mut r, '"');
    let mut i: usize = 0;
    while i < v.len()
        invariant
            i <= v.len(),
            v@ == path@,
            r@ == seq!['"'] + escaped(v@.take(i as int)),
        decreases v.len() - i,
    {
        let c = v[i];
        assert(v@.take(i + 1).drop_last() =~= v@.take(i as int));
        assert(v@.take(i + 1).last() == c);
        if c == '\\' || c == '"' || c == '$' || c == '`' {
            push_char(&mut r, '\\');
        }
        push_char(&mut r, c);
        assert(r@ =~= seq!['"'] + escaped(v@.take(i + 1)));
        i += 1;
    }
    push_char(&mut r, '"');
    assert(v@.take(v@.len() as int) =~= v@);
    r
}

/// The file name of the desktop entry that handles the scheme.
pub fn desktop_file_name() -> (r: &'static str)
    ensures
        r@ == "scheme-handler-ush.desktop"@,
{
    "scheme-handler-ush.desktop"
}

/// The MIME type under which desktops look up the handler of `scheme`.
pub fn scheme_mime_type(scheme: &str) -> (r: String)
    ensures
        r@ == "x-scheme-handler/"@ + scheme@,
{
    let mut r = "x-scheme-handler/".to_string();
    r.append(scheme);
    r
}

/// The desktop entry that makes `exe` (run as `exe run <link>`) the hidden
/// handler of `scheme`.
pub fn desktop_entry(exe: &str, scheme: &str) -> (r: String)
    ensures
        r@ == "[Desktop Entry]\nVersion=1.0\nType=Application\nName=scheme-handler\nExec="@ + quoted(exe@)
            + " run %u\nNoDisplay=true\nTerminal=false\nMimeType=x-scheme-handler/"@ + scheme@ + ";\n"@,
{
    let mut r = "[Desktop Entry]\nVersion=1.0\nType=Application\nName=scheme-handler\nExec=".to_string();
    r.append(quote_exec_arg(exe).as_str());
    r.append(" run %u\nNoDisplay=true\nTerminal=false\nMimeType=x-scheme-handler/");
    r.append(scheme);
    r.append(";\n");
    r
}

} // verus!
