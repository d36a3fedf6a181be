//! Playlist identifiers: 128-bit random numbers, written as 32 lowercase
//! hexadecimal digits in the URLs the bridge hands out.

use vstd::prelude::*;
use vstd::arithmetic::power::pow;
use crate::text::chars_of;

verus! {

/// The lowercase hexadecimal digit for `d < 16`.
pub open spec fn hex_char(d: nat) -> char {
    ((if d < 10 {
        48 + d
    } else {
        87 + d
    }) as u8) as char
}

/// The value of a lowercase hexadecimal digit.
pub open spec fn hex_val(c: char) -> Option<nat> {
    if 48 <= c as u32 <= 57 {
        Some((c as u32 - 48) as nat)
    } else if 97 <= c as u32 <= 102 {
        Some((c as u32 - 87) as nat)
    } else {
        None
    }
}

/// The `n` lowest hexadecimal digits of `x`, most significant first.
pub open spec fn hex_digits(x: nat, n: nat) -> Seq<char>
    decreases n,
{
    if n == 0 {
        Seq::empty()
    } else {
        hex_digits(x / 16, (n - 1) as nat).push(hex_char(x % 16))
    }
}

/// The number that a string of lowercase hexadecimal digits writes.
pub open spec fn hex_value(s: Seq<char>) -> nat
    decreases s.len(),
{
    if s.len() == 0 {
        0
    } else {
        hex_value(s.drop_last()) * 16 + match hex_val(s.last()) {
            Some(d) => d,
            None => 0,
        }
    }
}

/// Whether every character of `s` is a lowercase hexadecimal digit.
pub open spec fn all_hex(s: Seq<char>) -> bool {
    forall|i: int| 0 <= i < s.len() ==> hex_val(#[trigger] s[i]) is Some
}

/// How an identifier is written: 32 lowercase hexadecimal digits.
pub open spec fn id_text(id: u128) -> Seq<char> {
    hex_digits(id as nat, 32)
}

/// The identifier a text writes, if it is 32 lowercase hexadecimal digits.
pub open spec fn parse_id_text(s: Seq<char>) -> Option<u128> {
    if s.len() == 32 && all_hex(s) {
        Some(hex_value(s) as u128)
    } else {
        None
    }
}

proof fn lemma_hex_char_val(d: nat)
    requires
        d < 16,
    ensures
        hex_val(hex_char(d)) == Some(d),
{
}

proof fn lemma_hex_val_char(c: char)
    requires
        hex_val(c) is Some,
    ensures
        hex_val(c)->0 < 16,
        hex_char(hex_val(c)->0) == c,
{
}

proof fn lemma_hex_digits_shape(x: nat, n: nat)
    ensures
        hex_digits(x, n).len() == n,
        all_hex(hex_digits(x, n)),
        hex_value(hex_digits(x, n)) == x % (pow(16, n) as nat),
    decreases n,
{
    if n == 0 {
        assert(pow(16, 0) == 1) by {
            reveal(pow);
        }
    } else {
        let p = pow(16, (n - 1) as nat);
        lemma_hex_digits_shape(x / 16, (n - 1) as nat);
        lemma_hex_char_val(x % 16);
        let s = hex_digits(x, n);
        assert(s.drop_last() == hex_digits(x / 16, (n - 1) as nat));
        assert forall|i: int| 0 <= i < s.len() implies hex_val(#[trigger] s[i]) is Some by {
            if i < s.len() - 1 {
                assert(s[i] == hex_digits(x / 16, (n - 1) as nat)[i]);
            }
        }
        assert(pow(16, n) == 16 * p) by {
            reveal(pow);
        }
        vstd::arithmetic::power::lemma_pow_positive(16, (n - 1) as nat);
        vstd::arithmetic::div_mod::lemma_mod_breakdown(x as int, 16, p);
    }
}

proof fn lemma_hex_value_digits(s: Seq<char>)
    requires
        all_hex(s),
    ensures
        hex_digits(hex_value(s), s.len()) == s,
        hex_value(s) < pow(16, s.len()),
    decreases s.len(),
{
    if s.len() == 0 {
        assert(hex_digits(hex_value(s), 0) =~= s);
        assert(pow(16, 0) == 1) by {
            reveal(pow);
        }
    } else {
        let t = s.drop_last();
        assert(all_hex(t)) by {
            assert forall|i: int| 0 <= i < t.len() implies hex_val(#[trigger] t[i]) is Some by {
                assert(t[i] == s[i]);
            }
        }
        lemma_hex_value_digits(t);
        let d = hex_val(s.last())->0;
        assert(hex_val(s[s.len() - 1]) is Some);
        lemma_hex_val_char(s.last());
        let v = hex_value(s);
        assert(v == hex_value(t) * 16 + d);
        vstd::arithmetic::div_mod::lemma_fundamental_div_mod_converse_div(
            v as int,
            16,
            hex_value(t) as int,
            d as int,
        );
        vstd::arithmetic::div_mod::lemma_fundamental_div_mod_converse_mod(
            v as int,
            16,
            hex_value(t) as int,
            d as int,
        );
        assert(hex_digits(v, s.len()) =~= s);
        assert(pow(16, s.len()) == 16 * pow(16, t.len())) by {
            reveal(pow);
        }
    }
}

proof fn lemma_pow16_32()
    ensures
        pow(16, 32) == 0x1_0000_0000_0000_0000_0000_0000_0000_0000,
{
    reveal_with_fuel(pow, 33);
}

/// Writing an identifier and reading it back gives the identifier.
pub proof fn lemma_id_text_roundtrip(id: u128)
    ensures
        id_text(id).len() == 32,
        parse_id_text(id_text(id)) == Some(id),
{
    lemma_hex_digits_shape(id as nat, 32);
    lemma_pow16_32();
    vstd::arithmetic::div_mod::lemma_small_mod(id as nat, pow(16, 32) as nat);
}

/// Identifiers are written as exactly 32 characters, each a digit `0`-`9`
/// or a lowercase letter `a`-`f`.
pub proof fn law_id_text_lowercase_hex(id: u128)
    ensures
        id_text(id).len() == 32,
        forall|i: int|
            0 <= i < 32 ==> (48 <= #[trigger] id_text(id)[i] as u32 <= 57 || 97 <= id_text(id)[i] as u32 <= 102),
{
    lemma_hex_digits_shape(id as nat, 32);
    assert forall|i: int| 0 <= i < 32 implies (48 <= #[trigger] id_text(id)[i] as u32 <= 57 || 97 <= id_text(
        id,
    )[i] as u32 <= 102) by {
        assert(hex_val(id_text(id)[i]) is Some);
    }
}

/// A text reads as an identifier only if it is how that identifier is written.
pub proof fn lemma_parse_id_text_unique(s: Seq<char>, id: u128)
    requires
        parse_id_text(s) == Some(id),
    ensures
        s == id_text(id),
{
    lemma_hex_value_digits(s);
    lemma_pow16_32();
}

/// Appends `hex_digits(x, n)` to `s`.
fn push_hex_digits(s: &mut String, x: u128, n: usize)
    ensures
        final(s)@ == old(s)@ + hex_digits(x as nat, n as nat),
    decreases n,
{
    if n > 0 {
        push_hex_digits(s, x / 16, n - 1);
        let d = (x % 16) as u8;
        let c = if d < 10 {
            (48 + d) as char
        } else {
            (87 + d) as char
        };
        crate::text::push_char(s, c);
        assert(hex_digits(x as nat, n as nat) == hex_digits((x / 16) as nat, (n - 1) as nat).push(
            hex_char((x % 16) as nat),
        ));
    }
}

/// How the identifier `id` is written in URLs.
pub fn format_id(id: u128) -> (r: String)
    ensures
        r@ == id_text(id),
{
    let mut s = String::new();
    push_hex_digits(&mut s, id, 32);
    s
}

/// Executable form of [`hex_val`].
fn hex_digit(c: char) -> (r: Option<u128>)
    ensures
        match hex_val(c) {
            Some(d) => r == Some(d as u128),
            None => r is None,
        },
{
    let u = c as u32;
    if 48 <= u && u <= 57 {
        Some((u - 48) as u128)
    } else if 97 <= u && u <= 102 {
        Some((u - 87) as u128)
    } else {
        None
    }
}

/// The identifier that `text` writes, if it is 32 lowercase hexadecimal digits.
pub fn parse_id(text: &str) -> (r: Option<u128>)
    ensures
        r == parse_id_text(text@),
{
    let v = chars_of(text);
    if v.len() != 32 {
        return None;
    }
    let mut value: u128 = 0;
    let mut i: usize = 0;
    proof {
        lemma_pow16_32();
        assert(pow(16, 0) == 1) by {
            reveal(pow);
        }
    }
    while i < 32
        invariant
            v@ == text@,
            v.len() == 32,
            i <= 32,
            all_hex(v@.take(i as int)),
            value == hex_value(v@.take(i as int)),
            value < pow(16, i as nat),
            pow(16, 32) == 0x1_0000_0000_0000_0000_0000_0000_0000_0000,
        decreases 32 - i,
    {
        let d = match hex_digit(v[i]) {
            Some(d) => d,
            None => {
                assert(!all_hex(v@));
                return None;
            },
        };
        proof {
            assert(pow(16, (i + 1) as nat) == 16 * pow(16, i as nat)) by {
                reveal(pow);
            }
            vstd::arithmetic::power::lemma_pow_increases(16, (i + 1) as nat, 32);
            let t = v@.take(i + 1);
            assert(t.drop_last() =~= v@.take(i as int));
            assert forall|j: int| 0 <= j < t.len() implies hex_val(#[trigger] t[j]) is Some by {
                if j < i {
                    assert(t[j] == v@.take(i as int)[j]);
                }
            }
        }
        value = value * 16 + d;
        i += 1;
    }
    assert(v@.take(32) =~= v@);
    Some(value)
}

/// `TryRngCore::try_fill_bytes` of `rand::rngs::OsRng` on 16 bytes, read as
/// one big-endian number; `None` where the operating system gives no random
/// bytes. Nothing is promised of the number: it is random.
#[verifier::external_body]
fn random_u128() -> Option<u128> {
    let mut bytes = [0u8; 16];
    rand::TryRngCore::try_fill_bytes(&mut rand::rngs::OsRng, &mut bytes).ok().map(|_| u128::from_be_bytes(bytes))
}

/// A fresh, unpredictable playlist identifier from the operating system's
/// generator, or `None` where it gives no random bytes.
pub fn new_id() -> (r: Option<u128>) {
    random_u128()
}

} // verus!
