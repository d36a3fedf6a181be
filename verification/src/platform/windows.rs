//! Windows, where the scheme is a class key in the current user's registry.

use vstd::prelude::*;

verus! {

/// What `str::to_uppercase` makes of a text (Unicode upper case).
pub uninterp spec fn unicode_uppercase(s: Seq<char>) -> Seq<char>;

/// `str::to_uppercase`. The contract names the outcome: a function of the
/// text alone.
#[verifier::external_body]
fn to_uppercase(s: &str) -> (r: String)
    ensures
        r@ == unicode_uppercase(s@),
{
    s.to_uppercase()
}

/// The registry key, under the current user, of the class of `scheme`.
pub fn class_key(scheme: &str) -> (r: String)
    ensures
        r@ == "Software\\Classes\\"@ + scheme@,
{
    let mut r = "Software\\Classes\\".to_string();
    r.append(scheme);
    r
}

/// The default value of the class key: the scheme's display name.
pub fn protocol_description(scheme: &str) -> (r: String)
    ensures
        r@ == "URL: "@ + unicode_uppercase(scheme@) + " Protocol"@,
{
    let mut r = "URL: ".to_string();
    r.append(to_uppercase(scheme).as_str());
    r.append(" Protocol");
    r
}

/// The command that opens a link: `exe` quoted, `run`, and the link quoted.
pub fn open_command(exe: &str) -> (r: String)
    ensures
        r@ == "\""@ + exe@ + "\" run \"%1\""@,
{
    let mut r = "\"".to_string();
    r.append(exe);
    r.append("\" run \"%1\"");
    r
}

/// The subkey, below the class key, that holds [`open_command`].
pub fn command_subkey() -> (r: &'static str)
    ensures
        r@ == "shell\\open\\command"@,
{
    "shell\\open\\command"
}

} // verus!
