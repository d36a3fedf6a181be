//! The handler's configuration: the named applications that links may start,
//! and how a link is resolved against them.

use vstd::prelude::*;
use vstd::utf8::{decode_utf8, encode_utf8, valid_utf8};
use crate::error::AppError;
use crate::payload::{base64_standard_decode, decompress_payload, gzip_decompress};
use crate::text::{chars_of, string_of, trim, trim_bounds, window_eq};
use crate::url::{parse_url, spec_parse_url, UrlParse};

verus! {

/// One application that links may start.
#[derive(Debug)]
pub struct AppConfig {
    /// The name that links use, compared without surrounding whitespace.
    pub name: String,
    /// The program to start, if one was chosen.
    pub path: Option<String>,
}

impl Default for AppConfig {
    fn default() -> (r: Self)
        ensures
            r.name@ == Seq::<char>::empty(),
            r.path is None,
    {
        AppConfig { name: String::new(), path: None }
    }
}

/// The stored settings.
#[derive(Debug)]
pub struct Config {
    /// Whether the `ush://` scheme was registered with the system.
    pub is_registry_added: bool,
    /// The configured applications, in the order the user added them.
    pub apps: Vec<AppConfig>,
}

impl Default for Config {
    fn default() -> (r: Self)
        ensures
            !r.is_registry_added,
            r.apps@.len() == 0,
    {
        Config { is_registry_added: false, apps: Vec::new() }
    }
}

impl Config {
    /// Adds a new, unnamed application without a path at the end.
    pub fn add_app(&mut self)
        ensures
            final(self).is_registry_added == old(self).is_registry_added,
            final(self).apps@.len() == old(self).apps@.len() + 1,
            final(self).apps@.take(old(self).apps@.len() as int) == old(self).apps@,
            final(self).apps@.last().name@ == Seq::<char>::empty(),
            final(self).apps@.last().path is None,
    {
        let ghost before = self.apps@;
        self.apps.push(AppConfig::default());
        assert(self.apps@.take(before.len() as int) =~= before);
    }

    /// Removes the application at `index`.
    pub fn remove_app(&mut self, index: usize)
        requires
            index < old(self).apps@.len(),
        ensures
            final(self).is_registry_added == old(self).is_registry_added,
            final(self).apps@ == old(self).apps@.remove(index as int),
    {
        self.apps.remove(index);
    }

    /// Sets the program of the application at `index`.
    pub fn set_app_path(&mut self, index: usize, path: String)
        requires
            index < old(self).apps@.len(),
        ensures
            final(self).is_registry_added == old(self).is_registry_added,
            final(self).apps@.len() == old(self).apps@.len(),
            final(self).apps@[index as int].path matches Some(p) && p@ == path@,
            final(self).apps@[index as int].name == old(self).apps@[index as int].name,
            forall|j: int| 0 <= j < final(self).apps@.len() && j != index ==> final(self).apps@[j] == old(
                self,
            ).apps@[j],
    {
        let mut app = self.apps.remove(index);
        app.path = Some(path);
        self.apps.insert(index, app);
    }

    /// Renames the application at `index`.
    pub fn set_app_name(&mut self, index: usize, name: String)
        requires
            index < old(self).apps@.len(),
        ensures
            final(self).is_registry_added == old(self).is_registry_added,
            final(self).apps@.len() == old(self).apps@.len(),
            final(self).apps@[index as int].name@ == name@,
            final(self).apps@[index as int].path == old(self).apps@[index as int].path,
            forall|j: int| 0 <= j < final(self).apps@.len() && j != index ==> final(self).apps@[j] == old(
                self,
            ).apps@[j],
    {
        let mut app = self.apps.remove(index);
        app.name = name;
        self.apps.insert(index, app);
    }

    /// Records whether the scheme is registered with the system.
    pub fn set_registry_added(&mut self, added: bool)
        ensures
            final(self).is_registry_added == added,
            final(self).apps@ == old(self).apps@,
    {
        self.is_registry_added = added;
    }
}

/// Index of the first application whose trimmed name is `name` trimmed.
pub open spec fn first_app_named(apps: Seq<AppConfig>, name: Seq<char>) -> Option<int>
    decreases apps.len(),
{
    if apps.len() == 0 {
        None
    } else if trim(apps[0].name@) == trim(name) {
        Some(0)
    } else {
        match first_app_named(apps.drop_first(), name) {
            Some(i) => Some(i + 1),
            None => None,
        }
    }
}

/// [`first_app_named`] finds `k` when `apps[k]` is the first match, and
/// nothing when none matches.
proof fn lemma_first_app_named(apps: Seq<AppConfig>, name: Seq<char>, k: int)
    requires
        0 <= k <= apps.len(),
        forall|j: int| 0 <= j < k ==> trim(#[trigger] apps[j].name@) != trim(name),
        k < apps.len() ==> trim(apps[k].name@) == trim(name),
    ensures
        first_app_named(apps, name) == (if k < apps.len() { Some(k) } else { None::<int> }),
    decreases k,
{
    if k > 0 {
        let t = apps.drop_first();
        assert forall|j: int| 0 <= j < k - 1 implies trim(#[trigger] t[j].name@) != trim(name) by {
            assert(t[j] == apps[j + 1]);
        }
        if k < apps.len() {
            assert(t[k - 1] == apps[k]);
        }
        lemma_first_app_named(t, name, k - 1);
    }
}

/// The characters of `s` without surrounding whitespace.
pub fn trimmed_chars(s: &str) -> (r: Vec<char>)
    ensures
        r@ == trim(s@),
{
    let v = chars_of(s);
    let (a, b) = trim_bounds(&v, 0, v.len());
    assert(v@.subrange(0, v@.len() as int) == v@);
    let mut r: Vec<char> = Vec::new();
    let mut i = a;
    while i < b
        invariant
            a <= i <= b <= v.len(),
            r@ == v@.subrange(a as int, i as int),
        decreases b - i,
    {
        r.push(v[i]);
        assert(v@.subrange(a as int, i + 1) == v@.subrange(a as int, i as int).push(v@[i as int]));
        i += 1;
    }
    r
}

/// The text of `s` without surrounding whitespace.
pub fn trimmed(s: &str) -> (r: String)
    ensures
        r@ == trim(s@),
{
    let v = chars_of(s);
    let (a, b) = trim_bounds(&v, 0, v.len());
    assert(v@.subrange(0, v@.len() as int) == v@);
    string_of(&v, a, b)
}

/// Index of the first configured application named `name` (both trimmed).
pub fn find_app(apps: &Vec<AppConfig>, name: &str) -> (r: Option<usize>)
    ensures
        match r {
            Some(i) => i < apps.len() && first_app_named(apps@, name@) == Some(i as int),
            None => first_app_named(apps@, name@) is None,
        },
{
    let wanted = trimmed_chars(name);
    let mut i: usize = 0;
    while i < apps.len()
        invariant
            i <= apps.len(),
            wanted@ == trim(name@),
            forall|j: int| 0 <= j < i ==> trim(#[trigger] apps@[j].name@) != trim(name@),
        decreases apps.len() - i,
    {
        let have = trimmed_chars(apps[i].name.as_str());
        assert(have@.subrange(0, have@.len() as int) == have@);
        if window_eq(&have, 0, have.len(), &wanted) {
            proof {
                lemma_first_app_named(apps@, name@, i as int);
            }
            return Some(i);
        }
        i += 1;
    }
    proof {
        lemma_first_app_named(apps@, name@, apps@.len() as int);
    }
    None
}

/// What to start for a link: a program and the command line to hand it.
#[derive(Debug)]
pub struct Launch {
    /// The configured program, without surrounding whitespace.
    pub path: String,
    /// The command line that the link carried.
    pub command_line: String,
}

/// How a decoded link resolves against the configured applications.
pub enum Resolution {
    /// Start `path` with `command_line`.
    Start { path: Seq<char>, command_line: Seq<char> },
    /// The command line is blank.
    EmptyCommand,
    /// No application has the name.
    NotFound,
    /// The application has no usable path.
    EmptyPath,
}

/// The configured path of an application, blank where none was chosen.
pub open spec fn configured_path(app: AppConfig) -> Seq<char> {
    match app.path {
        Some(p) => p@,
        None => Seq::empty(),
    }
}

/// Resolution of the application `name` and the command line `command`.
pub open spec fn spec_resolve(apps: Seq<AppConfig>, name: Seq<char>, command: Seq<char>) -> Resolution {
    if trim(command).len() == 0 {
        Resolution::EmptyCommand
    } else {
        match first_app_named(apps, name) {
            None => Resolution::NotFound,
            Some(k) => if trim(configured_path(apps[k])).len() == 0 {
                Resolution::EmptyPath
            } else {
                Resolution::Start { path: trim(configured_path(apps[k])), command_line: command }
            },
        }
    }
}

/// Whether `r` is what the resolution `res` of the application `name` calls for.
pub open spec fn resolution_result(res: Resolution, name: Seq<char>, r: Result<Launch, AppError>) -> bool {
    match res {
        Resolution::Start { path, command_line } => r matches Ok(l) && l.path@ == path
            && l.command_line@ == command_line,
        Resolution::EmptyCommand => r matches Err(AppError::EmptyCommand),
        Resolution::NotFound => r matches Err(AppError::AppNotFound(n)) && n@ == name,
        Resolution::EmptyPath => r matches Err(AppError::EmptyAppPath),
    }
}

/// Picks the configured application named `app_name` to run `command_line`.
pub fn select_app(config: &Config, app_name: &str, command_line: String) -> (r: Result<Launch, AppError>)
    ensures
        resolution_result(spec_resolve(config.apps@, app_name@, command_line@), app_name@, r),
{
    let cmd = trimmed_chars(command_line.as_str());
    if cmd.len() == 0 {
        return Err(AppError::EmptyCommand);
    }
    let k = match find_app(&config.apps, app_name) {
        None => {
            return Err(AppError::AppNotFound(app_name.to_string()));
        },
        Some(k) => k,
    };
    let path = match &config.apps[k].path {
        Some(p) => trimmed(p.as_str()),
        None => String::new(),
    };
    assert(path@ == trim(configured_path(config.apps@[k as int]))) by {
        if config.apps@[k as int].path is None {
            assert(trim(Seq::<char>::empty()) =~= Seq::<char>::empty()) by {
                crate::text::lemma_lead_len_bound(Seq::<char>::empty(), crate::text::CharClass::Whitespace);
                crate::text::lemma_trail_len_bound(Seq::<char>::empty(), crate::text::CharClass::Whitespace);
            }
        }
    }
    if path.as_str().is_empty() {
        return Err(AppError::EmptyAppPath);
    }
    Ok(Launch { path, command_line })
}

/// What a link resolves to: its name and payload, the payload's command line,
/// and the application configured under that name.
pub open spec fn link_result(input: Seq<char>, apps: Seq<AppConfig>, r: Result<Launch, AppError>) -> bool {
    match spec_parse_url(input) {
        UrlParse::Rejected(msg) => r matches Err(AppError::InvalidUrl(m)) && m@ == msg,
        UrlParse::Undecodable => r matches Err(AppError::InvalidUrl(_)),
        UrlParse::Parsed { app, payload } => match base64_standard_decode(payload) {
            None => r matches Err(AppError::Base64(_)),
            Some(bytes) => match gzip_decompress(bytes) {
                None => r matches Err(AppError::Gzip(_)),
                Some(out) => if valid_utf8(out) {
                    resolution_result(spec_resolve(apps, app, decode_utf8(out)), app, r)
                } else {
                    r matches Err(AppError::Utf8(_))
                },
            },
        },
    }
}

/// A link made as the documentation shows, `ush://<name>?<payload>` (name
/// and payload as [`crate::url::law_link_roundtrip`] asks), whose payload is
/// the base64 text of a gzip stream of a non-blank command line in UTF-8,
/// starts the program configured under that name with exactly that command
/// line, when one with a path is configured.
pub proof fn law_link_starts_configured_app(
    apps: Seq<AppConfig>,
    name: Seq<char>,
    payload: Seq<char>,
    bytes: Seq<u8>,
    command: Seq<char>,
    r: Result<Launch, AppError>,
)
    requires
        trim(name).len() > 0,
        forall|i: int| 0 <= i < name.len() ==> name[i] != '%' && name[i] != '?',
        name.last() != '/',
        trim(payload).len() > 0,
        !crate::text::is_ws(payload.last()),
        payload.last() != '/',
        base64_standard_decode(payload) == Some(bytes),
        gzip_decompress(bytes) == Some(encode_utf8(command)),
        trim(command).len() > 0,
        first_app_named(apps, name) matches Some(k) && trim(configured_path(apps[k])).len() > 0,
        link_result("ush://"@ + name + seq!['?'] + payload, apps, r),
    ensures
        r matches Ok(l) && l.command_line@ == command && l.path@ == trim(
            configured_path(apps[first_app_named(apps, name)->0]),
        ),
{
    crate::url::law_link_roundtrip(name, payload);
    vstd::utf8::encode_utf8_valid_utf8(command);
    vstd::utf8::encode_utf8_decode_utf8(command);
}

/// What [`first_app_named`] finds: an application with the name, preceded
/// by none; nothing only where no application has the name.
proof fn lemma_first_app_named_found(apps: Seq<AppConfig>, name: Seq<char>)
    ensures
        first_app_named(apps, name) matches Some(k) ==> 0 <= k < apps.len() && trim(apps[k].name@) == trim(name)
            && forall|j: int| 0 <= j < k ==> trim(#[trigger] apps[j].name@) != trim(name),
        first_app_named(apps, name) is None ==> forall|j: int|
            0 <= j < apps.len() ==> trim(#[trigger] apps[j].name@) != trim(name),
    decreases apps.len(),
{
    if apps.len() > 0 {
        let t = apps.drop_first();
        lemma_first_app_named_found(t, name);
        assert forall|j: int| 0 < j < apps.len() implies apps[j] == t[j - 1] by {}
    }
}

/// A link naming no configured application fails with `AppNotFound`,
/// carrying the name, however many applications are configured: no name
/// matches when no application's name equals it, both trimmed.
pub proof fn law_unknown_app_not_found(apps: Seq<AppConfig>, name: Seq<char>, command: Seq<char>, r: Result<Launch, AppError>)
    requires
        forall|k: int| 0 <= k < apps.len() ==> trim(#[trigger] apps[k].name@) != trim(name),
        trim(command).len() > 0,
        resolution_result(spec_resolve(apps, name, command), name, r),
    ensures
        r matches Err(AppError::AppNotFound(n)) && n@ == name,
{
    lemma_first_app_named_found(apps, name);
    if let Some(k) = first_app_named(apps, name) {
        assert(trim(apps[k].name@) != trim(name));
    }
}

/// What a link starts is configured under its name: the first application
/// whose name equals the requested one (both trimmed), with its configured
/// path trimmed, and the link's command line unchanged.
pub proof fn law_started_app_is_named(apps: Seq<AppConfig>, name: Seq<char>, command: Seq<char>, r: Result<Launch, AppError>)
    requires
        resolution_result(spec_resolve(apps, name, command), name, r),
        r is Ok,
    ensures
        exists|k: int| #![trigger apps[k]] {
            &&& 0 <= k < apps.len()
            &&& trim(apps[k].name@) == trim(name)
            &&& forall|j: int| 0 <= j < k ==> trim(#[trigger] apps[j].name@) != trim(name)
            &&& r->Ok_0.path@ == trim(match apps[k].path { Some(p) => p@, None => Seq::<char>::empty() })
            &&& r->Ok_0.path@.len() > 0
        },
        r->Ok_0.command_line@ == command,
{
    lemma_first_app_named_found(apps, name);
    let k = first_app_named(apps, name)->0;
    assert(apps[k] == apps[k]);
}

/// Resolves a `ush://` link against the configuration: which program to
/// start, and with which command line.
pub fn resolve_launch(input: &str, config: &Config) -> (r: Result<Launch, AppError>)
    ensures
        link_result(input@, config.apps@, r),
{
    let (app_name, payload) = match parse_url(input) {
        Ok(parts) => parts,
        Err(e) => {
            return Err(e);
        },
    };
    let command_line = match decompress_payload(payload.as_str()) {
        Ok(c) => c,
        Err(e) => {
            return Err(e);
        },
    };
    select_app(config, app_name.as_str(), command_line)
}

} // verus!
