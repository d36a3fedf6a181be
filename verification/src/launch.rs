//! Turning a resolved link into the process to start, per platform, and the
//! other start-up decisions of the program.

use vstd::prelude::*;
use crate::error::AppError;
use crate::text::{chars_of, eq_ic, window_eq, window_eq_ic};

verus! {

/// `shell_words::ParseError`, carried opaquely.
#[verifier::external_type_specification]
#[verifier::external_body]
pub struct ExShellParseError(shell_words::ParseError);

/// What `shell_words::split` makes of a command line: its words, or `None`
/// where it reports an error.
pub uninterp spec fn shell_split(command_line: Seq<char>) -> Option<Seq<Seq<char>>>;

/// `shell_words::split`: the words of a command line after quote removal.
/// The contract names the outcome: a function of the text alone.
#[verifier::external_body]
fn split_words(command_line: &str) -> (r: Result<Vec<String>, shell_words::ParseError>)
    ensures
        match r {
            Ok(words) => shell_split(command_line@) == Some(words.deep_view()),
            Err(_) => shell_split(command_line@) is None,
        },
{
    shell_words::split(command_line)
}

/// The text of a `shell_words::ParseError`: its `Display` writes
/// "missing closing quote", whatever the input was.
#[verifier::external_body]
fn split_error_text(e: &shell_words::ParseError) -> (t: String)
    ensures
        t@ == "missing closing quote"@,
{
    e.to_string()
}

/// What `Path::new(path).extension()` gives, as text: the part of the file
/// name after its last `.`, or `None`.
pub uninterp spec fn path_extension(path: Seq<char>) -> Option<Seq<char>>;

/// `std::path::Path::extension` of a path given as text. The contract names
/// the outcome: a function of the path alone.
#[verifier::external_body]
fn extension_of(path: &str) -> (r: Option<String>)
    ensures
        match r {
            Some(e) => path_extension(path@) == Some(e@),
            None => path_extension(path@) is None,
        },
{
    std::path::Path::new(path).extension().and_then(|e| e.to_str()).map(|e| e.to_string())
}

/// The extension of an application bundle.
pub open spec fn bundle_extension() -> Seq<char> {
    seq!['a', 'p', 'p']
}

/// Whether a file extension marks an application bundle (`app`, any case).
pub fn is_bundle_extension(ext: &str) -> (r: bool)
    ensures
        r == eq_ic(ext@, bundle_extension()),
{
    let e = chars_of(ext);
    let app = chars_of("app");
    proof {
        reveal_strlit("app");
        assert(app@ =~= bundle_extension());
    }
    assert(e@.subrange(0, e@.len() as int) == e@);
    window_eq_ic(&e, 0, e.len(), &app)
}

/// Whether `path` names a macOS application bundle: its extension is `app`
/// in any case.
pub fn is_app_bundle(path: &str) -> (r: bool)
    ensures
        r == (path_extension(path@) matches Some(e) && eq_ic(e, bundle_extension())),
{
    match extension_of(path) {
        Some(e) => is_bundle_extension(e.as_str()),
        None => false,
    }
}

/// The platform whose way of starting programs applies.
#[derive(Clone, Copy, Debug, PartialEq, Eq, Structural)]
pub enum Platform {
    /// The whole command line is handed over as one raw argument.
    Windows,
    /// Application bundles are opened through `/usr/bin/open -a`.
    MacOs,
    /// The command line is split into words.
    Unix,
}

/// A process to start.
#[derive(Debug)]
pub struct LaunchCommand {
    /// The program.
    pub program: String,
    /// Its arguments, one by one.
    pub args: Vec<String>,
    /// A command line handed over verbatim after the arguments, where the
    /// platform passes one.
    pub raw_arg: Option<String>,
    /// How a failure to start the process names it: the configured program,
    /// or `open -a <program>` where a bundle is opened.
    pub label: String,
}

/// The process that a link resolved to `path` and `command_line` starts.
pub enum LaunchPlan {
    /// Start `program` with `args`, then `raw`; failures name it `label`.
    Start { program: Seq<char>, args: Seq<Seq<char>>, raw: Option<Seq<char>>, label: Seq<char> },
    /// The command line has an unclosed quote.
    Unsplittable,
    /// The command line has no words.
    NoWords,
}

/// `/usr/bin/open`, which starts bundles on macOS.
pub open spec fn open_program() -> Seq<char> {
    seq!['/', 'u', 's', 'r', '/', 'b', 'i', 'n', '/', 'o', 'p', 'e', 'n']
}

/// The plan for starting `path` with the words of a split command line:
/// no words is an error; on macOS an application bundle is opened through
/// `/usr/bin/open -a <path> --args <words>`; otherwise `path` gets the words.
pub open spec fn spec_plan(path: Seq<char>, words: Seq<Seq<char>>, platform: Platform) -> LaunchPlan {
    if words.len() == 0 {
        LaunchPlan::NoWords
    } else if platform == Platform::MacOs && (path_extension(path) matches Some(e) && eq_ic(
        e,
        bundle_extension(),
    )) {
        LaunchPlan::Start {
            program: open_program(),
            args: seq![seq!['-', 'a'], path, seq!['-', '-', 'a', 'r', 'g', 's']] + words,
            raw: None,
            label: "open -a "@ + path,
        }
    } else {
        LaunchPlan::Start { program: path, args: words, raw: None, label: path }
    }
}

/// The plan for starting `path` with `command_line` on `platform`.
pub open spec fn spec_launch(path: Seq<char>, command_line: Seq<char>, platform: Platform) -> LaunchPlan {
    if platform == Platform::Windows {
        LaunchPlan::Start { program: path, args: Seq::empty(), raw: Some(command_line), label: path }
    } else {
        match shell_split(command_line) {
            None => LaunchPlan::Unsplittable,
            Some(words) => spec_plan(path, words, platform),
        }
    }
}

/// Whether `r` carries out the plan `plan`.
pub open spec fn plan_result(plan: LaunchPlan, r: Result<LaunchCommand, AppError>) -> bool {
    match plan {
        LaunchPlan::Start { program, args, raw, label } => r matches Ok(c) && c.program@ == program
            && c.args.deep_view() == args && c.label@ == label && match raw {
            Some(t) => c.raw_arg matches Some(x) && x@ == t,
            None => c.raw_arg is None,
        },
        LaunchPlan::Unsplittable => r matches Err(AppError::Command(m)) && m@
            == "cannot parse command arguments: missing closing quote"@,
        LaunchPlan::NoWords => r matches Err(AppError::EmptyCommand),
    }
}

/// Works out the process that starts the configured program `path` with
/// the words of a split command line.
pub fn plan_launch(path: &str, words: Vec<String>, platform: Platform) -> (r: Result<LaunchCommand, AppError>)
    ensures
        plan_result(spec_plan(path@, words.deep_view(), platform), r),
{
    let mut words = words;
    if words.len() == 0 {
        return Err(AppError::EmptyCommand);
    }
    if platform == Platform::MacOs && is_app_bundle(path) {
        let a0 = "-a".to_string();
        let a1 = path.to_string();
        let a2 = "--args".to_string();
        proof {
            reveal_strlit("-a");
            reveal_strlit("--args");
            assert(a0@ =~= seq!['-', 'a']);
            assert(a2@ =~= seq!['-', '-', 'a', 'r', 'g', 's']);
        }
        let mut args: Vec<String> = Vec::new();
        args.push(a0);
        args.push(a1);
        args.push(a2);
        let ghost head = args.deep_view();
        let ghost tail = words.deep_view();
        args.append(&mut words);
        proof {
            reveal_strlit("/usr/bin/open");
            assert(head =~= seq![seq!['-', 'a'], path@, seq!['-', '-', 'a', 'r', 'g', 's']]);
            assert(args.deep_view() =~= head + tail);
            assert("/usr/bin/open"@ =~= open_program());
        }
        let mut label = "open -a ".to_string();
        label.append(path);
        return Ok(LaunchCommand { program: "/usr/bin/open".to_string(), args, raw_arg: None, label });
    }
    Ok(LaunchCommand { program: path.to_string(), args: words, raw_arg: None, label: path.to_string() })
}

/// Works out the process that starts the configured program `path` with a
/// link's `command_line`.
pub fn launch_command(path: &str, command_line: &str, platform: Platform) -> (r: Result<
    LaunchCommand,
    AppError,
>)
    ensures
        plan_result(spec_launch(path@, command_line@, platform), r),
{
    if platform == Platform::Windows {
        let args: Vec<String> = Vec::new();
        assert(args.deep_view() =~= Seq::<Seq<char>>::empty());
        return Ok(
            LaunchCommand {
                program: path.to_string(),
                args,
                raw_arg: Some(command_line.to_string()),
                label: path.to_string(),
            },
        );
    }
    match split_words(command_line) {
        Ok(words) => plan_launch(path, words, platform),
        Err(e) => {
            let mut m = "cannot parse command arguments: ".to_string();
            m.append(split_error_text(&e).as_str());
            proof {
                reveal_strlit("cannot parse command arguments: ");
                reveal_strlit("missing closing quote");
                reveal_strlit("cannot parse command arguments: missing closing quote");
                assert(m@ =~= "cannot parse command arguments: missing closing quote"@);
            }
            Err(AppError::Command(m))
        },
    }
}

/// What the program does with its command-line arguments.
#[derive(Debug)]
pub enum Invocation {
    /// Open the settings window.
    Settings,
    /// Carry out the given `ush://` link.
    Run(String),
    /// Make sure the HTTP bridge runs: the link asked for it.
    StartBridge,
    /// Be the HTTP bridge.
    Serve,
    /// Report how to call the program.
    Usage,
}

/// The keyword of `scheme-handler run <link>`.
pub open spec fn run_keyword() -> Seq<char> {
    seq!['r', 'u', 'n']
}

/// The argument that makes the program the HTTP bridge.
pub open spec fn bridge_server_flag() -> Seq<char> {
    "--bridge-server"@
}

/// The link that the arguments (the program name first) carry: the one
/// after `run`, or a lone argument that starts with `ush://`.
pub open spec fn spec_invocation(args: Seq<Seq<char>>) -> Option<Seq<char>> {
    if args.len() == 3 && args[1] == run_keyword() {
        Some(args[2])
    } else if args.len() == 2 && args[1].len() >= 6 && args[1].take(6)
        == crate::url::scheme_prefix() {
        Some(args[1])
    } else {
        None
    }
}

/// What a received link asks for: a link with `needServer=1` starts the
/// bridge, any other is carried out.
pub fn link_invocation(link: String) -> (r: Invocation)
    ensures
        crate::bridge::spec_needs_server(link@) ==> r is StartBridge,
        !crate::bridge::spec_needs_server(link@) ==> (r matches Invocation::Run(l) && l@ == link@),
{
    if crate::bridge::needs_server(link.as_str()) {
        Invocation::StartBridge
    } else {
        Invocation::Run(link)
    }
}

/// Classifies the program's command-line arguments: none besides the name
/// opens the settings, `--bridge-server` alone makes it the bridge, a link
/// (after `run`, or alone) is handled as [`link_invocation`] says, anything
/// else is a usage error.
pub fn classify_args(args: &Vec<String>) -> (r: Invocation)
    ensures
        args@.len() == 1 ==> r is Settings,
        args@.len() == 2 && args@[1]@ == bridge_server_flag() ==> r is Serve,
        args@.len() != 1 && !(args@.len() == 2 && args@[1]@ == bridge_server_flag()) ==> match spec_invocation(
            args.deep_view(),
        ) {
            Some(link) => if crate::bridge::spec_needs_server(link) {
                r is StartBridge
            } else {
                r matches Invocation::Run(l) && l@ == link
            },
            None => r is Usage,
        },
{
    let ghost dv = args.deep_view();
    if args.len() == 1 {
        return Invocation::Settings;
    }
    let run = chars_of("run");
    let scheme = chars_of("ush://");
    let serve = chars_of("--bridge-server");
    proof {
        reveal_strlit("run");
        reveal_strlit("ush://");
        assert(run@ =~= run_keyword());
        assert(scheme@ =~= crate::url::scheme_prefix());
        assert(serve@ =~= bridge_server_flag());
    }
    if args.len() == 2 {
        let c = chars_of(args[1].as_str());
        assert(c@.subrange(0, c@.len() as int) == c@);
        if window_eq(&c, 0, c.len(), &serve) {
            return Invocation::Serve;
        }
    }
    if args.len() == 3 {
        let c = chars_of(args[1].as_str());
        assert(c@.subrange(0, c@.len() as int) == c@);
        assert(dv[1] == args@[1]@);
        assert(dv[2] == args@[2]@);
        if window_eq(&c, 0, c.len(), &run) {
            return link_invocation(args[2].clone());
        }
    }
    if args.len() == 2 {
        let c = chars_of(args[1].as_str());
        assert(dv[1] == args@[1]@);
        if c.len() >= 6 && window_eq(&c, 0, 6, &scheme) {
            assert(c@.take(6) =~= c@.subrange(0, 6));
            return link_invocation(args[1].clone());
        }
        assert(c@.len() >= 6 ==> c@.take(6) =~= c@.subrange(0, 6));
    }
    Invocation::Usage
}

/// What the hidden-at-start settings window does on one repaint.
#[derive(Debug, PartialEq, Eq, Structural)]
pub enum WindowStep {
    /// Nothing: visibility was decided before.
    Keep,
    /// Hide the window: a link started the program.
    Hide,
    /// Show the window: the program was started by hand.
    Show,
    /// Look again after the given number of milliseconds.
    RecheckAfterMs(u64),
}

/// Grace period, in nanoseconds, before a hand-started program shows its window.
pub const SHOW_GRACE_NANOS: u128 = 800_000_000;

/// Interval, in milliseconds, between looks while the grace period runs.
pub const RECHECK_MS: u64 = 50;

/// Decides the settings window's visibility on a repaint: until decided, a
/// received link hides it, the end of the grace period shows it, and
/// otherwise it looks again shortly. Returns whether it is now decided.
pub fn window_visibility(decided: bool, url_received: bool, elapsed_nanos: u128) -> (r: (
    bool,
    WindowStep,
))
    ensures
        decided ==> r == (true, WindowStep::Keep),
        !decided && url_received ==> r == (true, WindowStep::Hide),
        !decided && !url_received && elapsed_nanos >= SHOW_GRACE_NANOS ==> r == (
            true,
            WindowStep::Show,
        ),
        !decided && !url_received && elapsed_nanos < SHOW_GRACE_NANOS ==> r == (
            false,
            WindowStep::RecheckAfterMs(RECHECK_MS),
        ),
{
    if decided {
        (true, WindowStep::Keep)
    } else if url_received {
        (true, WindowStep::Hide)
    } else if elapsed_nanos >= SHOW_GRACE_NANOS {
        (true, WindowStep::Show)
    } else {
        (false, WindowStep::RecheckAfterMs(RECHECK_MS))
    }
}

} // verus!
