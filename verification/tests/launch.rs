use scheme_handler::error::AppError;
use scheme_handler::launch::{classify_args, is_app_bundle, is_bundle_extension, launch_command, link_invocation, plan_launch, window_visibility, Invocation, Platform, WindowStep};

fn strings(items: &[&str]) -> Vec<String> {
    items.iter().map(|s| s.to_string()).collect()
}

#[test]
fn unix_splits_the_command_line() {
    let c = launch_command("/bin/mpv", "\"https://a b/c.mp4\" --title='x y'", Platform::Unix).unwrap();
    assert_eq!(c.program, "/bin/mpv");
    assert_eq!(c.args, strings(&["https://a b/c.mp4", "--title=x y"]));
    assert!(c.raw_arg.is_none());
}

#[test]
fn windows_passes_the_command_line_verbatim() {
    let c = launch_command("C:\\mpv.exe", "\"a b\" --x", Platform::Windows).unwrap();
    assert_eq!(c.program, "C:\\mpv.exe");
    assert!(c.args.is_empty());
    assert_eq!(c.raw_arg.as_deref(), Some("\"a b\" --x"));
}

#[test]
fn macos_opens_bundles() {
    let c = launch_command("/Applications/mpv.APP", "a 'b c'", Platform::MacOs).unwrap();
    assert_eq!(c.program, "/usr/bin/open");
    assert_eq!(c.args, strings(&["-a", "/Applications/mpv.APP", "--args", "a", "b c"]));
    let c = launch_command("/usr/local/bin/mpv", "a", Platform::MacOs).unwrap();
    assert_eq!(c.program, "/usr/local/bin/mpv");
    assert_eq!(c.args, strings(&["a"]));
    assert!(is_app_bundle("/Applications/mpv.app/"));
    assert!(!is_app_bundle("/Applications/.app"));
    assert!(!is_app_bundle("/Applications/mpv.apps"));
    assert!(is_bundle_extension("ApP"));
    assert!(!is_bundle_extension("ap"));
}

#[test]
fn unsplittable_command_lines_are_refused() {
    match launch_command("/bin/mpv", "\"open", Platform::Unix) {
        Err(AppError::Command(m)) => assert_eq!(m, "cannot parse command arguments: missing closing quote"),
        other => panic!("unexpected {:?}", other),
    }
    assert!(matches!(launch_command("/bin/mpv", "# only a comment", Platform::Unix), Err(AppError::EmptyCommand)));
}

#[test]
fn arguments_choose_what_to_do() {
    assert!(matches!(classify_args(&strings(&["sh"])), Invocation::Settings));
    match classify_args(&strings(&["sh", "run", "ush://a?b"])) {
        Invocation::Run(link) => assert_eq!(link, "ush://a?b"),
        other => panic!("unexpected {:?}", other),
    }
    match classify_args(&strings(&["sh", "ush://a?b"])) {
        Invocation::Run(link) => assert_eq!(link, "ush://a?b"),
        other => panic!("unexpected {:?}", other),
    }
    assert!(matches!(classify_args(&strings(&["sh", "http://a"])), Invocation::Usage));
    assert!(matches!(classify_args(&strings(&["sh", "walk", "ush://a"])), Invocation::Usage));
    assert!(matches!(classify_args(&strings(&[])), Invocation::Usage));
}

#[test]
fn settings_window_visibility() {
    assert_eq!(window_visibility(true, true, 0), (true, WindowStep::Keep));
    assert_eq!(window_visibility(false, true, 0), (true, WindowStep::Hide));
    assert_eq!(window_visibility(false, false, 800_000_000), (true, WindowStep::Show));
    assert_eq!(window_visibility(false, false, 799_999_999), (false, WindowStep::RecheckAfterMs(50)));
}

#[test]
fn split_words_become_the_plan() {
    let c = plan_launch("/Applications/IINA.app", strings(&["x", "y z"]), Platform::MacOs).unwrap();
    assert_eq!(c.program, "/usr/bin/open");
    assert_eq!(c.args, strings(&["-a", "/Applications/IINA.app", "--args", "x", "y z"]));
    assert!(c.raw_arg.is_none());
    assert_eq!(c.label, "open -a /Applications/IINA.app");
    let c = plan_launch("/Applications/IINA.app", strings(&["x"]), Platform::Unix).unwrap();
    assert_eq!(c.program, "/Applications/IINA.app");
    assert_eq!(c.label, "/Applications/IINA.app");
    assert_eq!(c.args, strings(&["x"]));
    assert!(matches!(plan_launch("/bin/mpv", Vec::new(), Platform::MacOs), Err(AppError::EmptyCommand)));
}

#[test]
fn bridge_links_and_the_server_flag() {
    assert!(matches!(classify_args(&strings(&["sh", "--bridge-server"])), Invocation::Serve));
    assert!(matches!(classify_args(&strings(&["sh", "run", "ush://play?needServer=1"])), Invocation::StartBridge));
    assert!(matches!(classify_args(&strings(&["sh", "ush://play?a&NEEDSERVER=1"])), Invocation::StartBridge));
    assert!(matches!(classify_args(&strings(&["sh", "run", "--bridge-server"])), Invocation::Run(_)));
    assert!(matches!(classify_args(&strings(&["sh", "--bridge-server", "x"])), Invocation::Usage));
    assert!(matches!(link_invocation("ush://play?needServer=1".to_string()), Invocation::StartBridge));
    match link_invocation("ush://mpv?abc".to_string()) {
        Invocation::Run(link) => assert_eq!(link, "ush://mpv?abc"),
        other => panic!("unexpected {:?}", other),
    }
}
