use scheme_handler::config::{resolve_launch, select_app, find_app, AppConfig, Config};
use scheme_handler::error::AppError;
use scheme_handler::payload::{decompress_decoded, decompress_payload, text_of_decompressed};
use scheme_handler::url::parse_url;

fn gzip(data: &[u8]) -> Vec<u8> {
    let mut encoder = flate2::write::GzEncoder::new(Vec::new(), flate2::Compression::default());
    std::io::Write::write_all(&mut encoder, data).unwrap();
    encoder.finish().unwrap()
}

fn payload_of(command_line: &str) -> String {
    base64::Engine::encode(&base64::engine::general_purpose::STANDARD, gzip(command_line.as_bytes()))
}

fn config() -> Config {
    Config {
        is_registry_added: true,
        apps: vec![
            AppConfig { name: "VLC".to_string(), path: None },
            AppConfig { name: " MPV ".to_string(), path: Some("  /bin/mpv ".to_string()) },
            AppConfig { name: "MPV".to_string(), path: Some("/other/mpv".to_string()) },
            AppConfig { name: "Empty".to_string(), path: Some("   ".to_string()) },
        ],
    }
}

fn invalid_url_message(r: Result<(String, String), AppError>) -> String {
    match r {
        Err(AppError::InvalidUrl(m)) => m,
        other => panic!("unexpected {:?}", other),
    }
}

#[test]
fn links_split_into_name_and_payload() {
    let (app, payload) = parse_url("  ush://MPV/?H4sIAAAA//  \n").unwrap();
    assert_eq!(app, "MPV");
    assert_eq!(payload, "H4sIAAAA");
    let (app, payload) = parse_url("ush://My%20Player?abc?def").unwrap();
    assert_eq!(app, "My Player");
    assert_eq!(payload, "abc?def");
    let (app, _) = parse_url("ush://%E6%92%AD%zz%4?x").unwrap();
    assert_eq!(app, "播%zz%4");
}

#[test]
fn malformed_links_are_refused() {
    assert_eq!(invalid_url_message(parse_url("http://x?y")), "input does not start with ush://");
    assert_eq!(invalid_url_message(parse_url("ush://mpv")), "expected ush://<app>?<gzip-base64>");
    assert_eq!(invalid_url_message(parse_url("ush://%20/?abc")), "application name is empty");
    assert_eq!(invalid_url_message(parse_url("ush://mpv? \t")), "gzip payload is empty");
    assert!(matches!(parse_url("ush://%FF?abc"), Err(AppError::InvalidUrl(_))));
}

#[test]
fn payloads_decompress_to_the_command_line() {
    let line = "\"https://example.com/example.mp4\" --force-media-title=\"scheme-handler\"";
    assert_eq!(decompress_payload(&payload_of(line)).unwrap(), line);
    assert!(matches!(decompress_payload("not base64!"), Err(AppError::Base64(_))));
    assert!(matches!(decompress_payload("aGVsbG8="), Err(AppError::Gzip(_))));
    let not_text = base64::Engine::encode(&base64::engine::general_purpose::STANDARD, gzip(&[0xff, 0xfe]));
    assert!(matches!(decompress_payload(&not_text), Err(AppError::Utf8(_))));
    assert_eq!(decompress_decoded(gzip(b"abc")).unwrap(), "abc");
    assert_eq!(text_of_decompressed(b"x y".to_vec()).unwrap(), "x y");
    assert!(matches!(text_of_decompressed(vec![0xc3]), Err(AppError::Utf8(_))));
}

#[test]
fn applications_are_found_by_trimmed_name() {
    let c = config();
    assert_eq!(find_app(&c.apps, "MPV"), Some(1));
    assert_eq!(find_app(&c.apps, "  VLC\t"), Some(0));
    assert_eq!(find_app(&c.apps, "mpv"), None);
}

#[test]
fn selection_reports_each_failure() {
    let c = config();
    let launch = select_app(&c, "MPV", "a b".to_string()).unwrap();
    assert_eq!(launch.path, "/bin/mpv");
    assert_eq!(launch.command_line, "a b");
    assert!(matches!(select_app(&c, "MPV", "  ".to_string()), Err(AppError::EmptyCommand)));
    assert!(matches!(select_app(&c, "VLC", "x".to_string()), Err(AppError::EmptyAppPath)));
    assert!(matches!(select_app(&c, "Empty", "x".to_string()), Err(AppError::EmptyAppPath)));
    match select_app(&c, "Kodi", "x".to_string()) {
        Err(AppError::AppNotFound(name)) => assert_eq!(name, "Kodi"),
        other => panic!("unexpected {:?}", other),
    }
}

#[test]
fn links_resolve_to_the_configured_program() {
    let line = "\"https://example.com/example.mp4\" --force-media-title=\"scheme-handler\"";
    let link = format!("ush://MPV?{}", payload_of(line));
    let launch = resolve_launch(&link, &config()).unwrap();
    assert_eq!(launch.path, "/bin/mpv");
    assert_eq!(launch.command_line, line);
    let blank = format!("ush://MPV?{}", payload_of("   "));
    assert!(matches!(resolve_launch(&blank, &config()), Err(AppError::EmptyCommand)));
    assert!(matches!(resolve_launch("ush://MPV", &config()), Err(AppError::InvalidUrl(_))));
}

#[test]
fn configuration_edits() {
    let mut c = Config::default();
    assert!(!c.is_registry_added);
    c.add_app();
    c.add_app();
    assert_eq!(c.apps.len(), 2);
    assert_eq!(c.apps[1].name, "");
    assert!(c.apps[1].path.is_none());
    c.set_app_name(0, "MPV".to_string());
    c.set_app_path(0, "/bin/mpv".to_string());
    c.remove_app(1);
    c.set_registry_added(true);
    assert!(c.is_registry_added);
    assert_eq!(c.apps.len(), 1);
    assert_eq!(c.apps[0].name, "MPV");
    assert_eq!(c.apps[0].path.as_deref(), Some("/bin/mpv"));
}

#[test]
fn unencoded_names_round_trip() {
    let line = "--fs \"https://example.com/a.m3u8\"";
    let link = format!("ush://播放器?{}", payload_of(line));
    let (app, payload) = parse_url(&link).unwrap();
    assert_eq!(app, "播放器");
    assert_eq!(payload, payload_of(line));
    let c = Config {
        is_registry_added: false,
        apps: vec![AppConfig { name: "播放器".to_string(), path: Some("/usr/bin/mpv".to_string()) }],
    };
    let launch = resolve_launch(&link, &c).unwrap();
    assert_eq!(launch.path, "/usr/bin/mpv");
    assert_eq!(launch.command_line, line);
}
