use scheme_handler::bridge::http::{find_bytes, render_response, status_reply_ok, status_request, text_response, Response};
use scheme_handler::bridge::id::{format_id, parse_id};
use scheme_handler::bridge::playlist::is_playlist;
use scheme_handler::bridge::request::{initial_body, next_read_len, parse_head, scan_head, RequestError};
use scheme_handler::bridge::service::{playlist_id_text, HandleError, Request};
use scheme_handler::bridge::store::Store;
use scheme_handler::bridge::{busy_response, needs_server, startup_step, try_acquire_connection, StartupStep};

const MINUTE: u128 = 60_000_000_000;

fn request(method: &str, path: &str, body: &[u8]) -> Request {
    Request { method: method.to_string(), path: path.to_string(), body: body.to_vec() }
}

fn upload(store: &mut Store, body: &str, now: u128, id: u128) -> Response {
    store.handle_request_with_id(request("POST", "/api/m3u8", body.as_bytes()), now, id).unwrap()
}

fn fetch(store: &mut Store, id: u128, now: u128) -> Response {
    let path = format!("/m3u8/{}", format_id(id));
    store.handle_request_with_id(request("GET", &path, b""), now, 0).unwrap()
}

#[test]
fn m3u8_path_extracts_full_id() {
    let path = "/m3u8/abc123";
    assert_eq!(playlist_id_text(path).as_deref(), Some("abc123"));
}

#[test]
fn need_server_is_case_insensitive_for_key() {
    assert!(needs_server("ush://play?needServer=1"));
    assert!(needs_server("ush://play?NEEDSERVER=1"));
    assert!(!needs_server("ush://play?needServer=0"));
    assert!(!needs_server("ush://play"));
}

#[test]
fn need_server_among_other_parameters() {
    assert!(needs_server("ush://mpv?abc&needserver=1&x=2"));
    assert!(!needs_server("ush://mpv?needServer"));
    assert!(!needs_server("ush://mpv?needServer=1=1"));
    assert!(!needs_server("ush://mpv?xneedServer=1"));
    assert!(needs_server("?needServer=1"));
    assert!(needs_server("ush://play?a=1&NeedServer=1"));
    assert!(!needs_server("ush://play?needServer=2&x=1"));
    assert!(!needs_server("ush://play/needServer=1"));
}

#[test]
fn playlist_id_text_requires_prefix() {
    assert_eq!(playlist_id_text("/m3u8/"), Some(String::new()));
    assert_eq!(playlist_id_text("/m3u9/abc"), None);
    assert_eq!(playlist_id_text("/m3u8"), None);
}

#[test]
fn ids_are_lowercase_hex_and_read_back() {
    let id: u128 = 0x0123_4567_89ab_cdef_0011_2233_4455_6677;
    let text = format_id(id);
    assert_eq!(text, "0123456789abcdef0011223344556677");
    assert_eq!(parse_id(&text), Some(id));
    assert_eq!(format_id(0), "00000000000000000000000000000000");
    assert_eq!(parse_id("0123456789ABCDEF0011223344556677"), None);
    assert_eq!(parse_id("abc123"), None);
    assert_eq!(parse_id(&format_id(u128::MAX)), Some(u128::MAX));
}

#[test]
fn playlists_are_recognised() {
    assert!(is_playlist("#EXTM3U\n#EXTINF:1,\nseg.ts\n"));
    assert!(is_playlist("\u{feff}\u{feff}  \n\t#EXTM3U\r\nx"));
    assert!(is_playlist("#EXTM3U"));
    assert!(!is_playlist("#EXTM3U\r"));
    assert!(!is_playlist("#EXTM3UX\n"));
    assert!(!is_playlist("x#EXTM3U\n"));
    assert!(!is_playlist(""));
    assert!(!is_playlist("   \u{feff}"));
    assert!(!is_playlist(" \u{feff}#EXTM3U"));
}

#[test]
fn upload_then_fetch_returns_the_playlist() {
    let mut store = Store::new();
    let body = "#EXTM3U\n#EXTINF:10,\nhttp://example.com/a.ts\n";
    let id: u128 = 0xdead_beef;
    let answer = upload(&mut store, body, 5, id);
    assert_eq!(answer.code, 200);
    assert_eq!(answer.content_type, "application/json; charset=utf-8");
    assert_eq!(
        String::from_utf8(answer.body).unwrap(),
        "{\"url\":\"http://127.0.0.1:17891/m3u8/000000000000000000000000deadbeef\"}"
    );
    let got = fetch(&mut store, id, 5 + 10 * MINUTE);
    assert_eq!(got.code, 200);
    assert_eq!(got.reason, "OK");
    assert_eq!(got.content_type, "application/vnd.apple.mpegurl; charset=utf-8");
    assert_eq!(got.body, body.as_bytes());
    assert_eq!(store.len(), 1);
    assert_eq!(store.total_bytes(), body.len());
}

#[test]
fn expired_playlists_are_gone() {
    let mut store = Store::new();
    upload(&mut store, "#EXTM3U\n", 0, 1);
    let got = fetch(&mut store, 1, 30 * MINUTE);
    assert_eq!(got.code, 200);
    let got = fetch(&mut store, 1, 60 * MINUTE);
    assert_eq!(got.code, 200);
    let got = fetch(&mut store, 1, 90 * MINUTE + 1);
    assert_eq!(got.code, 404);
    assert_eq!(got.body, b"m3u8 not found");
    assert_eq!(store.len(), 0);
    assert_eq!(store.total_bytes(), 0);
}

#[test]
fn bad_uploads_are_refused() {
    let mut store = Store::new();
    let answer = upload(&mut store, "hello", 0, 1);
    assert_eq!(answer.code, 400);
    assert_eq!(answer.reason, "Bad Request");
    assert_eq!(answer.body, b"request body is not a valid m3u8");
    let r = store.handle_request_with_id(request("POST", "/api/m3u8", &[0xff, 0xfe]), 0, 1);
    assert!(matches!(r, Err(HandleError::BodyNotUtf8(_))));
    assert_eq!(store.len(), 0);
}

#[test]
fn other_requests_get_fixed_answers() {
    let mut store = Store::new();
    let r = store.handle_request_with_id(request("OPTIONS", "/anything", b""), 0, 0).unwrap();
    assert_eq!(r.code, 204);
    assert_eq!(r.reason, "No Content");
    assert!(r.body.is_empty());
    let r = store.handle_request_with_id(request("GET", "/api/status", b""), 0, 0).unwrap();
    assert_eq!(r.code, 200);
    assert_eq!(r.body, b"{\"ok\":true,\"port\":17891}");
    let r = store.handle_request_with_id(request("GET", "/nothing", b""), 0, 0).unwrap();
    assert_eq!(r.code, 404);
    assert_eq!(r.body, b"not found");
    let r = store.handle_request_with_id(request("PUT", "/api/m3u8", b"#EXTM3U"), 0, 0).unwrap();
    assert_eq!(r.code, 404);
    let r = store.handle_request_with_id(request("GET", "/m3u8/abc123", b""), 0, 0).unwrap();
    assert_eq!(r.code, 404);
    assert_eq!(r.body, b"m3u8 not found");
}

#[test]
fn fresh_ids_are_used_for_uploads() {
    let mut store = Store::new();
    let r = store.handle_request(request("POST", "/api/m3u8", b"#EXTM3U\n"), 0).unwrap();
    let text = String::from_utf8(r.body).unwrap();
    let prefix = "{\"url\":\"http://127.0.0.1:17891/m3u8/";
    assert!(text.starts_with(prefix));
    let id_text = &text[prefix.len()..text.len() - 2];
    let id = parse_id(id_text).unwrap();
    let got = fetch(&mut store, id, 1);
    assert_eq!(got.body, b"#EXTM3U\n");
    assert!(matches!(
        store.handle_request(request("POST", "/api/m3u8", &[0xff]), 2),
        Err(HandleError::BodyNotUtf8(_))
    ));
    assert_eq!(store.handle_request(request("POST", "/api/m3u8", b"hello"), 2).unwrap().code, 400);
    assert_eq!(store.handle_request(request("GET", "/api/status", b""), 2).unwrap().code, 200);
    assert_eq!(store.len(), 1);
}

#[test]
fn oldest_playlists_make_room() {
    let mut store = Store::new();
    let big = format!("#EXTM3U\n{}", "a".repeat(100 * 1024 * 1024));
    upload(&mut store, &big, 1, 1);
    upload(&mut store, &big, 2, 2);
    fetch(&mut store, 1, 3);
    upload(&mut store, &big, 4, 3);
    assert_eq!(store.len(), 2);
    assert_eq!(fetch(&mut store, 2, 5).code, 404);
    assert_eq!(fetch(&mut store, 1, 5).code, 200);
    assert_eq!(fetch(&mut store, 3, 5).code, 200);
    assert_eq!(store.total_bytes(), 2 * big.len());
}

#[test]
fn reused_id_replaces_the_playlist() {
    let mut store = Store::new();
    upload(&mut store, "#EXTM3U\nfirst\n", 1, 7);
    upload(&mut store, "#EXTM3U\nsecond\n", 2, 7);
    assert_eq!(store.len(), 1);
    assert_eq!(store.total_bytes(), "#EXTM3U\nsecond\n".len());
    assert_eq!(fetch(&mut store, 7, 3).body, b"#EXTM3U\nsecond\n");
}

#[test]
fn responses_render_as_http() {
    let r = text_response(404, "Not Found", "not found");
    let bytes = render_response(&r);
    let expected = "HTTP/1.1 404 Not Found\r\nContent-Type: text/plain; charset=utf-8\r\nContent-Length: 9\r\nAccess-Control-Allow-Origin: *\r\nAccess-Control-Allow-Methods: GET, POST, OPTIONS\r\nAccess-Control-Allow-Headers: Content-Type\r\nCache-Control: no-store\r\nConnection: close\r\n\r\nnot found";
    assert_eq!(String::from_utf8(bytes).unwrap(), expected);
    let busy = busy_response();
    assert_eq!(busy.code, 429);
    assert_eq!(busy.reason, "Too Many Requests");
    assert_eq!(busy.body, b"too many concurrent HTTP Bridge connections");
}

#[test]
fn status_replies_are_checked() {
    assert!(status_reply_ok(b"HTTP/1.1 200 OK\r\nContent-Length: 24\r\n\r\n{\"ok\":true,\"port\":17891}"));
    assert!(!status_reply_ok(b"HTTP/1.1 404 Not Found\r\n\r\n{\"ok\":true}"));
    assert!(!status_reply_ok(b"HTTP/1.1 200 OK\r\n\r\n{\"ok\":false}"));
    assert!(!status_reply_ok(b"HTTP/1.1 200 O"));
    assert_eq!(
        status_request(),
        "GET /api/status HTTP/1.1\r\nHost: 127.0.0.1:17891\r\nConnection: close\r\n\r\n"
    );
}

#[test]
fn byte_search_finds_first_occurrence() {
    assert_eq!(find_bytes(b"ab\r\n\r\n\r\n\r\n", b"\r\n\r\n"), Some(2));
    assert_eq!(find_bytes(b"abc", b"abcd"), None);
    assert_eq!(find_bytes(b"aaab", b"ab"), Some(2));
    assert_eq!(find_bytes(b"", b"a"), None);
}

#[test]
fn request_heads_are_found_and_read() {
    assert_eq!(scan_head(b"GET / HTTP/1.1\r\nHost: x\r\n").unwrap(), None);
    assert_eq!(scan_head(b"GET / HTTP/1.1\r\n\r\nbody").unwrap(), Some(18));
    assert!(matches!(scan_head(&vec![b'a'; 65537]), Err(RequestError::HeadTooLarge)));
    let head = parse_head(b"POST /api/m3u8 HTTP/1.1\r\nHost: x\r\ncontent-LENGTH: +42 \r\n\r\n").unwrap();
    assert_eq!(head.method, "POST");
    assert_eq!(head.path, "/api/m3u8");
    assert_eq!(head.content_length, 42);
    let head = parse_head(b"  GET\t/m3u8/ab  HTTP/1.1\r\n\r\n").unwrap();
    assert_eq!(head.method, "GET");
    assert_eq!(head.path, "/m3u8/ab");
    assert_eq!(head.content_length, 0);
}

#[test]
fn bad_request_heads_are_refused() {
    assert!(matches!(parse_head(b"\r\n\r\n"), Err(RequestError::MissingMethod)));
    assert!(matches!(parse_head(b"GET\r\n\r\n"), Err(RequestError::MissingPath)));
    assert!(matches!(parse_head(b"GET / HTTP/1.1\r\nContent-Length: x\r\n\r\n"), Err(RequestError::InvalidContentLength)));
    assert!(matches!(parse_head(b"GET / HTTP/1.1\r\nContent-Length: -1\r\n\r\n"), Err(RequestError::InvalidContentLength)));
    assert!(matches!(parse_head(b"GET / HTTP/1.1\r\nContent-Length: 99999999999999999999999\r\n\r\n"), Err(RequestError::InvalidContentLength)));
    assert!(matches!(parse_head(b"GET / HTTP/1.1\r\nContent-Length: 16777217\r\n\r\n"), Err(RequestError::BodyTooLarge)));
    assert!(matches!(parse_head(b"GET / HTTP/1.1\r\nTransfer-Encoding:  Chunked\r\n\r\n"), Err(RequestError::ChunkedBody)));
    assert!(matches!(parse_head(&[0xff, b'\r', b'\n', b'\r', b'\n']), Err(RequestError::HeadNotUtf8(_))));
    let ok = parse_head(b"GET / HTTP/1.1\r\nContent-Length: 16777216\r\nContent-Length: 3\r\n\r\n").unwrap();
    assert_eq!(ok.content_length, 3);
}

#[test]
fn body_reading_sizes() {
    assert_eq!(initial_body(b"HEADbody-and-more", 4, 4), b"body");
    assert_eq!(initial_body(b"HEADbo", 4, 4), b"bo");
    assert_eq!(next_read_len(0, 100), Some(100));
    assert_eq!(next_read_len(0, 10000), Some(8192));
    assert_eq!(next_read_len(9000, 10000), Some(1000));
    assert_eq!(next_read_len(10000, 10000), None);
    assert_eq!(next_read_len(0, 0), None);
}

#[test]
fn connection_slots_are_limited() {
    assert_eq!(try_acquire_connection(0), Some(1));
    assert_eq!(try_acquire_connection(31), Some(32));
    assert_eq!(try_acquire_connection(32), None);
}

#[test]
fn startup_waits_a_bounded_time() {
    assert_eq!(startup_step(0, true), StartupStep::Ready);
    assert_eq!(startup_step(0, false), StartupStep::Spawn);
    assert_eq!(startup_step(1, false), StartupStep::Retry);
    assert_eq!(startup_step(99, false), StartupStep::Retry);
    assert_eq!(startup_step(100, false), StartupStep::GiveUp);
    assert_eq!(startup_step(100, true), StartupStep::Ready);
}

#[test]
fn playlists_survive_other_requests() {
    let mut store = Store::new();
    let body = "\u{feff}\n#EXTM3U\r\n#EXTINF:5,\nseg.ts\n";
    assert_eq!(upload(&mut store, body, 0, 7).code, 200);
    let r = store.handle_request_with_id(request("GET", "/api/status", b""), MINUTE, 0).unwrap();
    assert_eq!(r.code, 200);
    let r = store.handle_request_with_id(request("OPTIONS", "/api/m3u8", b""), 2 * MINUTE, 0).unwrap();
    assert_eq!(r.code, 204);
    assert_eq!(upload(&mut store, "#EXTM3U\nother\n", 3 * MINUTE, 8).code, 200);
    assert_eq!(fetch(&mut store, 8, 4 * MINUTE).code, 200);
    assert_eq!(fetch(&mut store, 9, 5 * MINUTE).code, 404);
    let r = store.handle_request_with_id(request("GET", "/elsewhere", b""), 6 * MINUTE, 0).unwrap();
    assert_eq!(r.code, 404);
    let got = fetch(&mut store, 7, 29 * MINUTE);
    assert_eq!(got.code, 200);
    assert_eq!(got.body, body.as_bytes());
}
