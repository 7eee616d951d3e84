use axum::http::{HeaderMap, HeaderValue};
use justupload::headers::{read_headers, text_from, Headers};
use justupload::pages::{base, client_ip, health_report, index};
use justupload::state::AppState;

fn none() -> Headers {
    read_headers(&HeaderMap::new())
}

fn text(s: &str) -> Option<String> {
    Some(s.to_string())
}

fn state(base_url: Option<&str>) -> AppState {
    AppState::new("/tmp/x".to_string(), base_url.map(|s| s.to_string()))
}

#[test]
fn configured_base_comes_first() {
    let mut h = none();
    h.host = text("example.com");
    assert_eq!(base(&state(Some("https://up.example/")), &h), "https://up.example");
    assert_eq!(base(&state(Some("https://up.example///")), &h), "https://up.example");
    assert_eq!(base(&state(Some("https://up.example/x")), &h), "https://up.example/x");
    assert_eq!(base(&state(Some("/")), &h), "");
}

#[test]
fn base_from_the_request() {
    let st = state(None);
    let mut h = none();
    assert_eq!(base(&st, &h), "http://localhost:8080");
    h.host = text("localhost:3000");
    assert_eq!(base(&st, &h), "http://localhost:3000");
    h.host = text("127.0.0.1:18081");
    assert_eq!(base(&st, &h), "http://127.0.0.1:18081");
    h.host = text("justupload.fly.dev");
    assert_eq!(base(&st, &h), "https://justupload.fly.dev");
    h.x_forwarded_proto = text("http");
    assert_eq!(base(&st, &h), "http://justupload.fly.dev");
}

#[test]
fn clients_are_known_by_their_address() {
    let mut h = none();
    assert_eq!(client_ip(&h, "9.9.9.9"), "9.9.9.9");
    h.x_forwarded_for = text(" 1.1.1.1\t, 2.2.2.2");
    assert_eq!(client_ip(&h, "9.9.9.9"), "1.1.1.1");
    h.x_forwarded_for = text("4.4.4.4");
    assert_eq!(client_ip(&h, "9.9.9.9"), "4.4.4.4");
    h.x_forwarded_for = text(",5.5.5.5");
    assert_eq!(client_ip(&h, "9.9.9.9"), "");
    h.x_real_ip = text("3.3.3.3");
    assert_eq!(client_ip(&h, "9.9.9.9"), "3.3.3.3");
    h.fly_client_ip = text("6.6.6.6");
    assert_eq!(client_ip(&h, "9.9.9.9"), "6.6.6.6");
}

#[test]
fn help_for_terminals() {
    let r = index(&state(Some("http://h")), &none(), "page");
    assert_eq!(r.status, 200);
    assert_eq!(r.content_type, "text/plain; charset=utf-8");
    assert_eq!(
        r.body,
        "justupload - temporary file sharing\n\
         \n\
         upload:\n\
         \x20 curl -T file.txt http://h/\n\
         \x20 curl -F 'file=@file.txt' http://h/\n\
         \x20 wget --method=PUT --body-file=file.txt -qO- http://h/\n\
         \n\
         download:\n\
         \x20 curl -OJ <returned url>\n\
         \n\
         rules:\n\
         \x20 - max file size: 10 MB\n\
         \x20 - deleted after the first download\n\
         \x20 - deleted after 1 hour\n\
         \x20 - max 30 MB of uploads per hour per IP\n\
         \x20 - no backups, no guarantees\n"
    );
}

#[test]
fn page_for_browsers() {
    let mut h = none();
    h.accept = text("text/html,application/xhtml+xml;q=0.9");
    let r = index(&state(Some("http://h/")), &h, "<a href=\"{{BASE}}/\">{{BASE}}</a>");
    assert_eq!(r.status, 200);
    assert_eq!(r.content_type, "text/html; charset=utf-8");
    assert_eq!(r.body, "<a href=\"http://h/\">http://h</a>");
    h.accept = text("*/*");
    let r = index(&state(Some("http://h/")), &h, "page");
    assert_eq!(r.content_type, "text/plain; charset=utf-8");
}

#[test]
fn report_of_numbers() {
    assert_eq!(health_report(0, 0).body, "ok\nfiles=0\nbytes=0\n");
    assert_eq!(health_report(12, 345).body, "ok\nfiles=12\nbytes=345\n");
}

#[test]
fn headers_are_read_by_their_names() {
    let mut map: HeaderMap<HeaderValue> = HeaderMap::new();
    map.insert("Host", HeaderValue::from_static("h"));
    map.insert("X-Forwarded-Proto", HeaderValue::from_static("p"));
    map.insert("Accept", HeaderValue::from_static("a"));
    map.insert("Content-Type", HeaderValue::from_static("c"));
    map.insert("Fly-Client-IP", HeaderValue::from_static("f"));
    map.insert("X-Real-IP", HeaderValue::from_static("r"));
    map.insert("X-Forwarded-For", HeaderValue::from_static("o"));
    map.insert("X-Filename", HeaderValue::from_static("n"));
    let h = read_headers(&map);
    assert_eq!(h.host.as_deref(), Some("h"));
    assert_eq!(h.x_forwarded_proto.as_deref(), Some("p"));
    assert_eq!(h.accept.as_deref(), Some("a"));
    assert_eq!(h.content_type.as_deref(), Some("c"));
    assert_eq!(h.fly_client_ip.as_deref(), Some("f"));
    assert_eq!(h.x_real_ip.as_deref(), Some("r"));
    assert_eq!(h.x_forwarded_for.as_deref(), Some("o"));
    assert_eq!(h.x_filename.as_deref(), Some("n"));
}

#[test]
fn only_the_first_visible_value_counts() {
    let mut map: HeaderMap<HeaderValue> = HeaderMap::new();
    map.append("host", HeaderValue::from_static("first"));
    map.append("host", HeaderValue::from_static("second"));
    map.append("x-filename", HeaderValue::from_bytes(b"n\xc3\xa4me").unwrap());
    map.append("x-filename", HeaderValue::from_static("name"));
    map.append("accept", HeaderValue::from_static(""));
    let h = read_headers(&map);
    assert_eq!(h.host.as_deref(), Some("first"));
    assert_eq!(h.x_filename, None);
    assert_eq!(h.accept.as_deref(), Some(""));
    assert_eq!(h.x_real_ip, None);
}

#[test]
fn visible_text_is_that_of_header_values() {
    for b in 0..=255u8 {
        let bytes = vec![b'a', b, b'z'];
        if let Ok(value) = HeaderValue::from_bytes(&bytes) {
            assert_eq!(text_from(&bytes).as_deref(), value.to_str().ok(), "{b}");
        } else {
            assert_eq!(text_from(&bytes), None, "{b}");
        }
    }
}
