use tiny_server::format_timestamp;
use tiny_server::rate_limit::{RateLimiter, MAX_REQUESTS, WINDOW_MILLIS};
use tiny_server::request::{contains_parent_component, parse_request_line, resolve_path};
use tiny_server::response::{
    error_response, file_response, get_content_type, not_found_response, preflight_response,
    too_many_requests, visitor_count_response,
};
use tiny_server::server::{Outcome, Server};
use tiny_server::visitors::VisitorCounter;

fn text(b: &[u8]) -> String {
    String::from_utf8(b.to_vec()).unwrap()
}

fn reply(o: Outcome) -> tiny_server::response::Response {
    match o {
        Outcome::Reply(r) => r,
        _ => panic!("expected a reply"),
    }
}

#[test]
fn timestamp_pads_nanoseconds() {
    assert_eq!(format_timestamp(Some((1700000000, 5))), "1700000000.000000005");
    assert_eq!(format_timestamp(Some((0, 123456789))), "0.123456789");
}

#[test]
fn timestamp_before_epoch_is_unknown() {
    assert_eq!(format_timestamp(None), "unknown_time");
}

#[test]
fn content_types_by_extension() {
    assert_eq!(get_content_type("public_html/index.html"), "text/html");
    assert_eq!(get_content_type("a/site.css"), "text/css");
    assert_eq!(get_content_type("app.js"), "application/javascript");
    assert_eq!(get_content_type("logo.png"), "image/png");
    assert_eq!(get_content_type("photo.jpg"), "image/jpeg");
    assert_eq!(get_content_type("photo.jpeg"), "image/jpeg");
    assert_eq!(get_content_type("anim.gif"), "image/gif");
    assert_eq!(get_content_type("icon.svg"), "image/svg+xml");
    assert_eq!(get_content_type("favicon.ico"), "image/x-icon");
    assert_eq!(get_content_type("archive.tar.gz"), "application/octet-stream");
    assert_eq!(get_content_type("html"), "application/octet-stream");
}

#[test]
fn limiter_admits_up_to_limit_then_rejects() {
    let mut l = RateLimiter::new();
    let ip = b"10.0.0.1";
    for i in 0..MAX_REQUESTS {
        assert!(l.allow(ip, 1_000 + i as u64), "request {} rejected", i);
    }
    assert!(!l.allow(ip, 1_000 + MAX_REQUESTS as u64));
    assert!(!l.allow(ip, 1_000 + WINDOW_MILLIS - 1));
}

#[test]
fn limiter_admits_again_after_quiet_window() {
    let mut l = RateLimiter::new();
    let ip = b"10.0.0.2";
    for _ in 0..MAX_REQUESTS {
        assert!(l.allow(ip, 5_000));
    }
    assert!(!l.allow(ip, 5_000));
    assert!(l.allow(ip, 5_000 + WINDOW_MILLIS));
}

#[test]
fn limiter_window_slides() {
    let mut l = RateLimiter::new();
    let ip = b"10.0.0.3";
    for _ in 0..50 {
        assert!(l.allow(ip, 0));
    }
    for _ in 0..50 {
        assert!(l.allow(ip, 30_000));
    }
    assert!(!l.allow(ip, 59_999));
    // the first fifty have left the window, the second fifty remain
    for _ in 0..50 {
        assert!(l.allow(ip, 60_000));
    }
    assert!(!l.allow(ip, 60_000));
}

#[test]
fn limiter_keeps_clients_apart() {
    let mut l = RateLimiter::new();
    for _ in 0..MAX_REQUESTS {
        assert!(l.allow(b"a", 10));
    }
    assert!(!l.allow(b"a", 10));
    assert!(l.allow(b"b", 10));
}

#[test]
fn limiter_ignores_future_timestamps() {
    let mut l = RateLimiter::new();
    for _ in 0..MAX_REQUESTS {
        assert!(l.allow(b"c", 100_000));
    }
    // a clock that went back does not count requests stamped after it
    assert!(l.allow(b"c", 99_999));
}

#[test]
fn visitor_counter_counts_each_increment() {
    let mut c = VisitorCounter::new();
    assert_eq!(c.get(), 0);
    for n in 1..=25u64 {
        assert_eq!(c.increment_and_get(), Some(n));
    }
    assert_eq!(c.get(), 25);
}

#[test]
fn simulated_concurrent_visits_are_all_counted() {
    let shared = std::sync::Mutex::new(VisitorCounter::new());
    let mut seen = Vec::new();
    for _ in 0..40 {
        seen.push(shared.lock().unwrap().increment_and_get().unwrap());
    }
    seen.sort();
    seen.dedup();
    assert_eq!(seen.len(), 40);
    assert_eq!(shared.lock().unwrap().get(), 40);
}

#[test]
fn request_line_method_and_path() {
    let line = parse_request_line(b"GET /index.html HTTP/1.1\r\nHost: x\r\n\r\n").unwrap();
    assert_eq!(line.method, b"GET".to_vec());
    assert_eq!(line.path, b"/index.html".to_vec());
    let line = parse_request_line(b"  POST\t/a  ").unwrap();
    assert_eq!(line.method, b"POST".to_vec());
    assert_eq!(line.path, b"/a".to_vec());
}

#[test]
fn request_line_with_one_token_is_rejected() {
    assert!(parse_request_line(b"GET").is_none());
    assert!(parse_request_line(b"GET\r\n/next-line HTTP/1.1").is_none());
    assert!(parse_request_line(b"\n").is_none());
}

#[test]
fn resolves_paths_under_static_root() {
    assert_eq!(resolve_path(b"/"), b"public_html/index.html".to_vec());
    assert_eq!(resolve_path(b"/css/site.css"), b"public_html/css/site.css".to_vec());
}

#[test]
fn detects_parent_components() {
    assert!(contains_parent_component(b"public_html/../secret"));
    assert!(contains_parent_component(b"public_html/a/.."));
    assert!(contains_parent_component(b".."));
    assert!(!contains_parent_component(b"public_html/a..b/c"));
    assert!(!contains_parent_component(b"public_html/.../c"));
    assert!(!contains_parent_component(b"public_html../x"));
    assert!(!contains_parent_component(b""));
}

#[test]
fn error_response_wire_format() {
    let body = "<html><body><h1>405 Method Not Allowed</h1></body></html>";
    let expected = format!(
        "HTTP/1.1 405 Method Not Allowed\r\nContent-Length: {}\r\nContent-Type: text/html\r\nAccess-Control-Allow-Origin: *\r\n\r\n{}",
        body.len(),
        body
    );
    assert_eq!(text(&error_response(405, "Method Not Allowed").to_bytes()), expected);
}

#[test]
fn rate_limited_wire_format() {
    assert_eq!(
        text(&too_many_requests().to_bytes()),
        "HTTP/1.1 429 Too Many Requests\r\nContent-Length: 19\r\nContent-Type: text/plain\r\nAccess-Control-Allow-Origin: *\r\n\r\nRate limit exceeded"
    );
}

#[test]
fn preflight_wire_format() {
    assert_eq!(
        text(&preflight_response().to_bytes()),
        "HTTP/1.1 204 No Content\r\nAccess-Control-Allow-Origin: *\r\nAccess-Control-Allow-Methods: GET, POST, OPTIONS\r\nAccess-Control-Allow-Headers: Content-Type\r\n\r\n"
    );
}

#[test]
fn visitor_count_wire_format() {
    assert_eq!(
        text(&visitor_count_response(1234).to_bytes()),
        "HTTP/1.1 200 OK\r\nContent-Length: 4\r\nContent-Type: text/plain\r\nAccess-Control-Allow-Origin: *\r\nAccess-Control-Allow-Methods: GET, POST, OPTIONS\r\nAccess-Control-Allow-Headers: Content-Type\r\n\r\n1234"
    );
}

#[test]
fn served_file_round_trip() {
    let contents: Vec<u8> = vec![0, 1, 2, 255, 13, 10, 7];
    let wire = file_response("public_html/img/a.png", contents.clone()).to_bytes();
    let head = "HTTP/1.1 200 OK\r\nContent-Length: 7\r\nContent-Type: image/png\r\nAccess-Control-Allow-Origin: *\r\nAccess-Control-Allow-Methods: GET, POST, OPTIONS\r\nAccess-Control-Allow-Headers: Content-Type\r\n\r\n";
    assert_eq!(&wire[..head.len()], head.as_bytes());
    assert_eq!(&wire[head.len()..], &contents[..]);
}

#[test]
fn not_found_uses_custom_document() {
    let wire = not_found_response(Some(b"<p>gone</p>".to_vec())).to_bytes();
    assert_eq!(
        text(&wire),
        "HTTP/1.1 404 NOT FOUND\r\nContent-Length: 11\r\nContent-Type: text/html\r\nAccess-Control-Allow-Origin: *\r\nAccess-Control-Allow-Methods: GET, POST, OPTIONS\r\nAccess-Control-Allow-Headers: Content-Type\r\n\r\n<p>gone</p>"
    );
}

#[test]
fn not_found_falls_back_to_plain_text() {
    let r = not_found_response(None);
    assert_eq!(r.status, 404);
    assert_eq!(r.body, b"404 Not Found".to_vec());
    assert!(text(&r.to_bytes()).starts_with("HTTP/1.1 404 NOT FOUND\r\nContent-Length: 13\r\n"));
}

#[test]
fn empty_request_gets_no_answer() {
    let mut s = Server::new();
    assert!(matches!(s.handle(b"", b"1.1.1.1", 0), Outcome::Silent));
}

#[test]
fn one_token_request_is_bad_request() {
    let mut s = Server::new();
    let r = reply(s.handle(b"GET", b"1.1.1.1", 0));
    assert_eq!(r.status, 400);
    assert_eq!(r.reason, "Bad Request");
    assert_eq!(text(&r.body), "<html><body><h1>400 Bad Request</h1></body></html>");
    assert!(!r.cors_methods);
}

#[test]
fn options_gets_preflight_answer() {
    let mut s = Server::new();
    for path in ["/", "/anything/here", "/../x"] {
        let req = format!("OPTIONS {} HTTP/1.1\r\n\r\n", path);
        let r = reply(s.handle(req.as_bytes(), b"1.1.1.1", 0));
        assert_eq!(r.status, 204);
        assert!(r.body.is_empty());
        assert!(r.cors_methods);
    }
}

#[test]
fn post_to_static_file_is_not_allowed() {
    let mut s = Server::new();
    let r = reply(s.handle(b"POST /index.html HTTP/1.1\r\n\r\n", b"1.1.1.1", 0));
    assert_eq!(r.status, 405);
    assert_eq!(r.reason, "Method Not Allowed");
}

#[test]
fn visitor_count_ignores_method() {
    let mut s = Server::new();
    let r = reply(s.handle(b"POST /visitor-count HTTP/1.1\r\n\r\n", b"1.1.1.1", 0));
    assert_eq!(r.status, 200);
    assert_eq!(r.body, b"1".to_vec());
    let r = reply(s.handle(b"GET /visitor-count HTTP/1.1\r\n\r\n", b"1.1.1.1", 1));
    assert_eq!(r.body, b"2".to_vec());
    assert_eq!(s.visitors.get(), 2);
}

#[test]
fn traversal_is_not_found() {
    let mut s = Server::new();
    assert!(matches!(
        s.handle(b"GET /../secret.txt HTTP/1.1\r\n\r\n", b"1.1.1.1", 0),
        Outcome::NotFound
    ));
    assert!(matches!(
        s.handle(b"GET /a/b/../../../etc/passwd HTTP/1.1\r\n\r\n", b"1.1.1.1", 0),
        Outcome::NotFound
    ));
}

#[test]
fn get_resolves_file_to_serve() {
    let mut s = Server::new();
    match s.handle(b"GET / HTTP/1.1\r\n\r\n", b"1.1.1.1", 0) {
        Outcome::ServeFile(p) => assert_eq!(p, b"public_html/index.html".to_vec()),
        _ => panic!("expected a file"),
    }
    match s.handle(b"GET /js/app.js HTTP/1.1\r\n\r\n", b"1.1.1.1", 0) {
        Outcome::ServeFile(p) => assert_eq!(p, b"public_html/js/app.js".to_vec()),
        _ => panic!("expected a file"),
    }
}

#[test]
fn rate_limit_applies_before_routing() {
    let mut s = Server::new();
    for _ in 0..MAX_REQUESTS {
        let r = reply(s.handle(b"OPTIONS / HTTP/1.1", b"9.9.9.9", 7));
        assert_eq!(r.status, 204);
    }
    let r = reply(s.handle(b"GET /visitor-count HTTP/1.1", b"9.9.9.9", 8));
    assert_eq!(r.status, 429);
    assert_eq!(s.visitors.get(), 0);
    // a malformed request is answered before the limiter is consulted
    let r = reply(s.handle(b"GET", b"9.9.9.9", 8));
    assert_eq!(r.status, 400);
    let r = reply(s.handle(b"GET /visitor-count HTTP/1.1", b"8.8.8.8", 8));
    assert_eq!(r.status, 200);
}

#[test]
fn error_page_with_no_content_status_keeps_its_length() {
    let body = "<html><body><h1>204 No Content</h1></body></html>";
    let expected = format!(
        "HTTP/1.1 204 No Content\r\nContent-Length: {}\r\nContent-Type: text/html\r\nAccess-Control-Allow-Origin: *\r\n\r\n{}",
        body.len(),
        body
    );
    assert_eq!(text(&error_response(204, "No Content").to_bytes()), expected);
}

#[test]
fn unicode_space_does_not_split_tokens() {
    let mut req = b"GET".to_vec();
    req.extend_from_slice("\u{a0}".as_bytes());
    req.extend_from_slice(b"/x");
    assert!(parse_request_line(&req).is_none());
}

#[test]
fn limiter_admits_steady_rate_at_the_limit() {
    let mut l = RateLimiter::new();
    let step = WINDOW_MILLIS / MAX_REQUESTS as u64;
    for i in 0..(3 * MAX_REQUESTS as u64) {
        assert!(l.allow(b"steady", i * step), "request {} rejected", i);
    }
    // one more at the last instant would make the window hold too many
    assert!(!l.allow(b"steady", (3 * MAX_REQUESTS as u64 - 1) * step));
}
