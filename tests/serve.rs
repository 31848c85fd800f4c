use std::collections::HashMap;
use tinyserve::handler::{Action, Connection, Event};
use tinyserve::mime::mime;
use tinyserve::port::{PortScan, ScanAction};
use tinyserve::request::request_target;
use tinyserve::resolve::{candidate_path, fallback_path, sanitize};
use tinyserve::response::{found, not_found, ok};

fn chars(s: &str) -> Vec<char> {
    s.chars().collect()
}

fn text(v: &[char]) -> String {
    v.iter().collect()
}

/// Drives one connection against an in-memory disk: `files` are readable,
/// `dirs` exist but cannot be read as files.
fn serve(root: &str, request: &str, files: &HashMap<String, Vec<u8>>, dirs: &[&str]) -> Option<Vec<u8>> {
    let mut conn = Connection::new(chars(root));
    let mut event = Event::Received(chars(request));
    loop {
        match conn.step(event) {
            Action::Probe(p) => {
                let p = text(&p);
                event = Event::Probed(files.contains_key(&p) || dirs.contains(&p.as_str()));
            }
            Action::Load(p) => {
                event = match files.get(&text(&p)) {
                    Some(body) => Event::Loaded(body.clone()),
                    None => Event::LoadFailed,
                };
            }
            Action::Send(bytes) => return Some(bytes),
            Action::Close => return None,
        }
    }
}

fn site() -> HashMap<String, Vec<u8>> {
    let mut files = HashMap::new();
    files.insert("/site/intercept".to_string(), b"hi".to_vec());
    files.insert("/site/app.js".to_string(), b"console.log(1)".to_vec());
    files
}

fn ok_bytes(body: &str, content_type: &str) -> Vec<u8> {
    format!(
        "HTTP/1.1 200 OK\r\nContent-Length: {}\r\nContent-Type: {}\r\nConnection: close\r\n\r\n{}",
        body.len(),
        content_type,
        body
    )
    .into_bytes()
}

const FOUND: &str = "HTTP/1.1 302 Found\r\nLocation: /intercept\r\nContent-Length: 0\r\nConnection: close\r\n\r\n";
const NOT_FOUND: &str = "HTTP/1.1 404 Not Found\r\nContent-Length: 13\r\nConnection: close\r\n\r\n404 Not Found";

#[test]
fn mime_table() {
    assert_eq!(mime(&chars("/s/index.html")), "text/html");
    assert_eq!(mime(&chars("/s/app.js")), "application/javascript");
    assert_eq!(mime(&chars("/s/a.css")), "text/css");
    assert_eq!(mime(&chars("/s/a.json")), "application/json");
    assert_eq!(mime(&chars("/s/a.png")), "image/png");
    assert_eq!(mime(&chars("/s/a.jpg")), "image/jpeg");
    assert_eq!(mime(&chars("/s/a.jpeg")), "image/jpeg");
    assert_eq!(mime(&chars("/s/a.svg")), "image/svg+xml");
    assert_eq!(mime(&chars("/s/a.wasm")), "application/wasm");
    assert_eq!(mime(&chars("/s/a.txt")), "application/octet-stream");
}

#[test]
fn mime_without_extension() {
    assert_eq!(mime(&chars("/site/intercept")), "application/octet-stream");
    assert_eq!(mime(&chars("/site/.js")), "application/octet-stream");
    assert_eq!(mime(&chars("/site/v1.js/readme")), "application/octet-stream");
    assert_eq!(mime(&chars("")), "application/octet-stream");
}

#[test]
fn mime_uses_last_dot() {
    assert_eq!(mime(&chars("/s/a.min.js")), "application/javascript");
    assert_eq!(mime(&chars("/s/a.js.gz")), "application/octet-stream");
    assert_eq!(mime(&chars("/s/a.HTML")), "application/octet-stream");
}

#[test]
fn target_is_second_word() {
    let t = request_target(&chars("GET /app.js HTTP/1.1\r\nHost: x\r\n\r\n")).unwrap();
    assert_eq!(text(&t), "/app.js");
    let t = request_target(&chars("  GET \t /a?b=1   HTTP/1.1\r\n")).unwrap();
    assert_eq!(text(&t), "/a?b=1");
    let t = request_target(&chars("GET /x")).unwrap();
    assert_eq!(text(&t), "/x");
}

#[test]
fn target_missing() {
    assert!(request_target(&chars("")).is_none());
    assert!(request_target(&chars("GET\r\nHost: /x\r\n")).is_none());
    assert!(request_target(&chars("   \r\n")).is_none());
}

#[test]
fn candidate_strips_query_and_one_slash() {
    let root = chars("/site");
    assert_eq!(text(&candidate_path(&root, &chars("/app.js?x=1")).unwrap()), "/site/app.js");
    assert_eq!(text(&candidate_path(&root, &chars("/a/b.css")).unwrap()), "/site/a/b.css");
    assert_eq!(text(&candidate_path(&root, &chars("//etc/x")).unwrap()), "/site/etc/x");
    assert_eq!(text(&candidate_path(&root, &chars("?q")).unwrap()), "/site/");
    assert_eq!(text(&candidate_path(&chars("/site/"), &chars("/a")).unwrap()), "/site/a");
    assert_eq!(text(&candidate_path(&chars(""), &chars("/a")).unwrap()), "a");
}

#[test]
fn candidate_normalizes_segments() {
    let root = chars("/site");
    assert_eq!(text(&candidate_path(&root, &chars("/a/..")).unwrap()), "/site/");
    assert_eq!(text(&candidate_path(&root, &chars("/a/../b?x")).unwrap()), "/site/b");
    assert_eq!(text(&candidate_path(&root, &chars("/a/../app.js")).unwrap()), "/site/app.js");
    assert_eq!(text(&candidate_path(&root, &chars("/a/./b//c/")).unwrap()), "/site/a/b/c");
    assert_eq!(text(&candidate_path(&root, &chars("/a/..b")).unwrap()), "/site/a/..b");
    assert_eq!(text(&candidate_path(&root, &chars("/...")).unwrap()), "/site/...");
    assert_eq!(text(&candidate_path(&root, &chars("/x?/../y")).unwrap()), "/site/x");
}

#[test]
fn candidate_refuses_climbing_above_root() {
    let root = chars("/site");
    assert!(candidate_path(&root, &chars("/../etc/passwd")).is_none());
    assert!(candidate_path(&root, &chars("..")).is_none());
    assert!(candidate_path(&root, &chars("/a/../../x")).is_none());
    assert!(candidate_path(&root, &chars("/./../x")).is_none());
}

#[test]
fn sanitize_falls_back() {
    let root = chars("/site");
    assert_eq!(text(&fallback_path(&root)), "/site/intercept");
    assert_eq!(text(&sanitize(&root, &chars("/app.js"), true)), "/site/app.js");
    assert_eq!(text(&sanitize(&root, &chars("/missing.png"), false)), "/site/intercept");
    assert_eq!(text(&sanitize(&root, &chars("/../secret"), true)), "/site/intercept");
    assert_eq!(text(&sanitize(&root, &chars("/a/../app.js"), true)), "/site/app.js");
}

#[test]
fn response_bytes() {
    assert_eq!(found(), FOUND.as_bytes().to_vec());
    assert_eq!(not_found(), NOT_FOUND.as_bytes().to_vec());
    assert_eq!(ok(&b"hi".to_vec(), "text/css"), ok_bytes("hi", "text/css"));
}

#[test]
fn content_length_digits() {
    let empty = ok(&Vec::new(), "text/html");
    assert_eq!(empty, ok_bytes("", "text/html"));
    let body = vec![b'x'; 1234];
    let r = ok(&body, "image/png");
    let head = "HTTP/1.1 200 OK\r\nContent-Length: 1234\r\nContent-Type: image/png\r\nConnection: close\r\n\r\n";
    assert_eq!(&r[..head.len()], head.as_bytes());
    assert_eq!(r.len(), head.len() + 1234);
}

#[test]
fn site_scenario() {
    let files = site();
    assert_eq!(serve("/site", "GET / HTTP/1.1\r\n\r\n", &files, &[]), Some(FOUND.as_bytes().to_vec()));
    assert_eq!(
        serve("/site", "GET /intercept HTTP/1.1\r\n\r\n", &files, &[]),
        Some(ok_bytes("hi", "application/octet-stream"))
    );
    let app = serve("/site", "GET /app.js HTTP/1.1\r\n\r\n", &files, &[]).unwrap();
    assert_eq!(app, ok_bytes("console.log(1)", "application/javascript"));
    let head = "HTTP/1.1 200 OK\r\nContent-Length: 14\r\nContent-Type: application/javascript\r\n";
    assert!(app.starts_with(head.as_bytes()));
    assert_eq!(
        serve("/site", "GET /missing.png HTTP/1.1\r\n\r\n", &files, &[]),
        Some(ok_bytes("hi", "application/octet-stream"))
    );
}

#[test]
fn missing_fallback_gives_not_found() {
    let mut files = site();
    files.remove("/site/intercept");
    assert_eq!(
        serve("/site", "GET /missing.png HTTP/1.1\r\n\r\n", &files, &[]),
        Some(NOT_FOUND.as_bytes().to_vec())
    );
    assert_eq!(
        serve("/site", "GET /intercept HTTP/1.1\r\n\r\n", &files, &[]),
        Some(NOT_FOUND.as_bytes().to_vec())
    );
}

#[test]
fn existing_directory_gives_not_found() {
    let files = site();
    assert_eq!(
        serve("/site", "GET /assets HTTP/1.1\r\n\r\n", &files, &["/site/assets"]),
        Some(NOT_FOUND.as_bytes().to_vec())
    );
}

#[test]
fn traversal_gets_fallback() {
    let mut files = site();
    files.insert("/etc/passwd".to_string(), b"root".to_vec());
    assert_eq!(
        serve("/site", "GET /../etc/passwd HTTP/1.1\r\n\r\n", &files, &[]),
        Some(ok_bytes("hi", "application/octet-stream"))
    );
}

#[test]
fn parent_segment_inside_root_served() {
    let files = site();
    assert_eq!(
        serve("/site", "GET /a/../app.js HTTP/1.1\r\n\r\n", &files, &["/site/a"]),
        Some(ok_bytes("console.log(1)", "application/javascript"))
    );
}

#[test]
fn same_request_twice() {
    let files = site();
    let first = serve("/site", "GET /app.js HTTP/1.1\r\n\r\n", &files, &[]);
    let second = serve("/site", "GET /app.js HTTP/1.1\r\n\r\n", &files, &[]);
    assert!(first.is_some());
    assert_eq!(first, second);
}

#[test]
fn query_string_ignored() {
    let files = site();
    assert_eq!(
        serve("/site", "GET /app.js?x=1 HTTP/1.1\r\n\r\n", &files, &[]),
        serve("/site", "GET /app.js HTTP/1.1\r\n\r\n", &files, &[])
    );
    assert_eq!(
        serve("/site", "GET /app.js?x=1 HTTP/1.1\r\n\r\n", &files, &[]),
        Some(ok_bytes("console.log(1)", "application/javascript"))
    );
}

#[test]
fn unparsable_request_closes() {
    let files = site();
    assert_eq!(serve("/site", "", &files, &[]), None);
    assert_eq!(serve("/site", "GET\r\n\r\n", &files, &[]), None);
    let mut conn = Connection::new(chars("/site"));
    assert!(matches!(conn.step(Event::ReceiveFailed), Action::Close));
}

#[test]
fn out_of_order_event_closes() {
    let mut conn = Connection::new(chars("/site"));
    assert!(matches!(conn.step(Event::Probed(true)), Action::Close));
    assert!(matches!(conn.step(Event::Received(chars("GET /app.js HTTP/1.1"))), Action::Close));
}

#[test]
fn port_scan_wraps() {
    let mut scan = PortScan::new(65534, 4);
    assert_eq!(scan.next_port(), Some(65534));
    assert_eq!(scan.next_port(), Some(65535));
    assert_eq!(scan.next_port(), Some(0));
    assert_eq!(scan.next_port(), Some(1));
    assert_eq!(scan.next_port(), None);
    assert_eq!(scan.next_port(), None);
}

#[test]
fn port_scan_all_occupied() {
    let occupied = [8080u16, 8081, 8082];
    let mut scan = PortScan::new(8080, 3);
    let mut chosen = None;
    let mut calls = 0;
    while let Some(p) = scan.next_port() {
        calls += 1;
        if !occupied.contains(&p) {
            chosen = Some(p);
            break;
        }
    }
    assert_eq!(chosen, None);
    assert_eq!(calls, 3);
}

#[test]
fn port_scan_first_free() {
    let occupied = [8080u16, 8081];
    let mut scan = PortScan::new(8080, 100);
    let mut chosen = None;
    while let Some(p) = scan.next_port() {
        if !occupied.contains(&p) {
            chosen = Some(p);
            break;
        }
    }
    assert_eq!(chosen, Some(8082));
}

#[test]
fn port_scan_zero_tries() {
    let mut scan = PortScan::new(8080, 0);
    assert_eq!(scan.next_port(), None);
}

/// Drives a scan against a set of occupied ports; returns the chosen port and
/// the number of bind attempts.
fn drive_scan(start: u16, max_tries: u16, occupied: &[u16]) -> (Option<u16>, u32) {
    let mut scan = PortScan::new(start, max_tries);
    let mut action = scan.begin();
    let mut attempts = 0;
    loop {
        match action {
            ScanAction::TryBind(p) => {
                attempts += 1;
                action = scan.after_bind(!occupied.contains(&p));
            }
            ScanAction::Serve(p) => return (Some(p), attempts),
            ScanAction::GiveUp => return (None, attempts),
        }
    }
}

#[test]
fn scan_steps_all_occupied() {
    assert_eq!(drive_scan(8080, 3, &[8080, 8081, 8082]), (None, 3));
    assert_eq!(drive_scan(8080, 0, &[]), (None, 0));
}

#[test]
fn scan_steps_first_free() {
    assert_eq!(drive_scan(8080, 100, &[8080, 8081]), (Some(8082), 3));
    assert_eq!(drive_scan(8080, 100, &[]), (Some(8080), 1));
    assert_eq!(drive_scan(65535, 5, &[65535]), (Some(0), 2));
}

#[test]
fn scan_step_before_begin() {
    let mut scan = PortScan::new(9000, 2);
    assert_eq!(scan.after_bind(true), ScanAction::TryBind(9000));
    assert_eq!(scan.after_bind(true), ScanAction::Serve(9000));
}
