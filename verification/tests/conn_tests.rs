//! Keep-alive decisions, response finishing, and serialization.

use rhttp::conn::{compute_keep_alive, finalize_response, set_content_length};
use rhttp::disk::{Disk, FileEntry};
use rhttp::parser::http::{HttpRequest, HttpResponse};
use rhttp::Config;

fn test_config() -> Config {
    Config {
        port: 7878,
        thread_number: 4,
        root_dir: String::from("./page"),
        timeout: 1,
        chunk: false,
    }
}

#[test]
fn keep_alive_needs_explicit_opt_in() {
    let with = HttpRequest::from("GET / HTTP/1.1\nConnection: keep-alive\n");
    assert!(compute_keep_alive(&with));

    let upper = HttpRequest::from("GET / HTTP/1.1\nConnection: Keep-Alive\n");
    assert!(compute_keep_alive(&upper));

    let close = HttpRequest::from("GET / HTTP/1.1\nConnection: close\n");
    assert!(!compute_keep_alive(&close));

    let absent = HttpRequest::from("GET / HTTP/1.1\n");
    assert!(!compute_keep_alive(&absent));
}

#[test]
fn finalize_sets_connection_and_timeout() {
    let mut response = HttpResponse::error_400();
    let keep = finalize_response(&mut response, true, 4);
    assert!(keep);
    assert_eq!(response.headers.get("Keep-Alive").unwrap().as_str(), "timeout=4");
    assert_eq!(response.headers.get("Connection").unwrap().as_str(), "keep-alive");

    let mut response = HttpResponse::error_400();
    let keep = finalize_response(&mut response, false, 7);
    assert!(!keep);
    assert_eq!(response.headers.get("Keep-Alive").unwrap().as_str(), "timeout=7");
    assert_eq!(response.headers.get("Connection").unwrap().as_str(), "close");
}

#[test]
fn finalize_respects_responses_own_connection_header() {
    let mut response = HttpResponse::error_400();
    response.headers.insert(String::from("Connection"), String::from("close"));
    // the response's own header overrides the computed flag
    let keep = finalize_response(&mut response, true, 4);
    assert!(!keep);
    assert_eq!(response.headers.get("Connection").unwrap().as_str(), "close");
}

#[test]
fn set_content_length_counts_bytes_to_send() {
    let mut response = HttpResponse::error_400();
    set_content_length(&mut response, 1234);
    assert_eq!(response.headers.get("Content-Length").unwrap().as_str(), "1234");
}

#[test]
fn two_requests_get_independent_responses() {
    // a keep-alive connection serves a second request independently
    let cfg = test_config();
    let mut disk = Disk::new();
    disk.put_entry("./page/index.html".to_string(), FileEntry::Text("hi".to_string()));
    disk.put_entry("./page/error/404.html".to_string(), FileEntry::Text("gone".to_string()));

    let mut first = HttpRequest::from("GET / HTTP/1.1\nConnection: keep-alive\n\n");
    let keep = compute_keep_alive(&first);
    assert!(keep);
    let mut response = HttpResponse::new(&mut first, &cfg, &mut disk).unwrap();
    let still_alive = finalize_response(&mut response, keep, 1);
    assert!(still_alive);
    assert_eq!(response.status_code, 200);

    let mut second = HttpRequest::from("GET /missing HTTP/1.1\n\n");
    let keep = compute_keep_alive(&second);
    let mut response = HttpResponse::new(&mut second, &cfg, &mut disk).unwrap();
    let still_alive = finalize_response(&mut response, keep, 1);
    assert!(!still_alive);
    assert_eq!(response.status_code, 404);
}

#[test]
fn generate_string_renders_head_blank_line_and_body() {
    let response = HttpResponse::_error_404();
    assert_eq!(
        response.generate_string().as_str(),
        "HTTP/1.1 404 Not Found\n\n404 Not Found"
    );
}

#[test]
fn generate_string_orders_headers_by_key() {
    let mut response = HttpResponse::error_400();
    response.headers.insert(String::from("Zulu"), String::from("last"));
    response.headers.insert(String::from("Alpha"), String::from("first"));
    response.headers.insert(String::from("Mike"), String::from("middle"));
    assert_eq!(
        response.generate_string().as_str(),
        "HTTP/1.1 400 Bad Request\nAlpha: first\nMike: middle\nZulu: last\n\n"
    );
}

#[test]
fn generate_head_string_leaves_body_out() {
    let response = HttpResponse::_error_404();
    assert_eq!(response.generate_head_string().as_str(), "HTTP/1.1 404 Not Found\n\n");
}
