//! The per-method handlers, driven through `HttpResponse::new` against
//! an explicit disk.

use rhttp::disk::{Disk, FileEntry};
use rhttp::parser::http::method::post::{multipart_parts, parse_urlencoded};
use rhttp::parser::http::BodyLines;
use rhttp::parser::http::{HttpRequest, HttpResponse};
use rhttp::Config;

fn test_config() -> Config {
    Config {
        port: 7878,
        thread_number: 4,
        root_dir: String::from("./page"),
        timeout: 1,
        chunk: false,
    }
}

fn disk_with(files: &[(&str, &str)]) -> Disk {
    let mut disk = Disk::new();
    for (path, content) in files {
        disk.put_entry(path.to_string(), FileEntry::Text(content.to_string()));
    }
    disk
}

#[test]
fn get_index_html() {
    let cfg = test_config();
    let mut disk = disk_with(&[("./page/index.html", "hi"), ("./page/error/404.html", "gone")]);
    let mut request = HttpRequest::from("GET / HTTP/1.1\n\n");
    let response = HttpResponse::new(&mut request, &cfg, &mut disk).unwrap();
    assert_eq!(response.status_code, 200);
    assert_eq!(response.status_text.as_str(), "OK");
    assert_eq!(response.headers.get("Content-Length").unwrap().as_str(), "2");
    assert_eq!(response.body.as_ref().unwrap().as_str(), "hi");
    assert_eq!(response.headers.get("Server").unwrap().as_str(), "rhttp");
}

#[test]
fn get_missing_file_serves_error_page() {
    let cfg = test_config();
    let mut disk = disk_with(&[("./page/error/404.html", "not here")]);
    let mut request = HttpRequest::from("GET /nothing.html HTTP/1.1\n\n");
    let response = HttpResponse::new(&mut request, &cfg, &mut disk).unwrap();
    assert_eq!(response.status_code, 404);
    assert_eq!(response.status_text.as_str(), "NOT FOUND");
    assert_eq!(response.body.as_ref().unwrap().as_str(), "not here");
    assert_eq!(response.headers.get("Content-Length").unwrap().as_str(), "8");
}

#[test]
fn get_binary_file_sets_raw_flag() {
    let cfg = test_config();
    let mut disk = Disk::new();
    disk.put_entry("./page//photo.png".to_string(), FileEntry::Binary);
    let mut request = HttpRequest::from("GET /photo.png HTTP/1.1\n\n");
    let response = HttpResponse::new(&mut request, &cfg, &mut disk).unwrap();
    assert_eq!(response.status_code, 200);
    assert!(response.body.is_none());
    assert!(response.need_send_raw_file());
}

#[test]
fn head_existing_resource() {
    let cfg = test_config();
    let mut disk = disk_with(&[("./page/index.html", "hello"), ("./page/error/404.html", "gone")]);
    let mut request = HttpRequest::from("HEAD / HTTP/1.1\n\n");
    let response = HttpResponse::new(&mut request, &cfg, &mut disk).unwrap();
    assert_eq!(response.status_code, 200);
    assert_eq!(response.headers.get("Content-Length").unwrap().as_str(), "5");
    assert_eq!(response.body.as_ref().unwrap().as_str(), "");
}

#[test]
fn head_existing_binary_resource() {
    let cfg = test_config();
    let mut disk = Disk::new();
    disk.put_entry("./page//photo.png".to_string(), FileEntry::Binary);
    let mut request = HttpRequest::from("HEAD /photo.png HTTP/1.1\n\n");
    let response = HttpResponse::new(&mut request, &cfg, &mut disk).unwrap();
    assert_eq!(response.status_code, 200);
    assert_eq!(response.body.as_ref().unwrap().as_str(), "");
    assert!(response.headers.get("Content-Length").is_none());
    assert_eq!(response.headers.get("Server").unwrap().as_str(), "rhttp");
}

#[test]
fn put_creates_then_updates() {
    let cfg = test_config();
    let mut disk = Disk::new();

    let mut request = HttpRequest::from("PUT /notes.txt HTTP/1.1\nContent-length: 5\n\nhello");
    let response = HttpResponse::new(&mut request, &cfg, &mut disk).unwrap();
    assert_eq!(response.status_code, 201);
    assert_eq!(response.status_text.as_str(), "Created");
    assert_eq!(response.body.as_ref().unwrap().as_str(), "Content-Location: /notes.txt");
    match disk.read("./page//notes.txt") {
        Some(FileEntry::Text(content)) => assert_eq!(content.as_str(), "hello"),
        other => panic!("expected text entry, got {:?}", other.is_some()),
    }

    let mut again = HttpRequest::from("PUT /notes.txt HTTP/1.1\nContent-length: 5\n\nhello");
    let response = HttpResponse::new(&mut again, &cfg, &mut disk).unwrap();
    assert_eq!(response.status_code, 200);
    assert_eq!(response.status_text.as_str(), "OK");
    assert_eq!(response.body.as_ref().unwrap().as_str(), "Content-Location: /notes.txt");
}

#[test]
fn put_without_length_yields_no_response() {
    let cfg = test_config();
    let mut disk = Disk::new();
    let mut request = HttpRequest::from("PUT /x.txt HTTP/1.1\n\nhello");
    assert!(HttpResponse::new(&mut request, &cfg, &mut disk).is_none());

    let mut bad = HttpRequest::from("PUT /x.txt HTTP/1.1\nContent-length: five\n\nhello");
    assert!(HttpResponse::new(&mut bad, &cfg, &mut disk).is_none());
}

#[test]
fn put_multi_line_body_joined_with_newlines() {
    let cfg = test_config();
    let mut disk = Disk::new();
    let mut request = HttpRequest::from("PUT /two.txt HTTP/1.1\nContent-length: 7\n\nabc\ndef");
    let response = HttpResponse::new(&mut request, &cfg, &mut disk).unwrap();
    assert_eq!(response.status_code, 201);
    match disk.read("./page//two.txt") {
        Some(FileEntry::Text(content)) => assert_eq!(content.as_str(), "abc\ndef"),
        _ => panic!("expected text entry"),
    }
}

#[test]
fn put_write_failure_yields_500() {
    let cfg = test_config();
    let mut disk = Disk::new_failing();
    let mut request = HttpRequest::from("PUT /x.txt HTTP/1.1\nContent-length: 5\n\nhello");
    let response = HttpResponse::new(&mut request, &cfg, &mut disk).unwrap();
    assert_eq!(response.status_code, 500);
    assert_eq!(response.status_text.as_str(), "Internal Server Error");
    assert_eq!(response.body.as_ref().unwrap().as_str(), "Undefined Interal Error Resp Body");
    // the common Server header survives onto the error response
    assert_eq!(response.headers.get("Server").unwrap().as_str(), "rhttp");
}

#[test]
fn oversized_body_yields_507_for_put_and_post() {
    let cfg = test_config();
    let mut disk = Disk::new();

    let mut put = HttpRequest::from("PUT /big HTTP/1.1\nContent-length: 32768\n\nx");
    let response = HttpResponse::new(&mut put, &cfg, &mut disk).unwrap();
    assert_eq!(response.status_code, 507);
    assert_eq!(response.status_text.as_str(), "Insufficient Storage");
    assert_eq!(response.body.as_ref().unwrap().as_str(), "");
    assert_eq!(response.headers.get("Server").unwrap().as_str(), "rhttp");

    let mut post = HttpRequest::from("POST /big HTTP/1.1\nContent-Length: 32768\n\nx");
    let response = HttpResponse::new(&mut post, &cfg, &mut disk).unwrap();
    assert_eq!(response.status_code, 507);
}

#[test]
fn post_urlencoded_returns_200_empty_body() {
    let cfg = test_config();
    let mut disk = Disk::new();
    let mut request = HttpRequest::from(
        "POST /form HTTP/1.1\nContent-Length: 7\nContent-Type: application/x-www-form-urlencoded\n\na=1&b=2",
    );
    let response = HttpResponse::new(&mut request, &cfg, &mut disk).unwrap();
    assert_eq!(response.status_code, 200);
    assert_eq!(response.body.as_ref().unwrap().as_str(), "");
}

#[test]
fn post_urlencoded_fields_observable() {
    let mut body = BodyLines::new(vec![String::from("a=1&b=2")]);
    let fields = parse_urlencoded(&mut body);
    assert_eq!(fields.get("a").unwrap().as_str(), "1");
    assert_eq!(fields.get("b").unwrap().as_str(), "2");
    assert_eq!(fields.len(), 2);

    // a repeated key keeps the value written last
    let mut body = BodyLines::new(vec![String::from("k=first&k=second")]);
    let fields = parse_urlencoded(&mut body);
    assert_eq!(fields.get("k").unwrap().as_str(), "second");
}

#[test]
fn post_without_content_type_yields_400() {
    let cfg = test_config();
    let mut disk = Disk::new();
    let mut request = HttpRequest::from("POST /form HTTP/1.1\nContent-Length: 7\n\na=1&b=2");
    let response = HttpResponse::new(&mut request, &cfg, &mut disk).unwrap();
    assert_eq!(response.status_code, 400);
    assert_eq!(response.status_text.as_str(), "Bad Request");
    assert_eq!(response.body.as_ref().unwrap().as_str(), "");
    assert_eq!(response.headers.get("Server").unwrap().as_str(), "rhttp");
}

#[test]
fn post_without_length_yields_no_response() {
    let cfg = test_config();
    let mut disk = Disk::new();
    let mut request = HttpRequest::from(
        "POST /form HTTP/1.1\nContent-Type: application/x-www-form-urlencoded\n\na=1",
    );
    assert!(HttpResponse::new(&mut request, &cfg, &mut disk).is_none());
}

#[test]
fn post_text_plain_writes_file() {
    let cfg = test_config();
    let mut disk = Disk::new();
    let mut request = HttpRequest::from(
        "POST /upload.txt HTTP/1.1\nContent-Length: 4\nContent-Type: text/plain\n\ndata",
    );
    let response = HttpResponse::new(&mut request, &cfg, &mut disk).unwrap();
    assert_eq!(response.status_code, 201);
    assert_eq!(response.body.as_ref().unwrap().as_str(), "Content-Location: /upload.txt");
    match disk.read("./page//upload.txt") {
        Some(FileEntry::Text(content)) => assert_eq!(content.as_str(), "data"),
        _ => panic!("expected text entry"),
    }
}

#[test]
fn post_chunked_urlencoded_returns_200() {
    let cfg = test_config();
    let mut disk = Disk::new();
    let mut request = HttpRequest::from(
        "POST /form HTTP/1.1\nContent-Length: 7\nContent-Type: application/x-www-form-urlencoded\nTransfer-Encoding: chunked\n\n7\na=1&b=2\n0\nleftover",
    );
    let response = HttpResponse::new(&mut request, &cfg, &mut disk).unwrap();
    assert_eq!(response.status_code, 200);
    assert_eq!(response.body.as_ref().unwrap().as_str(), "");
    // the decoder stopped at the zero line; what follows is left unread
    assert_eq!(request.body.next().unwrap().as_str(), "leftover");
}

#[test]
fn post_chunked_text_plain_decodes_before_writing() {
    let cfg = test_config();
    let mut disk = Disk::new();
    let mut request = HttpRequest::from(
        "POST /c.txt HTTP/1.1\nContent-Length: 5\nContent-Type: text/plain\nTransfer-Encoding: chunked\n\n5\nhello\n0\n",
    );
    let response = HttpResponse::new(&mut request, &cfg, &mut disk).unwrap();
    assert_eq!(response.status_code, 201);
    match disk.read("./page//c.txt") {
        Some(FileEntry::Text(content)) => assert_eq!(content.as_str(), "hello"),
        _ => panic!("expected text entry"),
    }
}

#[test]
fn post_unknown_content_type_yields_405() {
    let cfg = test_config();
    let mut disk = Disk::new();
    let mut request = HttpRequest::from(
        "POST /x HTTP/1.1\nContent-Length: 2\nContent-Type: application/json\n\n{}",
    );
    let response = HttpResponse::new(&mut request, &cfg, &mut disk).unwrap();
    assert_eq!(response.status_code, 405);
    assert_eq!(response.status_text.as_str(), "Method Not Allowed");
    assert_eq!(response.headers.get("Server").unwrap().as_str(), "rhttp");
}

#[test]
fn post_multipart_returns_200() {
    let cfg = test_config();
    let mut disk = Disk::new();
    let mut request = HttpRequest::from(
        "POST /m HTTP/1.1\nContent-Length: 40\nContent-Type: multipart/form-data; boundry=xyz\n\n--xyz\npart one\n--xyz\npart two\n--xyz--",
    );
    let response = HttpResponse::new(&mut request, &cfg, &mut disk).unwrap();
    assert_eq!(response.status_code, 200);
    assert_eq!(response.body.as_ref().unwrap().as_str(), "");
}

#[test]
fn post_multipart_without_boundary_yields_400() {
    let cfg = test_config();
    let mut disk = Disk::new();
    let mut request = HttpRequest::from(
        "POST /m HTTP/1.1\nContent-Length: 10\nContent-Type: multipart/form-data\n\n--x\na\n--x--",
    );
    let response = HttpResponse::new(&mut request, &cfg, &mut disk).unwrap();
    assert_eq!(response.status_code, 400);
    assert_eq!(response.headers.get("Server").unwrap().as_str(), "rhttp");
}

#[test]
fn multipart_parts_observable() {
    let lines = vec![
        String::from("--xyz"),
        String::from("part one"),
        String::from("--xyz"),
        String::from("part two"),
        String::from("--xyz--"),
        String::from("trailing"),
    ];
    let mut body = BodyLines::new(lines);
    let parts = multipart_parts(&mut body, "xyz");
    // the first part carries the opening delimiter line it grew from,
    // and the part still open at the closing delimiter is dropped
    assert_eq!(parts.len(), 1);
    assert_eq!(parts[0].as_str(), "--xyz\npart one\n");
    // the walk stops after the closing delimiter
    assert_eq!(body.next().unwrap().as_str(), "trailing");
}

#[test]
fn options_lists_allowed_methods() {
    let cfg = test_config();
    let mut disk = Disk::new();
    let mut request = HttpRequest::from("OPTIONS /anything HTTP/1.1\n\nignored body");
    let response = HttpResponse::new(&mut request, &cfg, &mut disk).unwrap();
    assert_eq!(response.status_code, 204);
    assert_eq!(response.status_text.as_str(), "No Content");
    assert_eq!(
        response.headers.get("Allow").unwrap().as_str(),
        "OPTIONS, GET, PUT, POST, HEAD"
    );
    assert_eq!(response.body.as_ref().unwrap().as_str(), "");
}

#[test]
fn illegal_request_yields_no_response() {
    let cfg = test_config();
    let mut disk = Disk::new();
    let mut request = HttpRequest::from("BREW /pot HTCPCP/1.0\n\n");
    assert!(HttpResponse::new(&mut request, &cfg, &mut disk).is_none());
}

#[test]
fn error_constructors() {
    assert_eq!(HttpResponse::error_400().status_code, 400);
    assert_eq!(HttpResponse::_error_404().body.as_ref().unwrap().as_str(), "404 Not Found");
    assert_eq!(HttpResponse::error_405().status_code, 405);
    assert_eq!(HttpResponse::error_500().status_code, 500);
    assert_eq!(HttpResponse::error_507().status_code, 507);
}
