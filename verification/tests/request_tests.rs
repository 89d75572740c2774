//! Parsing raw request buffers into structured requests.

use rhttp::parser::http::{HttpRequest, HttpRequestMethod};

#[test]
fn parse_get_request() {
    let raw_get = r"GET /favicon.ico HTTP/1.1
Host: 127.0.0.1:7878
Connection: keep-alive
User-Agent: Mozilla/5.0 (Windows NT 10.0; Win64; x64) AppleWebKit/537.36 (KHTML, like Gecko) Chrome/86.0.4240.198 Safari/537.36 Edg/86.0.622.69
DNT: 1
Accept: image/webp,image/apng,image/*,*/*;q=0.8
Sec-Fetch-Site: same-origin
Sec-Fetch-Mode: no-cors
Sec-Fetch-Dest: image
Referer: http://127.0.0.1:7878/
Accept-Encoding: gzip, deflate, br
Accept-Language: zh-CN,zh;q=0.9,en;q=0.8,en-GB;q=0.7,en-US;q=0.6
Cookie: zentaosid=g9uhstb2uthp5budvqbh6j3d0u
";
    let request = HttpRequest::from(raw_get);
    assert_eq!(request.method, HttpRequestMethod::GET);
    assert_eq!(request.url.as_str(), "/favicon.ico");
    assert_eq!(request.version.as_str(), "HTTP/1.1");
    assert_eq!(request.headers.get("Connection").unwrap().as_str(), "keep-alive");
    assert_eq!(request.headers.get("Host").unwrap().as_str(), "127.0.0.1:7878");
}

#[test]
fn parse_known_methods() {
    let cases = [
        ("GET", HttpRequestMethod::GET),
        ("POST", HttpRequestMethod::POST),
        ("HEAD", HttpRequestMethod::HEAD),
        ("PUT", HttpRequestMethod::PUT),
        ("OPTIONS", HttpRequestMethod::OPTIONS),
    ];
    for (name, method) in cases {
        let raw = format!("{} /some/path HTTP/1.1\n", name);
        let request = HttpRequest::from(raw.as_str());
        assert_eq!(request.method, method);
        assert_eq!(request.url.as_str(), "/some/path");
        assert_eq!(request.version.as_str(), "HTTP/1.1");
    }
}

#[test]
fn parse_unknown_method_is_illegal() {
    let mut request = HttpRequest::from("FETCH / HTTP/1.1\nHost: x\n");
    assert_eq!(request.method, HttpRequestMethod::ILLEGAL);
    assert_eq!(request.url.as_str(), "");
    assert_eq!(request.version.as_str(), "");
    assert_eq!(request.headers.len(), 0);
    assert!(request.body.next().is_none());
}

#[test]
fn parse_short_request_line_is_illegal() {
    let mut request = HttpRequest::from("GET /only-two-tokens\n");
    assert_eq!(request.method, HttpRequestMethod::ILLEGAL);
    assert_eq!(request.url.as_str(), "");
    assert_eq!(request.version.as_str(), "");
    assert_eq!(request.headers.len(), 0);
    assert!(request.body.next().is_none());

    let empty = HttpRequest::from("");
    assert_eq!(empty.method, HttpRequestMethod::ILLEGAL);
}

#[test]
fn parse_headers_and_body() {
    let mut request = HttpRequest::from("GET / HTTP/1.1\nHost: example.com\nAccept: */*\n\nbody line");
    assert_eq!(request.method, HttpRequestMethod::GET);
    assert_eq!(request.headers.get("Host").unwrap().as_str(), "example.com");
    assert_eq!(request.headers.get("Accept").unwrap().as_str(), "*/*");
    assert_eq!(request.headers.len(), 2);
    // the blank separator line is consumed; the body is what follows it
    assert_eq!(request.body.next().unwrap().as_str(), "body line");
    assert!(request.body.next().is_none());
}

#[test]
fn parse_header_value_after_first_colon() {
    let request = HttpRequest::from("GET / HTTP/1.1\nHost: 127.0.0.1:7878\n");
    assert_eq!(request.headers.get("Host").unwrap().as_str(), "127.0.0.1:7878");
}

#[test]
fn parse_crlf_line_endings() {
    let request = HttpRequest::from("GET /a HTTP/1.1\r\nHost: h\r\n\r\n");
    assert_eq!(request.method, HttpRequestMethod::GET);
    assert_eq!(request.url.as_str(), "/a");
    assert_eq!(request.headers.get("Host").unwrap().as_str(), "h");
}

#[test]
fn parse_splits_request_line_on_single_spaces() {
    // a doubled space makes an empty token: the URL is empty and the
    // path lands in the version slot
    let request = HttpRequest::from("GET  / HTTP/1.1\n");
    assert_eq!(request.method, HttpRequestMethod::GET);
    assert_eq!(request.url.as_str(), "");
    assert_eq!(request.version.as_str(), "/");
}

#[test]
fn parse_without_blank_line_eats_colon_lines_as_headers() {
    // header parsing stops only at the first line without a colon, so
    // a body line carrying one is taken as a header
    let mut request = HttpRequest::from("PUT /f HTTP/1.1\nContent-length: 3\na:b\ncd");
    assert_eq!(request.headers.get("a").unwrap().as_str(), "b");
    assert!(request.body.next().is_none());
}

#[test]
fn parse_duplicate_header_keeps_last() {
    let request = HttpRequest::from("GET / HTTP/1.1\nX-Tag: one\nX-Tag: two\n");
    assert_eq!(request.headers.get("X-Tag").unwrap().as_str(), "two");
    assert_eq!(request.headers.len(), 1);
}
