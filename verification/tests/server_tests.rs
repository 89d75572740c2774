//! Whole request-to-response exchanges, printed as they would go out on
//! the wire.

use rhttp::conn::compute_keep_alive;
use rhttp::disk::{Disk, FileEntry};
use rhttp::parser::http::{HttpRequest, HttpResponse};
use rhttp::Config;

/// Generate a response string for a raw request string against the
/// given disk, the way a connection worker would, with all socket
/// handling removed and keep-alive ignored.
fn resp_from_req_str(input: &str, disk: &mut Disk) -> String {
    let mut request = HttpRequest::from(input);
    let keep_alive = compute_keep_alive(&request);
    let cfg: Config = Default::default();
    match HttpResponse::new(&mut request, &cfg, disk) {
        Some(mut response) => {
            response
                .headers
                .insert("Keep-Alive".to_string(), format!("timeout={}", 4));
            if response.headers.get("Connection").is_none() {
                let connection_value = if keep_alive { "keep_alive" } else { "close" };
                response
                    .headers
                    .insert("Connection".to_string(), connection_value.to_string());
                println!("keep_alive: {}", keep_alive);
            }
            response.generate_string()
        },
        None => panic!("server rejected to generate response, tcp cloned"),
    }
}

/// Test basic GET method
#[test]
fn get_test() {
    let raw_req = r"GET / HTTP/1.1
        Host: developer.mozilla.org
        Accept-Language: fr
        ";
    let mut disk = Disk::new();
    disk.put_entry("./page/index.html".to_string(), FileEntry::Text("hi".to_string()));
    disk.put_entry(
        "./page/error/404.html".to_string(),
        FileEntry::Text("404".to_string()),
    );
    let raw_resp = resp_from_req_str(&raw_req, &mut disk);
    println!("-----\n{}\n-----\n", raw_resp);
}

/// Test basic POST method
#[test]
fn post_test() {
    let raw_req = r"POST /contact_form.php HTTP/1.1
Host: developer.mozilla.org
Content-Length: 64
Content-Type: application/x-www-form-urlencoded

name=Joe%20User&request=Send%20me%20one%20of%20your%20catalogue
        ";
    let mut disk = Disk::new();
    let raw_resp = resp_from_req_str(&raw_req, &mut disk);
    println!("-----\n{}\n-----\n", raw_resp);
}

/// Use POST method to upload a file
#[test]
fn post_file_test() {
    let raw_req = r"POST /data_tobe_send.txt HTTP/1.1
Host: developer.mozilla.org
Content-Length: 64
Content-Type: text/plain

name=Joe%20User&request=Send%20me%20one%20of%20your%20catalogue
";
    let mut disk = Disk::new();
    let raw_resp = resp_from_req_str(&raw_req, &mut disk);
    println!("-----\n{}\n-----\n", raw_resp);
    match disk.read("./page//data_tobe_send.txt") {
        Some(FileEntry::Text(content)) => {
            assert!(content.contains("name=Joe%20User"));
        },
        _ => panic!("upload did not land on the disk"),
    }
}
