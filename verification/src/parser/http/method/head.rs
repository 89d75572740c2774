//! The HEAD handler: the same resolution and existence logic as GET,
//! but the body is always empty while the would-be `Content-Length`
//! still appears in the headers.

use crate::disk::{Disk, DiskView, FileEntry, FileModel, spec_disk_lookup};
use crate::parser::http::{HttpRequest, HttpResponse, ReqView, RespView};
use crate::parser::http::method::{
    error_page_filename, resolve_get_filename, spec_error_page_path, spec_resolve_get,
};
use crate::strmap::{spec_insert, StrMap};
use crate::text::{spec_dec_digits, usize_to_string};
use crate::Config;
use vstd::prelude::*;

verus! {

/// As with GET, HEAD can answer only if the 404 page is present as
/// text whenever the requested resource is missing.
pub open spec fn spec_head_requires(req: ReqView, root: Seq<char>, disk: DiskView) -> bool {
    spec_disk_lookup(disk.files, spec_resolve_get(root, req.url)) is None
        ==> (spec_disk_lookup(disk.files, spec_error_page_path(root)) matches Some(
        FileModel::Text(_),
    ))
}

/// What HEAD answers: the status and `Content-Length` a GET would have
/// produced, with an empty body. For a binary resource there is no
/// text to measure, so the answer is 200 with the headers as given.
pub open spec fn spec_head_response(
    req: ReqView,
    headers: Seq<(Seq<char>, Seq<char>)>,
    root: Seq<char>,
    disk: DiskView,
) -> RespView {
    match spec_disk_lookup(disk.files, spec_resolve_get(root, req.url)) {
        Some(FileModel::Text(content)) => RespView {
            status_code: 200,
            status_text: "OK"@,
            headers: spec_insert(headers, "Content-Length"@, spec_dec_digits(content.len() as int)),
            body: Some(Seq::empty()),
        },
        Some(FileModel::Binary) => RespView {
            status_code: 200,
            status_text: "OK"@,
            headers: headers,
            body: Some(Seq::empty()),
        },
        None => match spec_disk_lookup(disk.files, spec_error_page_path(root)) {
            Some(FileModel::Text(page)) => RespView {
                status_code: 404,
                status_text: "NOT FOUND"@,
                headers: spec_insert(headers, "Content-Length"@, spec_dec_digits(page.len() as int)),
                body: Some(Seq::empty()),
            },
            _ => arbitrary(),
        },
    }
}

/// Builds the HEAD response for `request` against the disk. Always
/// answers; the request itself is left untouched.
pub fn generate_head_response(
    request: &mut HttpRequest,
    headers: StrMap,
    cfg: &Config,
    disk: &Disk,
) -> (r: Option<HttpResponse>)
    requires
        spec_head_requires(old(request)@, cfg.root_dir@, disk@),
    ensures
        r matches Some(resp) && resp@ == spec_head_response(
            old(request)@,
            headers@,
            cfg.root_dir@,
            disk@,
        ),
        final(request)@ == old(request)@,
{
    let filename = resolve_get_filename(cfg.root_dir.as_str(), request.url.as_str());
    match disk.read(filename.as_str()) {
        Some(FileEntry::Text(content)) => {
            let len = content.as_str().unicode_len();
            let mut headers = headers;
            let ghost h0 = headers@;
            headers.insert(String::from_str("Content-Length"), usize_to_string(len));
            let resp = HttpResponse {
                status_code: 200,
                status_text: String::from_str("OK"),
                headers,
                body: Some(String::new()),
            };
            proof {
                assert(resp@ =~= spec_head_response(old(request)@, h0, cfg.root_dir@, disk@));
            }
            Some(resp)
        },
        Some(FileEntry::Binary) => {
            let resp = HttpResponse {
                status_code: 200,
                status_text: String::from_str("OK"),
                headers,
                body: Some(String::new()),
            };
            proof {
                assert(resp@ =~= spec_head_response(old(request)@, headers@, cfg.root_dir@, disk@));
            }
            Some(resp)
        },
        None => {
            let error_page = error_page_filename(cfg.root_dir.as_str());
            match disk.read(error_page.as_str()) {
                Some(FileEntry::Text(page)) => {
                    let len = page.as_str().unicode_len();
                    let mut headers = headers;
                    let ghost h0 = headers@;
                    headers.insert(String::from_str("Content-Length"), usize_to_string(len));
                    let resp = HttpResponse {
                        status_code: 404,
                        status_text: String::from_str("NOT FOUND"),
                        headers,
                        body: Some(String::new()),
                    };
                    proof {
                        assert(resp@ =~= spec_head_response(
                            old(request)@,
                            h0,
                            cfg.root_dir@,
                            disk@,
                        ));
                    }
                    Some(resp)
                },
                _ => {
                    // excluded by the precondition: the 404 page is
                    // present as text whenever the resource is missing
                    proof {
                        assert(false);
                    }
                    None
                },
            }
        },
    }
}

} // verus!
