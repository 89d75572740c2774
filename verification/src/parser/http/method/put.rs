//! The PUT handler: check the declared `Content-length`, guard against
//! bodies at or above the read buffer size, join the remaining body
//! lines and write them to the resolved path, then answer 200 or 201
//! with a `Content-Location` body, or 500 when the write fails.

use crate::disk::{Disk, DiskView, FileModel, lemma_disk_lookup_upsert, spec_disk_lookup, spec_disk_upsert};
use crate::parser::http::{
    spec_error_500, spec_error_507, spec_error_with_headers, spec_join_lines, spec_opt_resp,
    HttpRequest, HttpResponse, ReqView, RespView,
};
use crate::parser::http::method::{resolve_put_filename, spec_resolve_put, HandlerOutcome};
use crate::strmap::{spec_lookup, StrMap};
use crate::text::{parse_usize_dec, spec_parse_usize};
use crate::{Config, BUFFER_SIZE};
use vstd::prelude::*;

verus! {

/// Everything PUT decides, given the request, the headers built so far,
/// the server root and the disk:
/// - no `Content-length` header, or one that does not parse as a
///   number: no response, nothing read or written;
/// - a declared length at or above the read buffer size: 507, nothing
///   read or written;
/// - otherwise the body lines are consumed, joined with newlines and
///   written to the resolved path; a failing disk answers 500 and keeps
///   its files, else the write lands and the answer is 200 for an
///   existing path or 201 for a new one, with a `Content-Location`
///   body. Every response keeps the headers built so far.
pub open spec fn spec_put_outcome(
    req: ReqView,
    headers: Seq<(Seq<char>, Seq<char>)>,
    root: Seq<char>,
    disk: DiskView,
) -> HandlerOutcome {
    match spec_lookup(req.headers, "Content-length"@) {
        None => HandlerOutcome { resp: None, disk, body: req.body },
        Some(raw) => match spec_parse_usize(raw) {
            None => HandlerOutcome { resp: None, disk, body: req.body },
            Some(n) => if n >= BUFFER_SIZE {
                HandlerOutcome {
                    resp: Some(spec_error_with_headers(spec_error_507(), headers)),
                    disk,
                    body: req.body,
                }
            } else {
                let content = spec_join_lines(req.body);
                let path = spec_resolve_put(root, req.url);
                let existed = spec_disk_lookup(disk.files, path) is Some;
                if disk.writes_fail {
                    HandlerOutcome {
                        resp: Some(spec_error_with_headers(spec_error_500(), headers)),
                        disk,
                        body: Seq::empty(),
                    }
                } else {
                    HandlerOutcome {
                        resp: Some(
                            RespView {
                                status_code: if existed {
                                    200
                                } else {
                                    201
                                },
                                status_text: if existed {
                                    "OK"@
                                } else {
                                    "Created"@
                                },
                                headers: headers,
                                body: Some("Content-Location: "@ + req.url),
                            },
                        ),
                        disk: DiskView {
                            files: spec_disk_upsert(disk.files, path, FileModel::Text(content)),
                            writes_fail: disk.writes_fail,
                        },
                        body: Seq::empty(),
                    }
                }
            },
        },
    }
}

/// The declared body length of a PUT request, if its `Content-length`
/// header is present and numeric.
pub open spec fn spec_put_length(req: ReqView) -> Option<usize> {
    match spec_lookup(req.headers, "Content-length"@) {
        Some(raw) => spec_parse_usize(raw),
        None => None,
    }
}

/// Uploading twice: a PUT with a valid declared length below the read
/// buffer size to a missing path answers 201 Created and stores the
/// joined body under the resolved path; a second valid PUT to the same
/// URL against the disk the first one left then answers 200 OK.
pub proof fn lemma_put_creates_then_updates(
    req1: ReqView,
    req2: ReqView,
    h1: Seq<(Seq<char>, Seq<char>)>,
    h2: Seq<(Seq<char>, Seq<char>)>,
    root: Seq<char>,
    disk: DiskView,
)
    requires
        !disk.writes_fail,
        req2.url == req1.url,
        spec_put_length(req1) matches Some(n1) && n1 < BUFFER_SIZE,
        spec_put_length(req2) matches Some(n2) && n2 < BUFFER_SIZE,
        spec_disk_lookup(disk.files, spec_resolve_put(root, req1.url)) is None,
    ensures
        ({
            let o1 = spec_put_outcome(req1, h1, root, disk);
            &&& o1.resp matches Some(r1) && r1.status_code == 201
            &&& spec_disk_lookup(o1.disk.files, spec_resolve_put(root, req1.url)) == Some(
                FileModel::Text(spec_join_lines(req1.body)),
            )
            &&& (spec_put_outcome(req2, h2, root, o1.disk).resp matches Some(r2)
                && r2.status_code == 200)
        }),
{
    let path = spec_resolve_put(root, req1.url);
    lemma_disk_lookup_upsert(disk.files, path, FileModel::Text(spec_join_lines(req1.body)), path);
}

/// Builds the PUT response, consuming the body and writing the file as
/// [`spec_put_outcome`] describes.
pub fn generate_put_response(
    request: &mut HttpRequest,
    headers: StrMap,
    cfg: &Config,
    disk: &mut Disk,
) -> (r: Option<HttpResponse>)
    ensures
        ({
            let o = spec_put_outcome(old(request)@, headers@, cfg.root_dir@, old(disk)@);
            &&& spec_opt_resp(r) == o.resp
            &&& final(disk)@ == o.disk
            &&& final(request)@ == (ReqView {
                method: old(request)@.method,
                url: old(request)@.url,
                version: old(request)@.version,
                headers: old(request)@.headers,
                body: o.body,
            })
        }),
{
    let raw = match request.headers.get("Content-length") {
        Some(v) => v.clone(),
        None => {
            proof {
                assert(final(request)@ =~= old(request)@);
            }
            return None;
        },
    };
    let length = match parse_usize_dec(raw.as_str()) {
        Some(n) => n,
        None => {
            proof {
                assert(final(request)@ =~= old(request)@);
            }
            return None;
        },
    };
    if length >= BUFFER_SIZE {
        let ghost h0 = headers@;
        let mut resp = HttpResponse::error_507();
        resp.headers = headers;
        proof {
            assert(final(request)@ =~= old(request)@);
            assert(resp@ =~= spec_error_with_headers(spec_error_507(), h0));
        }
        return Some(resp);
    }
    let content = request.body.join_remaining();
    let filename = resolve_put_filename(cfg.root_dir.as_str(), request.url.as_str());
    let existed = disk.file_exists(filename.as_str());
    let ok = disk.write_text(filename, content);
    let ghost o = spec_put_outcome(old(request)@, headers@, cfg.root_dir@, old(disk)@);
    proof {
        assert(final(request)@.body =~= Seq::<Seq<char>>::empty());
    }
    if !ok {
        let ghost h0 = headers@;
        let mut resp = HttpResponse::error_500();
        resp.headers = headers;
        proof {
            assert(resp@ =~= spec_error_with_headers(spec_error_500(), h0));
            assert(spec_opt_resp(Some(resp)) == o.resp);
        }
        return Some(resp);
    }
    let mut body = String::from_str("Content-Location: ");
    body.append(request.url.as_str());
    let resp = if existed {
        HttpResponse {
            status_code: 200,
            status_text: String::from_str("OK"),
            headers,
            body: Some(body),
        }
    } else {
        HttpResponse {
            status_code: 201,
            status_text: String::from_str("Created"),
            headers,
            body: Some(body),
        }
    };
    proof {
        assert(resp@ =~= o.resp->0);
        assert(final(disk)@ =~= o.disk);
    }
    Some(resp)
}

} // verus!
