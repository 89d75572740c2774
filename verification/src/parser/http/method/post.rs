//! The POST handler: check `Content-Length` and `Content-Type`, then
//! branch on the content type — form fields are parsed and dropped,
//! `text/plain` writes the body to the resolved path as PUT does,
//! `multipart/form-data` collects its parts and drops them, and
//! anything else is 405. A `Transfer-Encoding: chunked` body is
//! chunk-decoded first.

use crate::disk::{Disk, DiskView, FileModel, spec_disk_lookup, spec_disk_upsert};
use crate::parser::http::method::utils::chunk::{chunklines_to_string, spec_chunk_decode};
use crate::parser::http::method::{resolve_put_filename, spec_resolve_put, HandlerOutcome};
use crate::parser::http::{
    spec_error_400, spec_error_405, spec_error_500, spec_error_507, spec_error_with_headers,
    spec_join_lines, spec_opt_resp, BodyLines, HttpRequest, HttpResponse, ReqView, RespView,
};
use crate::strmap::{spec_insert, spec_lookup, StrMap};
use crate::text::{
    find_char, find_sub, first_index_of, first_sub_index, parse_usize_dec, spec_contains_char,
    spec_lines, spec_parse_usize, spec_split_char, spec_starts_with, split_char, split_lines,
    starts_with, str_eq,
};
use crate::{Config, BUFFER_SIZE};
use vstd::prelude::*;

verus! {

// ---------------------------------------------------------------------------
// Form fields
// ---------------------------------------------------------------------------

/// One `&`-separated piece enters the field map if it carries `=`:
/// the key is what stands before the first `=`, the value what follows.
pub open spec fn spec_field_piece(
    acc: Seq<(Seq<char>, Seq<char>)>,
    piece: Seq<char>,
) -> Seq<(Seq<char>, Seq<char>)> {
    if spec_contains_char(piece, '=') {
        let i = first_index_of(piece, '=');
        spec_insert(acc, piece.take(i), piece.skip(i + 1))
    } else {
        acc
    }
}

pub open spec fn spec_field_pieces(
    acc: Seq<(Seq<char>, Seq<char>)>,
    pieces: Seq<Seq<char>>,
) -> Seq<(Seq<char>, Seq<char>)>
    decreases pieces.len(),
{
    if pieces.len() == 0 {
        acc
    } else {
        spec_field_pieces(spec_field_piece(acc, pieces[0]), pieces.drop_first())
    }
}

/// The form fields of an `application/x-www-form-urlencoded` body:
/// every line split on `&`, every piece split on its first `=`; a
/// repeated key keeps its last value.
pub open spec fn spec_form_fields(
    acc: Seq<(Seq<char>, Seq<char>)>,
    lines: Seq<Seq<char>>,
) -> Seq<(Seq<char>, Seq<char>)>
    decreases lines.len(),
{
    if lines.len() == 0 {
        acc
    } else {
        spec_form_fields(spec_field_pieces(acc, spec_split_char(lines[0], '&')), lines.drop_first())
    }
}

fn fold_field_line(map: &mut StrMap, line: &str)
    ensures
        final(map)@ == spec_field_pieces(old(map)@, spec_split_char(line@, '&')),
{
    let pieces = split_char(line, '&');
    let ghost pseq = pieces.deep_view();
    let n = pieces.len();
    let mut i: usize = 0;
    proof {
        assert(pseq.skip(0) =~= pseq);
    }
    while i < n
        invariant
            n == pieces@.len(),
            pseq == pieces.deep_view(),
            i <= n,
            spec_field_pieces(old(map)@, pseq) == spec_field_pieces(map@, pseq.skip(i as int)),
        decreases n - i,
    {
        let ghost rem = pseq.skip(i as int);
        proof {
            assert(rem[0] == pseq[i as int]);
            assert(rem.drop_first() =~= pseq.skip(i + 1));
        }
        let piece = &pieces[i];
        let plen = piece.as_str().unicode_len();
        match find_char(piece.as_str(), '=') {
            Some(ei) => {
                proof {
                    crate::text::lemma_first_index_of(pseq[i as int], '=');
                }
                let k = String::from_str(piece.as_str().substring_char(0, ei));
                let v = String::from_str(piece.as_str().substring_char(ei + 1, plen));
                proof {
                    assert(k@ =~= rem[0].take(ei as int));
                    assert(v@ =~= rem[0].skip(ei + 1));
                }
                map.insert(k, v);
            },
            None => {},
        }
        i = i + 1;
    }
    proof {
        assert(pseq.skip(n as int).len() == 0);
    }
}

/// Parses the remaining body lines as form fields, consuming them all.
pub fn parse_urlencoded(body: &mut BodyLines) -> (r: StrMap)
    ensures
        r@ == spec_form_fields(Seq::empty(), old(body)@),
        final(body)@.len() == 0,
{
    let ghost orig = body@;
    let mut map = StrMap::new();
    let total = body.remaining();
    let mut k: usize = 0;
    proof {
        assert(orig.skip(0) =~= orig);
    }
    while k < total
        invariant
            total == orig.len(),
            k <= total,
            body@ == orig.skip(k as int),
            spec_form_fields(Seq::empty(), orig) == spec_form_fields(map@, orig.skip(k as int)),
        decreases total - k,
    {
        proof {
            assert(orig.skip(k as int)[0] == orig[k as int]);
            assert(orig.skip(k as int).drop_first() =~= orig.skip(k + 1));
        }
        let line = match body.next() {
            Some(l) => l,
            None => {
                proof {
                    assert(false);
                }
                String::new()
            },
        };
        fold_field_line(&mut map, line.as_str());
        k = k + 1;
    }
    map
}

/// Parses a decoded chunk body as form fields, line by line.
pub fn parse_urlencoded_str(s: &str) -> (r: StrMap)
    ensures
        r@ == spec_form_fields(Seq::empty(), spec_lines(s@)),
{
    let lines = split_lines(s);
    let mut body = BodyLines::new(lines);
    parse_urlencoded(&mut body)
}

// ---------------------------------------------------------------------------
// Multipart bodies
// ---------------------------------------------------------------------------

/// Walks body lines against the boundary: the closing delimiter line
/// ends the walk; an opening delimiter line closes the part collected
/// so far, if any; every other line joins the current part with a
/// newline. A part left open when the lines run out is dropped.
pub open spec fn spec_multipart(
    lines: Seq<Seq<char>>,
    b: Seq<char>,
    part: Seq<char>,
    acc: Seq<Seq<char>>,
) -> (Seq<Seq<char>>, Seq<Seq<char>>)
    decreases lines.len(),
{
    if lines.len() == 0 {
        (acc, Seq::empty())
    } else if spec_starts_with(lines[0], "--"@ + b + "--"@) {
        (acc, lines.drop_first())
    } else if spec_starts_with(lines[0], "--"@ + b) && part.len() > 0 {
        spec_multipart(lines.drop_first(), b, Seq::empty(), acc.push(part))
    } else {
        spec_multipart(lines.drop_first(), b, part + lines[0] + seq!['\n'], acc)
    }
}

/// Collects the parts of a multipart body from the cursor, leaving it
/// on the line after the closing delimiter.
pub fn multipart_parts(body: &mut BodyLines, boundary: &str) -> (r: Vec<String>)
    ensures
        ({
            let o = spec_multipart(old(body)@, boundary@, Seq::empty(), Seq::empty());
            r.deep_view() == o.0 && final(body)@ == o.1
        }),
{
    let ghost orig = body@;
    let mut close = String::from_str("--");
    close.append(boundary);
    close.append("--");
    let mut open_delim = String::from_str("--");
    open_delim.append(boundary);
    proof {
        assert(close@ =~= "--"@ + boundary@ + "--"@);
        assert(open_delim@ =~= "--"@ + boundary@);
    }
    let mut parts: Vec<String> = Vec::new();
    let mut part = String::new();
    let mut done: bool = false;
    proof {
        assert(parts.deep_view() =~= Seq::<Seq<char>>::empty());
    }
    while !done
        invariant
            close@ == "--"@ + boundary@ + "--"@,
            open_delim@ == "--"@ + boundary@,
            !done ==> spec_multipart(orig, boundary@, Seq::empty(), Seq::empty())
                == spec_multipart(body@, boundary@, part@, parts.deep_view()),
            done ==> parts.deep_view() == spec_multipart(
                orig,
                boundary@,
                Seq::empty(),
                Seq::empty(),
            ).0,
            done ==> body@ == spec_multipart(orig, boundary@, Seq::empty(), Seq::empty()).1,
        decreases
                body@.len(),
                (if done {
                    0int
                } else {
                    1int
                }),
    {
        let ghost pre = body@;
        match body.next() {
            None => {
                proof {
                    assert(pre.len() == 0);
                    assert(body@ =~= Seq::<Seq<char>>::empty());
                }
                done = true;
            },
            Some(line) => {
                proof {
                    assert(body@ =~= pre.drop_first());
                }
                if starts_with(line.as_str(), close.as_str()) {
                    done = true;
                } else if starts_with(line.as_str(), open_delim.as_str())
                    && !part.as_str().is_empty() {
                    let ghost parts0 = parts.deep_view();
                    let ghost partv = part@;
                    parts.push(part);
                    part = String::new();
                    proof {
                        assert(parts.deep_view() =~= parts0.push(partv));
                    }
                } else {
                    let ghost part0 = part@;
                    part.append(line.as_str());
                    crate::text::push_char(&mut part, '\n');
                    proof {
                        assert(part@ =~= part0 + pre[0] + seq!['\n']);
                    }
                }
            },
        }
    }
    parts
}

// ---------------------------------------------------------------------------
// The boundary parameter
// ---------------------------------------------------------------------------

/// The boundary of a multipart content type: the text between the first
/// and second occurrence of `boundry=` — the parameter key this server
/// historically matches, misspelling included — or everything after the
/// first occurrence if there is no second. `None` when the key is
/// absent.
pub open spec fn spec_boundary_of(ct: Seq<char>) -> Option<Seq<char>> {
    let pat = "boundry="@;
    let i = first_sub_index(ct, pat);
    if i + pat.len() > ct.len() {
        None
    } else {
        let rest = ct.skip(i + pat.len());
        let j = first_sub_index(rest, pat);
        if j + pat.len() > rest.len() {
            Some(rest)
        } else {
            Some(rest.take(j))
        }
    }
}

/// Extracts the boundary parameter, as [`spec_boundary_of`] describes.
pub fn boundary_of(ct: &str) -> (r: Option<String>)
    ensures
        spec_boundary_of(ct@) matches Some(b) ==> (r matches Some(x) && x@ == b),
        spec_boundary_of(ct@) is None ==> r is None,
{
    let len = ct.unicode_len();
    let plen = "boundry=".unicode_len();
    match find_sub(ct, "boundry=") {
        Some(i) => {
            proof {
                crate::text::lemma_first_sub_index(ct@, "boundry="@);
                assert(i + plen <= len);
            }
            let rest = ct.substring_char(i + plen, len);
            proof {
                assert(rest@ =~= ct@.skip(i + plen));
            }
            let rlen = rest.unicode_len();
            match find_sub(rest, "boundry=") {
                Some(j) => {
                    proof {
                        crate::text::lemma_first_sub_index(rest@, "boundry="@);
                        assert(j + plen <= rlen);
                    }
                    let b = String::from_str(rest.substring_char(0, j));
                    proof {
                        assert(b@ =~= rest@.take(j as int));
                    }
                    Some(b)
                },
                None => Some(String::from_str(rest)),
            }
        },
        None => None,
    }
}

// ---------------------------------------------------------------------------
// The POST handler
// ---------------------------------------------------------------------------

/// Whether the request declares a chunked body.
pub open spec fn spec_post_chunked(req: ReqView) -> bool {
    spec_lookup(req.headers, "Transfer-Encoding"@) == Some("chunked"@)
}

/// The branch on the declared content type, once the length checks have
/// passed. A chunked body is chunk-decoded first, and the cursor rests
/// where the decoder stopped.
pub open spec fn spec_post_typed(
    req: ReqView,
    headers: Seq<(Seq<char>, Seq<char>)>,
    root: Seq<char>,
    disk: DiskView,
    ct: Seq<char>,
) -> HandlerOutcome {
    let chunked = spec_post_chunked(req);
    if ct == "application/x-www-form-urlencoded"@ {
        let rest = if chunked {
            spec_chunk_decode(req.body).1
        } else {
            Seq::<Seq<char>>::empty()
        };
        HandlerOutcome {
            resp: Some(
                RespView {
                    status_code: 200,
                    status_text: "OK"@,
                    headers: headers,
                    body: Some(Seq::empty()),
                },
            ),
            disk,
            body: rest,
        }
    } else if ct == "text/plain"@ {
        let content = if chunked {
            spec_chunk_decode(req.body).0
        } else {
            spec_join_lines(req.body)
        };
        let rest = if chunked {
            spec_chunk_decode(req.body).1
        } else {
            Seq::<Seq<char>>::empty()
        };
        let path = spec_resolve_put(root, req.url);
        let existed = spec_disk_lookup(disk.files, path) is Some;
        if disk.writes_fail {
            HandlerOutcome {
                resp: Some(spec_error_with_headers(spec_error_500(), headers)),
                disk,
                body: rest,
            }
        } else {
            HandlerOutcome {
                resp: Some(
                    RespView {
                        status_code: if existed {
                            200
                        } else {
                            201
                        },
                        status_text: if existed {
                            "OK"@
                        } else {
                            "Created"@
                        },
                        headers: headers,
                        body: Some("Content-Location: "@ + req.url),
                    },
                ),
                disk: DiskView {
                    files: spec_disk_upsert(disk.files, path, FileModel::Text(content)),
                    writes_fail: disk.writes_fail,
                },
                body: rest,
            }
        }
    } else if !spec_starts_with(ct, "multipart/form-data"@) {
        HandlerOutcome {
            resp: Some(spec_error_with_headers(spec_error_405(), headers)),
            disk,
            body: req.body,
        }
    } else {
        match spec_boundary_of(ct) {
            None => HandlerOutcome {
                resp: Some(spec_error_with_headers(spec_error_400(), headers)),
                disk,
                body: req.body,
            },
            Some(b) => {
                let rest = if chunked {
                    spec_chunk_decode(req.body).1
                } else {
                    spec_multipart(req.body, b, Seq::empty(), Seq::empty()).1
                };
                HandlerOutcome {
                    resp: Some(
                        RespView {
                            status_code: 200,
                            status_text: "OK"@,
                            headers: headers,
                            body: Some(Seq::empty()),
                        },
                    ),
                    disk,
                    body: rest,
                }
            },
        }
    }
}

/// Everything POST decides: no `Content-Length`, or one that does not
/// parse: no response; a declared length at or above the read buffer
/// size: 507; no `Content-Type`: 400; else the content-type branch of
/// [`spec_post_typed`]. Every response keeps the headers built so far.
pub open spec fn spec_post_outcome(
    req: ReqView,
    headers: Seq<(Seq<char>, Seq<char>)>,
    root: Seq<char>,
    disk: DiskView,
) -> HandlerOutcome {
    match spec_lookup(req.headers, "Content-Length"@) {
        None => HandlerOutcome { resp: None, disk, body: req.body },
        Some(raw) => match spec_parse_usize(raw) {
            None => HandlerOutcome { resp: None, disk, body: req.body },
            Some(n) => if n >= BUFFER_SIZE {
                HandlerOutcome {
                    resp: Some(spec_error_with_headers(spec_error_507(), headers)),
                    disk,
                    body: req.body,
                }
            } else {
                match spec_lookup(req.headers, "Content-Type"@) {
                    None => HandlerOutcome {
                        resp: Some(spec_error_with_headers(spec_error_400(), headers)),
                        disk,
                        body: req.body,
                    },
                    Some(ct) => spec_post_typed(req, headers, root, disk, ct),
                }
            },
        },
    }
}

/// Builds the POST response, consuming the body and writing a
/// `text/plain` upload to disk, as [`spec_post_outcome`] describes.
pub fn generate_post_response(
    request: &mut HttpRequest,
    headers: StrMap,
    cfg: &Config,
    disk: &mut Disk,
) -> (r: Option<HttpResponse>)
    ensures
        ({
            let o = spec_post_outcome(old(request)@, headers@, cfg.root_dir@, old(disk)@);
            &&& spec_opt_resp(r) == o.resp
            &&& final(disk)@ == o.disk
            &&& final(request)@ == (ReqView {
                method: old(request)@.method,
                url: old(request)@.url,
                version: old(request)@.version,
                headers: old(request)@.headers,
                body: o.body,
            })
        }),
{
    let ghost o = spec_post_outcome(old(request)@, headers@, cfg.root_dir@, old(disk)@);
    let raw = match request.headers.get("Content-Length") {
        Some(v) => v.clone(),
        None => {
            proof {
                assert(final(request)@ =~= old(request)@);
            }
            return None;
        },
    };
    let length = match parse_usize_dec(raw.as_str()) {
        Some(n) => n,
        None => {
            proof {
                assert(final(request)@ =~= old(request)@);
            }
            return None;
        },
    };
    if length >= BUFFER_SIZE {
        let ghost h0 = headers@;
        let mut resp = HttpResponse::error_507();
        resp.headers = headers;
        proof {
            assert(final(request)@ =~= old(request)@);
            assert(resp@ =~= spec_error_with_headers(spec_error_507(), h0));
        }
        return Some(resp);
    }
    let content_type = match request.headers.get("Content-Type") {
        Some(v) => v.clone(),
        None => {
            let ghost h0 = headers@;
            let mut resp = HttpResponse::error_400();
            resp.headers = headers;
            proof {
                assert(final(request)@ =~= old(request)@);
                assert(resp@ =~= spec_error_with_headers(spec_error_400(), h0));
            }
            return Some(resp);
        },
    };
    let chunked = match request.headers.get("Transfer-Encoding") {
        Some(v) => str_eq(v.as_str(), "chunked"),
        None => false,
    };
    proof {
        assert(chunked == spec_post_chunked(old(request)@));
    }
    if str_eq(content_type.as_str(), "application/x-www-form-urlencoded") {
        let _fields = if chunked {
            let recovered = chunklines_to_string(&mut request.body);
            parse_urlencoded_str(recovered.as_str())
        } else {
            parse_urlencoded(&mut request.body)
        };
        let resp = HttpResponse {
            status_code: 200,
            status_text: String::from_str("OK"),
            headers,
            body: Some(String::new()),
        };
        proof {
            assert(resp@ =~= o.resp->0);
            assert(final(request)@ =~= (ReqView {
                method: old(request)@.method,
                url: old(request)@.url,
                version: old(request)@.version,
                headers: old(request)@.headers,
                body: o.body,
            }));
        }
        Some(resp)
    } else if str_eq(content_type.as_str(), "text/plain") {
        let content = if chunked {
            chunklines_to_string(&mut request.body)
        } else {
            request.body.join_remaining()
        };
        let filename = resolve_put_filename(cfg.root_dir.as_str(), request.url.as_str());
        let existed = disk.file_exists(filename.as_str());
        let ok = disk.write_text(filename, content);
        if !ok {
            let ghost h0 = headers@;
            let mut resp = HttpResponse::error_500();
            resp.headers = headers;
            proof {
                assert(resp@ =~= spec_error_with_headers(spec_error_500(), h0));
                assert(spec_opt_resp(Some(resp)) == o.resp);
            }
            return Some(resp);
        }
        let mut body = String::from_str("Content-Location: ");
        body.append(request.url.as_str());
        let resp = if existed {
            HttpResponse {
                status_code: 200,
                status_text: String::from_str("OK"),
                headers,
                body: Some(body),
            }
        } else {
            HttpResponse {
                status_code: 201,
                status_text: String::from_str("Created"),
                headers,
                body: Some(body),
            }
        };
        proof {
            assert(resp@ =~= o.resp->0);
            assert(final(disk)@ =~= o.disk);
        }
        Some(resp)
    } else if !starts_with(content_type.as_str(), "multipart/form-data") {
        let ghost h0 = headers@;
        let mut resp = HttpResponse::error_405();
        resp.headers = headers;
        proof {
            assert(final(request)@ =~= old(request)@);
            assert(resp@ =~= spec_error_with_headers(spec_error_405(), h0));
        }
        Some(resp)
    } else {
        let boundary = match boundary_of(content_type.as_str()) {
            Some(b) => b,
            None => {
                let ghost h0 = headers@;
                let mut resp = HttpResponse::error_400();
                resp.headers = headers;
                proof {
                    assert(final(request)@ =~= old(request)@);
                    assert(resp@ =~= spec_error_with_headers(spec_error_400(), h0));
                }
                return Some(resp);
            },
        };
        let _parts = if chunked {
            let recovered = chunklines_to_string(&mut request.body);
            let mut decoded = BodyLines::new(split_lines(recovered.as_str()));
            multipart_parts(&mut decoded, boundary.as_str())
        } else {
            multipart_parts(&mut request.body, boundary.as_str())
        };
        let resp = HttpResponse {
            status_code: 200,
            status_text: String::from_str("OK"),
            headers,
            body: Some(String::new()),
        };
        proof {
            assert(resp@ =~= o.resp->0);
            assert(final(request)@ =~= (ReqView {
                method: old(request)@.method,
                url: old(request)@.url,
                version: old(request)@.version,
                headers: old(request)@.headers,
                body: o.body,
            }));
        }
        Some(resp)
    }
}

} // verus!
