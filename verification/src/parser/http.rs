//! The HTTP request and response types: parsing a request head out of a
//! raw buffer, and rendering a structured response back into wire text.

pub mod method;

use crate::disk::{Disk, DiskView};
use crate::parser::http::method::HandlerOutcome;
use crate::strmap::{spec_insert, spec_lookup, StrMap};
use crate::Config;
use crate::text::{
    find_char, first_index_of, spec_contains_char, spec_dec_digits, spec_lines, spec_split_char,
    spec_trim, split_char, split_lines, str_eq, trim, u32_to_string, push_char,
};
use vstd::prelude::*;

verus! {

/// The request methods the server knows, and the sentinel for a request
/// line that cannot be parsed.
#[derive(Debug, PartialEq, Eq, Structural, Clone, Copy)]
pub enum HttpRequestMethod {
    GET,
    POST,
    HEAD,
    PUT,
    OPTIONS,
    ILLEGAL,
}

// ---------------------------------------------------------------------------
// Body lines
// ---------------------------------------------------------------------------

/// The unread lines of a request body: a single-pass cursor over the
/// lines that follow the request head in the read buffer. Each `next`
/// advances the cursor; consumed lines cannot be replayed.
pub struct BodyLines {
    lines: Vec<String>,
    pos: usize,
}

spec fn lines_suffix_view(lines: Seq<String>, pos: int) -> Seq<Seq<char>> {
    if 0 <= pos <= lines.len() {
        lines.map_values(|l: String| l@).skip(pos)
    } else {
        Seq::empty()
    }
}

impl View for BodyLines {
    type V = Seq<Seq<char>>;

    closed spec fn view(&self) -> Seq<Seq<char>> {
        lines_suffix_view(self.lines@, self.pos as int)
    }
}

/// The body lines joined with a newline between each pair, no trailing
/// newline: how PUT and POST reassemble an uploaded file.
pub open spec fn spec_join_lines(lines: Seq<Seq<char>>) -> Seq<char>
    decreases lines.len(),
{
    if lines.len() == 0 {
        Seq::empty()
    } else if lines.len() == 1 {
        lines[0]
    } else {
        lines[0] + seq!['\n'] + spec_join_lines(lines.drop_first())
    }
}

/// Joining split pieces: a nonempty prefix contributes its own join,
/// then a newline before whatever follows.
pub proof fn lemma_join_append(a: Seq<Seq<char>>, b: Seq<Seq<char>>)
    requires
        a.len() > 0,
    ensures
        b.len() > 0 ==> spec_join_lines(a + b) == spec_join_lines(a) + seq!['\n']
            + spec_join_lines(b),
        b.len() == 0 ==> spec_join_lines(a + b) == spec_join_lines(a),
    decreases a.len(),
{
    if b.len() == 0 {
        assert(a + b =~= a);
    } else if a.len() == 1 {
        let s = a + b;
        assert(s[0] == a[0]);
        assert(s.drop_first() =~= b);
        assert(s.len() >= 2);
        assert(spec_join_lines(s) == s[0] + seq!['\n'] + spec_join_lines(b));
    } else {
        let s = a + b;
        assert(s[0] == a[0]);
        assert(s.drop_first() =~= a.drop_first() + b);
        lemma_join_append(a.drop_first(), b);
        assert(a[0] + seq!['\n'] + (spec_join_lines(a.drop_first()) + seq!['\n']
            + spec_join_lines(b)) =~= (a[0] + seq!['\n'] + spec_join_lines(a.drop_first()))
            + seq!['\n'] + spec_join_lines(b));
    }
}

impl BodyLines {
    #[verifier::type_invariant]
    spec fn wf(&self) -> bool {
        self.pos <= self.lines@.len()
    }

    /// A cursor over the given lines, starting at the first.
    pub fn new(lines: Vec<String>) -> (r: BodyLines)
        ensures
            r@ == lines.deep_view(),
    {
        let r = BodyLines { lines, pos: 0 };
        proof {
            assert(r@ =~= r.lines@.map_values(|l: String| l@));
            assert(r@ =~= r.lines.deep_view());
        }
        r
    }

    /// A cursor with nothing left to read.
    pub fn empty() -> (r: BodyLines)
        ensures
            r@ == Seq::<Seq<char>>::empty(),
    {
        let r = BodyLines::new(Vec::new());
        proof {
            assert(r@ =~= Seq::<Seq<char>>::empty());
        }
        r
    }

    /// How many lines are left.
    pub fn remaining(&self) -> (r: usize)
        ensures
            r == self@.len(),
    {
        proof {
            use_type_invariant(self);
        }
        self.lines.len() - self.pos
    }

    /// Yields the next unread line and advances the cursor.
    pub fn next(&mut self) -> (r: Option<String>)
        ensures
            old(self)@.len() > 0 ==> (r matches Some(l) && l@ == old(self)@[0] && final(self)@
                == old(self)@.drop_first()),
            old(self)@.len() == 0 ==> (r is None && final(self)@ == old(self)@),
    {
        proof {
            use_type_invariant(&*self);
        }
        if self.pos < self.lines.len() {
            let l = self.lines[self.pos].clone();
            self.pos = self.pos + 1;
            proof {
                let m = self.lines@.map_values(|x: String| x@);
                assert(l@ == m.skip(self.pos - 1)[0]);
                assert(final(self)@ =~= m.skip(self.pos - 1).drop_first());
            }
            Some(l)
        } else {
            None
        }
    }

    /// Consumes every remaining line and joins them with newlines,
    /// the way PUT reassembles an uploaded file body.
    pub fn join_remaining(&mut self) -> (r: String)
        ensures
            r@ == spec_join_lines(old(self)@),
            final(self)@.len() == 0,
    {
        let ghost orig = self@;
        let mut out = String::new();
        let mut started: bool = false;
        let total = self.remaining();
        let mut k: usize = 0;
        proof {
            assert(orig.skip(0) =~= orig);
        }
        while k < total
            invariant
                total == orig.len(),
                k <= total,
                self@ == orig.skip(k as int),
                started == (k > 0),
                k > 0 ==> out@ == spec_join_lines(orig.take(k as int)),
                k == 0 ==> out@ == Seq::<char>::empty(),
            decreases total - k,
        {
            proof {
                assert(orig.skip(k as int)[0] == orig[k as int]);
                assert(orig.skip(k as int).drop_first() =~= orig.skip(k + 1));
            }
            let line = match self.next() {
                Some(l) => l,
                None => {
                    proof {
                        assert(false);
                    }
                    String::new()
                },
            };
            if started {
                push_char(&mut out, '\n');
            }
            out.append(line.as_str());
            proof {
                if k > 0 {
                    lemma_join_append(orig.take(k as int), seq![orig[k as int]]);
                    assert(orig.take(k as int) + seq![orig[k as int]] =~= orig.take(k + 1));
                    assert(spec_join_lines(seq![orig[k as int]]) == orig[k as int]);
                    assert(out@ =~= spec_join_lines(orig.take(k as int)) + seq!['\n'] + orig[k
                        as int]);
                } else {
                    assert(orig.take(1) =~= seq![orig[0]]);
                    assert(out@ =~= orig[0]);
                }
            }
            started = true;
            k = k + 1;
        }
        proof {
            assert(orig.take(orig.len() as int) =~= orig);
            if orig.len() == 0 {
                assert(out@ == spec_join_lines(orig));
            }
        }
        out
    }
}

// ---------------------------------------------------------------------------
// Request parsing
// ---------------------------------------------------------------------------

/// What a parsed request means: its fields as plain character sequences.
#[verifier::ext_equal]
pub struct ReqView {
    pub method: HttpRequestMethod,
    pub url: Seq<char>,
    pub version: Seq<char>,
    pub headers: Seq<(Seq<char>, Seq<char>)>,
    pub body: Seq<Seq<char>>,
}

/// A parsed HTTP request: the first line's method, URL and version, the
/// `key: value` head entries, and a cursor over the remaining body lines.
pub struct HttpRequest {
    pub method: HttpRequestMethod,
    pub url: String,
    pub version: String,
    pub headers: StrMap,
    pub body: BodyLines,
}

impl View for HttpRequest {
    type V = ReqView;

    open spec fn view(&self) -> ReqView {
        ReqView {
            method: self.method,
            url: self.url@,
            version: self.version@,
            headers: self.headers@,
            body: self.body@,
        }
    }
}

/// The method named by a request-line token; anything else is `ILLEGAL`.
pub open spec fn spec_method_of(tok: Seq<char>) -> HttpRequestMethod {
    if tok == "GET"@ {
        HttpRequestMethod::GET
    } else if tok == "POST"@ {
        HttpRequestMethod::POST
    } else if tok == "HEAD"@ {
        HttpRequestMethod::HEAD
    } else if tok == "PUT"@ {
        HttpRequestMethod::PUT
    } else if tok == "OPTIONS"@ {
        HttpRequestMethod::OPTIONS
    } else {
        HttpRequestMethod::ILLEGAL
    }
}

/// The sentinel for an unparsable request: empty URL, version, headers
/// and body.
pub open spec fn spec_illegal_request() -> ReqView {
    ReqView {
        method: HttpRequestMethod::ILLEGAL,
        url: Seq::empty(),
        version: Seq::empty(),
        headers: Seq::empty(),
        body: Seq::empty(),
    }
}

/// Walks the lines after the request line: each `key: value` line enters
/// the header map (split at the first colon, both sides trimmed); the
/// first line without a colon is consumed as the terminator, and what
/// follows it is the body.
pub open spec fn spec_parse_headers(
    lines: Seq<Seq<char>>,
    acc: Seq<(Seq<char>, Seq<char>)>,
) -> (Seq<(Seq<char>, Seq<char>)>, Seq<Seq<char>>)
    decreases lines.len(),
{
    if lines.len() == 0 {
        (acc, Seq::empty())
    } else if spec_contains_char(lines[0], ':') {
        let i = first_index_of(lines[0], ':');
        spec_parse_headers(
            lines.drop_first(),
            spec_insert(acc, spec_trim(lines[0].take(i)), spec_trim(lines[0].skip(i + 1))),
        )
    } else {
        (acc, lines.drop_first())
    }
}

/// What parsing a raw request buffer yields. The first line must split
/// on single spaces into at least a known method token, a URL and a
/// version; otherwise the request is the `ILLEGAL` sentinel.
pub open spec fn spec_parse_request(text: Seq<char>) -> ReqView {
    let lines = spec_lines(text);
    if lines.len() == 0 {
        spec_illegal_request()
    } else {
        let toks = spec_split_char(lines[0], ' ');
        let m = spec_method_of(toks[0]);
        if m is ILLEGAL || toks.len() < 3 {
            spec_illegal_request()
        } else {
            let hb = spec_parse_headers(lines.drop_first(), Seq::empty());
            ReqView { method: m, url: toks[1], version: toks[2], headers: hb.0, body: hb.1 }
        }
    }
}

/// For every well-formed request line — a known method token, a URL
/// and a version, split on single spaces — parsing carries exactly
/// that method, URL and version into the request.
pub proof fn lemma_parse_well_formed(text: Seq<char>)
    requires
        spec_lines(text).len() > 0,
        spec_method_of(spec_split_char(spec_lines(text)[0], ' ')[0]) != HttpRequestMethod::ILLEGAL,
        spec_split_char(spec_lines(text)[0], ' ').len() >= 3,
    ensures
        spec_parse_request(text).method == spec_method_of(
            spec_split_char(spec_lines(text)[0], ' ')[0],
        ),
        spec_parse_request(text).url == spec_split_char(spec_lines(text)[0], ' ')[1],
        spec_parse_request(text).version == spec_split_char(spec_lines(text)[0], ' ')[2],
{
}

/// A request line with an unknown method token or fewer than three
/// tokens parses to the `ILLEGAL` sentinel: empty URL, version,
/// headers and body.
pub proof fn lemma_parse_illegal(text: Seq<char>)
    requires
        spec_lines(text).len() > 0,
        spec_method_of(spec_split_char(spec_lines(text)[0], ' ')[0]) == HttpRequestMethod::ILLEGAL
            || spec_split_char(spec_lines(text)[0], ' ').len() < 3,
    ensures
        spec_parse_request(text) == spec_illegal_request(),
{
}

impl HttpRequest {
    fn illegal() -> (r: HttpRequest)
        ensures
            r@ == spec_illegal_request(),
    {
        let r = HttpRequest {
            method: HttpRequestMethod::ILLEGAL,
            url: String::new(),
            version: String::new(),
            headers: StrMap::new(),
            body: BodyLines::empty(),
        };
        proof {
            assert(r@ =~= spec_illegal_request());
        }
        r
    }

    /// Parses a raw request buffer into a request, as
    /// [`spec_parse_request`] describes.
    ///
    /// For every well-formed request line with a known method the result
    /// carries exactly that method, URL and version; an unknown method
    /// token or fewer than three tokens yield the `ILLEGAL` sentinel.
    pub fn from(input: &str) -> (r: HttpRequest)
        ensures
            r@ == spec_parse_request(input@),
    {
        let mut lines = split_lines(input);
        let ghost lseq = lines.deep_view();
        if lines.len() == 0 {
            proof {
                assert(lseq.len() == 0);
            }
            return HttpRequest::illegal();
        }
        let toks = split_char(lines[0].as_str(), ' ');
        let ghost tseq = toks.deep_view();
        proof {
            crate::text::lemma_split_char_len(lseq[0], ' ');
            assert(tseq.len() >= 1);
            assert(tseq[0] == toks@[0]@);
        }
        let method = if str_eq(toks[0].as_str(), "GET") {
            HttpRequestMethod::GET
        } else if str_eq(toks[0].as_str(), "POST") {
            HttpRequestMethod::POST
        } else if str_eq(toks[0].as_str(), "HEAD") {
            HttpRequestMethod::HEAD
        } else if str_eq(toks[0].as_str(), "PUT") {
            HttpRequestMethod::PUT
        } else if str_eq(toks[0].as_str(), "OPTIONS") {
            HttpRequestMethod::OPTIONS
        } else {
            HttpRequestMethod::ILLEGAL
        };
        proof {
            assert(method == spec_method_of(tseq[0]));
        }
        if matches!(method, HttpRequestMethod::ILLEGAL) || toks.len() < 3 {
            return HttpRequest::illegal();
        }
        let url = toks[1].clone();
        let version = toks[2].clone();

        // walk the remaining lines as `key: value` pairs until a line
        // without a colon terminates the head
        let mut headers = StrMap::new();
        let n = lines.len();
        let mut li: usize = 1;
        let ghost tail = lseq.skip(1);
        proof {
            assert(tail =~= lseq.skip(li as int));
        }
        let mut terminated: bool = false;
        while li < n && !terminated
            invariant
                n == lines@.len(),
                lseq == lines.deep_view(),
                1 <= li <= n,
                !terminated ==> spec_parse_headers(tail, Seq::empty()) == spec_parse_headers(
                    lseq.skip(li as int),
                    headers@,
                ),
                terminated ==> spec_parse_headers(tail, Seq::empty()) == (
                    headers@,
                    lseq.skip(li as int),
                ),
                tail == lseq.skip(1),
            decreases n - li,
        {
            let ghost rem = lseq.skip(li as int);
            proof {
                assert(rem[0] == lseq[li as int]);
                assert(rem.drop_first() =~= lseq.skip(li + 1));
            }
            let line_len = lines[li].as_str().unicode_len();
            match find_char(lines[li].as_str(), ':') {
                Some(ci) => {
                    proof {
                        crate::text::lemma_first_index_of(lseq[li as int], ':');
                    }
                    let k = trim(lines[li].as_str().substring_char(0, ci));
                    let v = trim(lines[li].as_str().substring_char(ci + 1, line_len));
                    proof {
                        assert(lseq[li as int].subrange(0, ci as int) =~= rem[0].take(ci as int));
                        assert(lseq[li as int].subrange(ci + 1, line_len as int) =~= rem[0].skip(
                            ci + 1,
                        ));
                    }
                    headers.insert(k, v);
                },
                None => {
                    terminated = true;
                },
            }
            li = li + 1;
        }
        proof {
            if !terminated {
                assert(lseq.skip(li as int).len() == 0);
                assert(spec_parse_headers(tail, Seq::empty()) == (
                    headers@,
                    Seq::<Seq<char>>::empty(),
                ));
                assert(lseq.skip(li as int) =~= Seq::<Seq<char>>::empty());
            }
        }
        let rest = lines.split_off(li);
        let body = BodyLines::new(rest);
        proof {
            assert(body@ =~= lseq.skip(li as int));
        }
        let r = HttpRequest { method, url, version, headers, body };
        proof {
            let hb = spec_parse_headers(spec_lines(input@).drop_first(), Seq::empty());
            assert(lseq.drop_first() =~= tail);
            assert(r@ =~= spec_parse_request(input@));
        }
        r
    }
}

// ---------------------------------------------------------------------------
// Responses
// ---------------------------------------------------------------------------

/// What a response means: status, headers and body as plain values. A
/// `None` body marks a raw-file response whose bytes are streamed from
/// disk at send time.
#[verifier::ext_equal]
pub struct RespView {
    pub status_code: u32,
    pub status_text: Seq<char>,
    pub headers: Seq<(Seq<char>, Seq<char>)>,
    pub body: Option<Seq<char>>,
}

/// An HTTP response waiting to be sent. `body == None` flags a raw file:
/// the sender re-reads the file's bytes and computes `Content-Length`
/// from them at send time.
pub struct HttpResponse {
    pub status_code: u32,
    pub status_text: String,
    pub headers: StrMap,
    pub body: Option<String>,
}

impl View for HttpResponse {
    type V = RespView;

    open spec fn view(&self) -> RespView {
        RespView {
            status_code: self.status_code,
            status_text: self.status_text@,
            headers: self.headers@,
            body: match self.body {
                Some(ref b) => Some(b@),
                None => None,
            },
        }
    }
}

/// The view of an optional response, for contracts over handler results.
pub open spec fn spec_opt_resp(r: Option<HttpResponse>) -> Option<RespView> {
    match r {
        Some(ref x) => Some(x@),
        None => None,
    }
}

pub open spec fn spec_error_400() -> RespView {
    RespView {
        status_code: 400,
        status_text: "Bad Request"@,
        headers: Seq::empty(),
        body: Some(Seq::empty()),
    }
}

pub open spec fn spec_error_404() -> RespView {
    RespView {
        status_code: 404,
        status_text: "Not Found"@,
        headers: Seq::empty(),
        body: Some("404 Not Found"@),
    }
}

pub open spec fn spec_error_405() -> RespView {
    RespView {
        status_code: 405,
        status_text: "Method Not Allowed"@,
        headers: Seq::empty(),
        body: Some(Seq::empty()),
    }
}

pub open spec fn spec_error_500() -> RespView {
    RespView {
        status_code: 500,
        status_text: "Internal Server Error"@,
        headers: Seq::empty(),
        body: Some("Undefined Interal Error Resp Body"@),
    }
}

pub open spec fn spec_error_507() -> RespView {
    RespView {
        status_code: 507,
        status_text: "Insufficient Storage"@,
        headers: Seq::empty(),
        body: Some(Seq::empty()),
    }
}

/// What the dispatcher may assume of the request and the disk: the
/// conditions of the handler the method selects.
pub open spec fn spec_dispatch_requires(req: ReqView, root: Seq<char>, disk: DiskView) -> bool {
    match req.method {
        HttpRequestMethod::GET => method::get::spec_get_requires(req, root, disk),
        HttpRequestMethod::HEAD => method::head::spec_head_requires(req, root, disk),
        _ => true,
    }
}

/// What dispatch decides: the handler outcome of the request's method,
/// with the common `Server: rhttp` header as the starting header set,
/// or no response at all for the `ILLEGAL` sentinel.
pub open spec fn spec_dispatch(req: ReqView, root: Seq<char>, disk: DiskView) -> HandlerOutcome {
    let headers = spec_insert(Seq::<(Seq<char>, Seq<char>)>::empty(), "Server"@, "rhttp"@);
    match req.method {
        HttpRequestMethod::ILLEGAL => HandlerOutcome { resp: None, disk, body: req.body },
        HttpRequestMethod::GET => HandlerOutcome {
            resp: Some(method::get::spec_get_response(req, headers, root, disk)),
            disk,
            body: req.body,
        },
        HttpRequestMethod::POST => method::post::spec_post_outcome(req, headers, root, disk),
        HttpRequestMethod::PUT => method::put::spec_put_outcome(req, headers, root, disk),
        HttpRequestMethod::HEAD => HandlerOutcome {
            resp: Some(method::head::spec_head_response(req, headers, root, disk)),
            disk,
            body: req.body,
        },
        HttpRequestMethod::OPTIONS => HandlerOutcome {
            resp: Some(method::options::spec_options_response(headers)),
            disk,
            body: req.body,
        },
    }
}

/// An error response carrying the headers built so far: the fixed
/// error shapes keep no extra headers beyond the common ones the
/// dispatcher hands every handler.
pub open spec fn spec_error_with_headers(
    e: RespView,
    headers: Seq<(Seq<char>, Seq<char>)>,
) -> RespView {
    RespView { status_code: e.status_code, status_text: e.status_text, headers, body: e.body }
}

/// Each header line as serialized: `key: value` and a newline, in the
/// map's (sorted) iteration order.
pub open spec fn spec_headers_text(hs: Seq<(Seq<char>, Seq<char>)>) -> Seq<char>
    decreases hs.len(),
{
    if hs.len() == 0 {
        Seq::empty()
    } else {
        hs[0].0 + ": "@ + hs[0].1 + "\n"@ + spec_headers_text(hs.drop_first())
    }
}

pub proof fn lemma_headers_text_app(a: Seq<(Seq<char>, Seq<char>)>, b: Seq<(Seq<char>, Seq<char>)>)
    ensures
        spec_headers_text(a + b) == spec_headers_text(a) + spec_headers_text(b),
    decreases a.len(),
{
    if a.len() == 0 {
        assert(a + b =~= b);
        assert(Seq::<char>::empty() + spec_headers_text(b) =~= spec_headers_text(b));
    } else {
        let s = a + b;
        assert(s[0] == a[0]);
        assert(s.drop_first() =~= a.drop_first() + b);
        lemma_headers_text_app(a.drop_first(), b);
        assert(s[0].0 + ": "@ + s[0].1 + "\n"@ + (spec_headers_text(a.drop_first())
            + spec_headers_text(b)) =~= (a[0].0 + ": "@ + a[0].1 + "\n"@ + spec_headers_text(
            a.drop_first(),
        )) + spec_headers_text(b));
    }
}

/// The status line: `HTTP/1.1 <code> <text>` and a newline.
pub open spec fn spec_status_line(code: u32, text: Seq<char>) -> Seq<char> {
    "HTTP/1.1 "@ + spec_dec_digits(code as int) + " "@ + text + "\n"@
}

/// The rendered head: status line, header lines, and the blank line that
/// separates the head from the body.
pub open spec fn spec_head_text(r: RespView) -> Seq<char> {
    spec_status_line(r.status_code, r.status_text) + spec_headers_text(r.headers) + "\n"@
}

impl HttpResponse {
    /// The 400 Bad Request response: empty body, no extra headers.
    pub fn error_400() -> (r: Self)
        ensures
            r@ == spec_error_400(),
    {
        let r = HttpResponse {
            status_code: 400,
            status_text: String::from_str("Bad Request"),
            headers: StrMap::new(),
            body: Some(String::new()),
        };
        proof {
            assert(r@ =~= spec_error_400());
        }
        r
    }

    /// The 404 Not Found response with its fixed text body.
    pub fn _error_404() -> (r: Self)
        ensures
            r@ == spec_error_404(),
    {
        let r = HttpResponse {
            status_code: 404,
            status_text: String::from_str("Not Found"),
            headers: StrMap::new(),
            body: Some(String::from_str("404 Not Found")),
        };
        proof {
            assert(r@ =~= spec_error_404());
        }
        r
    }

    /// The 405 Method Not Allowed response: empty body, no extra headers.
    pub fn error_405() -> (r: Self)
        ensures
            r@ == spec_error_405(),
    {
        let r = HttpResponse {
            status_code: 405,
            status_text: String::from_str("Method Not Allowed"),
            headers: StrMap::new(),
            body: Some(String::new()),
        };
        proof {
            assert(r@ =~= spec_error_405());
        }
        r
    }

    /// The 500 Internal Server Error response with its fixed text body.
    pub fn error_500() -> (r: Self)
        ensures
            r@ == spec_error_500(),
    {
        let r = HttpResponse {
            status_code: 500,
            status_text: String::from_str("Internal Server Error"),
            headers: StrMap::new(),
            body: Some(String::from_str("Undefined Interal Error Resp Body")),
        };
        proof {
            assert(r@ =~= spec_error_500());
        }
        r
    }

    /// The 507 Insufficient Storage response: empty body, no extra headers.
    pub fn error_507() -> (r: Self)
        ensures
            r@ == spec_error_507(),
    {
        let r = HttpResponse {
            status_code: 507,
            status_text: String::from_str("Insufficient Storage"),
            headers: StrMap::new(),
            body: Some(String::new()),
        };
        proof {
            assert(r@ =~= spec_error_507());
        }
        r
    }

    /// Whether the body must be streamed from the file on disk rather
    /// than from memory.
    pub fn need_send_raw_file(&self) -> (r: bool)
        ensures
            r == (self@.body is None),
    {
        match self.body {
            None => true,
            Some(_) => false,
        }
    }

    /// Renders the head: status line, sorted header lines, blank line.
    pub fn generate_head_string(&self) -> (r: String)
        ensures
            r@ == spec_head_text(self@),
    {
        let mut out = String::from_str("HTTP/1.1 ");
        let code = u32_to_string(self.status_code);
        out.append(code.as_str());
        out.append(" ");
        out.append(self.status_text.as_str());
        out.append("\n");
        let ghost hs = self.headers@;
        let n = self.headers.len();
        let mut i: usize = 0;
        proof {
            assert(spec_headers_text(hs.take(0)) =~= Seq::<char>::empty());
            assert(out@ =~= spec_status_line(self.status_code, self.status_text@)
                + spec_headers_text(hs.take(0)));
        }
        while i < n
            invariant
                n == hs.len(),
                i <= n,
                hs == self.headers@,
                out@ == spec_status_line(self@.status_code, self@.status_text) + spec_headers_text(
                    hs.take(i as int),
                ),
            decreases n - i,
        {
            let (k, v) = self.headers.pair_at(i);
            out.append(k.as_str());
            out.append(": ");
            out.append(v.as_str());
            out.append("\n");
            proof {
                assert(hs.take(i + 1) =~= hs.take(i as int) + seq![hs[i as int]]);
                lemma_headers_text_app(hs.take(i as int), seq![hs[i as int]]);
                assert(spec_headers_text(seq![hs[i as int]]) == hs[i as int].0 + ": "@ + hs[i
                    as int].1 + "\n"@ + spec_headers_text(
                    seq![hs[i as int]].drop_first(),
                ));
                assert(seq![hs[i as int]].drop_first() =~= Seq::<(Seq<char>, Seq<char>)>::empty());
                assert(out@ =~= spec_status_line(self@.status_code, self@.status_text)
                    + spec_headers_text(hs.take(i + 1)));
            }
            i = i + 1;
        }
        out.append("\n");
        proof {
            assert(hs.take(n as int) =~= hs);
            assert(out@ =~= spec_head_text(self@));
        }
        out
    }

    /// Dispatches a parsed request to its method's handler, under the
    /// common `Server` header. An `ILLEGAL` request is never dispatched
    /// and yields no response, which closes the connection.
    pub fn new(request: &mut HttpRequest, cfg: &Config, disk: &mut Disk) -> (r: Option<
        HttpResponse,
    >)
        requires
            spec_dispatch_requires(old(request)@, cfg.root_dir@, old(disk)@),
        ensures
            ({
                let o = spec_dispatch(old(request)@, cfg.root_dir@, old(disk)@);
                &&& spec_opt_resp(r) == o.resp
                &&& final(disk)@ == o.disk
                &&& final(request)@ == (ReqView {
                    method: old(request)@.method,
                    url: old(request)@.url,
                    version: old(request)@.version,
                    headers: old(request)@.headers,
                    body: o.body,
                })
            }),
    {
        let mut headers = StrMap::new();
        headers.insert(String::from_str("Server"), String::from_str("rhttp"));
        proof {
            assert(headers@ == spec_insert(
                Seq::<(Seq<char>, Seq<char>)>::empty(),
                "Server"@,
                "rhttp"@,
            ));
        }
        match request.method {
            HttpRequestMethod::ILLEGAL => {
                proof {
                    assert(final(request)@ =~= old(request)@);
                }
                None
            },
            HttpRequestMethod::GET => method::generate_get_response(request, headers, cfg, disk),
            HttpRequestMethod::POST => method::generate_post_response(request, headers, cfg, disk),
            HttpRequestMethod::PUT => method::generate_put_response(request, headers, cfg, disk),
            HttpRequestMethod::HEAD => method::generate_head_response(request, headers, cfg, disk),
            HttpRequestMethod::OPTIONS => method::generate_options_response(request, headers, cfg),
        }
    }

    /// Renders the whole response: the head followed by the in-memory
    /// body. A raw-file response has no in-memory body to render.
    pub fn generate_string(&self) -> (r: String)
        requires
            self@.body is Some,
        ensures
            r@ == spec_head_text(self@) + self@.body->0,
    {
        let mut out = self.generate_head_string();
        match &self.body {
            Some(b) => {
                out.append(b.as_str());
            },
            None => {},
        }
        out
    }
}

} // verus!
