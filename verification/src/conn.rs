//! The connection loop's decisions: whether a request opts into
//! keep-alive, and how a response's headers are finished before it is
//! sent. The surrounding application drives the socket: read a buffer,
//! parse, dispatch, finish, write, and loop while keep-alive holds.

use crate::parser::http::{HttpRequest, HttpResponse};
use crate::strmap::{spec_insert, spec_lookup};
use crate::text::{eq_ignore_case, spec_dec_digits, spec_lower_eq, u64_to_string, usize_to_string};
use vstd::prelude::*;

verus! {

/// Keep-alive needs an explicit opt-in: it holds exactly when the
/// request carries a `Connection` header whose value is `keep-alive`
/// up to ASCII case. An absent header closes the connection, as does
/// any other value.
pub open spec fn spec_keep_alive(headers: Seq<(Seq<char>, Seq<char>)>) -> bool {
    match spec_lookup(headers, "Connection"@) {
        Some(v) => spec_lower_eq(v, "keep-alive"@),
        None => false,
    }
}

/// A request that opts in explicitly — a `Connection: keep-alive`
/// header, in any ASCII case — keeps the connection alive; without the
/// header the connection closes.
pub proof fn lemma_keep_alive_opt_in(h: Seq<(Seq<char>, Seq<char>)>)
    ensures
        spec_keep_alive(crate::strmap::spec_insert(h, "Connection"@, "keep-alive"@)),
        spec_lookup(h, "Connection"@) is None ==> !spec_keep_alive(h),
{
    crate::strmap::lemma_lookup_insert(h, "Connection"@, "keep-alive"@, "Connection"@);
}

/// Decides keep-alive for a request, as [`spec_keep_alive`] describes.
pub fn compute_keep_alive(request: &HttpRequest) -> (r: bool)
    ensures
        r == spec_keep_alive(request@.headers),
{
    match request.headers.get("Connection") {
        Some(v) => eq_ignore_case(v.as_str(), "keep-alive"),
        None => false,
    }
}

/// The headers after finishing: `Keep-Alive: timeout=<N>` always
/// enters; when the response carries no `Connection` header of its own,
/// the computed keep-alive decision enters as `keep-alive` or `close`.
pub open spec fn spec_finalize_headers(
    h: Seq<(Seq<char>, Seq<char>)>,
    keep_alive: bool,
    timeout: u64,
) -> Seq<(Seq<char>, Seq<char>)> {
    let h1 = spec_insert(h, "Keep-Alive"@, "timeout="@ + spec_dec_digits(timeout as int));
    match spec_lookup(h, "Connection"@) {
        Some(_) => h1,
        None => spec_insert(
            h1,
            "Connection"@,
            if keep_alive {
                "keep-alive"@
            } else {
                "close"@
            },
        ),
    }
}

/// The keep-alive flag after finishing: a `Connection` header of the
/// response itself overrides the computed flag.
pub open spec fn spec_finalize_keep_alive(
    h: Seq<(Seq<char>, Seq<char>)>,
    keep_alive: bool,
) -> bool {
    match spec_lookup(h, "Connection"@) {
        Some(v) => spec_lower_eq(v, "keep-alive"@),
        None => keep_alive,
    }
}

/// Finishes a response before sending, as [`spec_finalize_headers`]
/// describes, and returns the final keep-alive decision.
pub fn finalize_response(response: &mut HttpResponse, keep_alive: bool, timeout: u64) -> (r: bool)
    ensures
        r == spec_finalize_keep_alive(old(response)@.headers, keep_alive),
        final(response)@.headers == spec_finalize_headers(
            old(response)@.headers,
            keep_alive,
            timeout,
        ),
        final(response)@.status_code == old(response)@.status_code,
        final(response)@.status_text == old(response)@.status_text,
        final(response)@.body == old(response)@.body,
{
    let conn_ka: Option<bool> = match response.headers.get("Connection") {
        Some(v) => Some(eq_ignore_case(v.as_str(), "keep-alive")),
        None => None,
    };
    let mut tv = String::from_str("timeout=");
    let digits = u64_to_string(timeout);
    tv.append(digits.as_str());
    response.headers.insert(String::from_str("Keep-Alive"), tv);
    match conn_ka {
        Some(b) => b,
        None => {
            let value = if keep_alive {
                String::from_str("keep-alive")
            } else {
                String::from_str("close")
            };
            response.headers.insert(String::from_str("Connection"), value);
            keep_alive
        },
    }
}

/// Sets `Content-Length` to the byte count actually about to be sent:
/// the sender calls this once it holds the response bytes, whether they
/// came from memory or from the file on disk.
pub fn set_content_length(response: &mut HttpResponse, len: usize)
    ensures
        final(response)@.headers == spec_insert(
            old(response)@.headers,
            "Content-Length"@,
            spec_dec_digits(len as int),
        ),
        final(response)@.status_code == old(response)@.status_code,
        final(response)@.status_text == old(response)@.status_text,
        final(response)@.body == old(response)@.body,
{
    let digits = usize_to_string(len);
    response.headers.insert(String::from_str("Content-Length"), digits);
}

} // verus!
