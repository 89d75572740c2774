//! The OPTIONS handler: 204 No Content with the fixed `Allow` header,
//! ignoring the URL and the body entirely.

use crate::parser::http::{HttpRequest, HttpResponse, RespView};
use crate::strmap::{spec_insert, StrMap};
use crate::Config;
use vstd::prelude::*;

verus! {

/// What OPTIONS answers: 204 and the list of supported methods.
pub open spec fn spec_options_response(headers: Seq<(Seq<char>, Seq<char>)>) -> RespView {
    RespView {
        status_code: 204,
        status_text: "No Content"@,
        headers: spec_insert(headers, "Allow"@, "OPTIONS, GET, PUT, POST, HEAD"@),
        body: Some(Seq::empty()),
    }
}

/// Builds the OPTIONS response. Always answers; the request itself is
/// neither read nor changed.
pub fn generate_options_response(
    request: &mut HttpRequest,
    headers: StrMap,
    cfg: &Config,
) -> (r: Option<HttpResponse>)
    ensures
        r matches Some(resp) && resp@ == spec_options_response(headers@),
        final(request)@ == old(request)@,
{
    let _ = cfg;
    let mut headers = headers;
    let ghost h0 = headers@;
    headers.insert(
        String::from_str("Allow"),
        String::from_str("OPTIONS, GET, PUT, POST, HEAD"),
    );
    let resp = HttpResponse {
        status_code: 204,
        status_text: String::from_str("No Content"),
        headers,
        body: Some(String::new()),
    };
    proof {
        assert(resp@ =~= spec_options_response(h0));
    }
    Some(resp)
}

} // verus!
