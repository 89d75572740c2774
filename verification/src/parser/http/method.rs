//! The per-method response builders and what they share: path
//! resolution under the server root, and the outcome record that ties a
//! handler's response, its disk effect and its body consumption together.

pub mod get;
pub mod head;
pub mod options;
pub mod post;
pub mod put;
pub mod utils;

pub use get::generate_get_response;
pub use head::generate_head_response;
pub use options::generate_options_response;
pub use post::generate_post_response;
pub use put::generate_put_response;

use crate::disk::DiskView;
use crate::parser::http::RespView;
use crate::text::str_eq;
use vstd::prelude::*;

verus! {

/// Everything a handler decides: the optional response, the disk as the
/// handler leaves it, and the body lines left unread.
#[verifier::ext_equal]
pub struct HandlerOutcome {
    pub resp: Option<RespView>,
    pub disk: DiskView,
    pub body: Seq<Seq<char>>,
}

/// Where GET and HEAD look for a URL: `index.html` under the root for
/// `/`, else the URL appended to the root. The concatenation is literal;
/// no traversal sanitization is attempted.
pub open spec fn spec_resolve_get(root: Seq<char>, url: Seq<char>) -> Seq<char> {
    if url == "/"@ {
        root + "/index.html"@
    } else {
        root + "/"@ + url
    }
}

/// Where PUT and POST write a URL: the URL appended to the root.
pub open spec fn spec_resolve_put(root: Seq<char>, url: Seq<char>) -> Seq<char> {
    root + "/"@ + url
}

/// The fixed error page served with 404 responses.
pub open spec fn spec_error_page_path(root: Seq<char>) -> Seq<char> {
    root + "/error/404.html"@
}

/// Resolves a URL for reading, as [`spec_resolve_get`] describes.
pub fn resolve_get_filename(root_dir: &str, url: &str) -> (r: String)
    ensures
        r@ == spec_resolve_get(root_dir@, url@),
{
    let mut out = String::from_str(root_dir);
    if str_eq(url, "/") {
        out.append("/index.html");
    } else {
        out.append("/");
        out.append(url);
    }
    out
}

/// Resolves a URL for writing, as [`spec_resolve_put`] describes.
pub fn resolve_put_filename(root_dir: &str, url: &str) -> (r: String)
    ensures
        r@ == spec_resolve_put(root_dir@, url@),
{
    let mut out = String::from_str(root_dir);
    out.append("/");
    out.append(url);
    out
}

/// The path of the 404 error page under the root.
pub fn error_page_filename(root_dir: &str) -> (r: String)
    ensures
        r@ == spec_error_page_path(root_dir@),
{
    let mut out = String::from_str(root_dir);
    out.append("/error/404.html");
    out
}

} // verus!
