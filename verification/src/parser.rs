//! HTTP request / response parsing and response generation.

pub mod http;

pub use http::HttpRequest;
pub use http::HttpRequestMethod;
pub use http::HttpResponse;
