//! The HTTP message model and its wire codec: methods, status codes,
//! the header map, requests, responses, and the functions that read a
//! request from bytes and render a response to bytes.

pub mod header;
pub mod protocol;
pub mod request;
pub mod response;
pub mod status;

pub use crate::error::Error;
pub use header::HeaderMap;
pub use request::HttpRequest;
pub use response::{HttpResponse, HttpResponseBuilder};
pub use status::{Method, StatusCode};
