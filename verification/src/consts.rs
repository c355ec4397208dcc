//! Wire-level constants of the HTTP side of the crate.

use vstd::prelude::*;

verus! {

/// The only HTTP version the parser accepts.
pub const HTTP_VER_STR: &'static str = "HTTP/1.1";

/// Name of the header that carries the body length.
pub const CONTENT_LEN: &'static str = "Content-Length";

/// Name of the header that carries the cookie pairs.
pub const COOKIES: &'static str = "Cookie";

/// Name of the header that carries the media type.
pub const CONTENT_TYPE: &'static str = "Content-Type";

/// Name of the header that carries the request origin.
pub const ORIGIN: &'static str = "Origin";

} // verus!
