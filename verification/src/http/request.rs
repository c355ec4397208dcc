//! The parsed request handed to routing, middleware and handlers.

use vstd::prelude::*;

verus! {

use super::header::HeaderMap;
use super::status::Method;

/// A fully parsed request.  `raw_route` is the request-target exactly
/// as received; `route` is its path part with the query stripped;
/// `params` collects query pairs, route captures and middleware-set
/// values, in that order.
#[derive(Debug, Clone, PartialEq, Eq)]
pub struct HttpRequest {
    pub method: Method,
    pub raw_route: String,
    pub headers: HeaderMap,
    pub body: Option<Vec<u8>>,
    pub route: String,
    pub params: HeaderMap,
}

} // verus!
