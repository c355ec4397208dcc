//! The dispatch machinery of the server: route compilation and
//! resolution, the middleware verdict, and the stock fallback
//! responses.  The accept loop, the worker threads and the handler
//! tables live with the embedder, which drives these functions.

pub mod default_handlers;
pub mod routing;

use vstd::prelude::*;

pub use routing::{Route, RouteMatch, build_dynamic_routes, match_route, router};

verus! {

use crate::http::response::HttpResponse;

/// What one middleware decides for a request: let it pass, or stop the
/// pipeline and answer with the carried response.
#[derive(Debug)]
pub enum MiddlewareResult {
    Continue,
    Abort(HttpResponse),
}

} // verus!
