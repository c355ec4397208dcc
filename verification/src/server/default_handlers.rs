//! The stock responses used when no registered handler answers.

use vstd::prelude::*;

verus! {

use crate::http::response::HttpResponse;
use crate::http::status::StatusCode;
use vstd::utf8::encode_utf8;

/// The reply of the default not-found route.
pub fn not_found() -> (r: HttpResponse)
    ensures
        r.status == StatusCode::NotFound,
        r.body matches Some(b) ==> b@ == encode_utf8(
            "The requested resource was not found on the server"@,
        ),
        r.body is Some,
        r.headers.pairs() == seq![("Content-Type"@, "text/plain"@)],
{
    HttpResponse::not_found()
}

/// The reply of the default method-not-allowed route.
pub fn method_not_allowed() -> (r: HttpResponse)
    ensures
        r.status == StatusCode::MethodNotAllowed,
        r.body matches Some(b) ==> b@ == encode_utf8("The method is not allowed for this resource"@),
        r.body is Some,
        r.headers.pairs() == seq![("Content-Type"@, "text/plain"@)],
{
    let r = HttpResponse::builder().status(StatusCode::MethodNotAllowed).text(
        String::from_str("The method is not allowed for this resource"),
    ).build();
    proof {
        assert(r.headers.pairs() =~= seq![("Content-Type"@, "text/plain"@)]);
    }
    r
}

/// The reply of the default error handler, sent when a handler fails.
pub fn error() -> (r: HttpResponse)
    ensures
        r.status == StatusCode::InternalServerError,
        r.body matches Some(b) ==> b@ == encode_utf8("Oops, something went wrong"@),
        r.body is Some,
        r.headers.pairs() == seq![("Content-Type"@, "text/plain"@)],
{
    let r = HttpResponse::builder().status(StatusCode::InternalServerError).text(
        String::from_str("Oops, something went wrong"),
    ).build();
    proof {
        assert(r.headers.pairs() =~= seq![("Content-Type"@, "text/plain"@)]);
    }
    r
}

/// The `400 Bad Request` reply carrying a parse error's rendering.
pub fn bad_request(e: &crate::error::Error) -> (r: HttpResponse)
    ensures
        r.status == StatusCode::BadRequest,
        r.body matches Some(b) ==> b@ == encode_utf8(
            "Error processing HTTP: "@ + crate::error::message_view(e),
        ),
        r.body is Some,
        r.headers.pairs() == seq![("Content-Type"@, "text/plain"@)],
{
    let text = String::from_str("Error processing HTTP: ").concat(e.message().as_str());
    let r = HttpResponse::builder().status(StatusCode::BadRequest).text(text).build();
    proof {
        assert(r.headers.pairs() =~= seq![("Content-Type"@, "text/plain"@)]);
    }
    r
}

} // verus!
