//! Request methods and response status codes.

use vstd::prelude::*;

verus! {

/// The request verbs the parser accepts.
#[derive(Debug, Clone, Copy, PartialEq, Eq, PartialOrd, Ord, Structural)]
pub enum Method {
    Get,
    Post,
    Put,
    Delete,
    Patch,
}

/// The status codes a response can carry.
#[derive(Debug, Clone, Copy, PartialEq, Eq, PartialOrd, Ord, Structural)]
pub enum StatusCode {
    SwitchingProtocols,
    Okay,
    Created,
    Accepted,
    NoContent,
    BadRequest,
    Unauthorized,
    PaymentRequired,
    Forbidden,
    NotFound,
    MethodNotAllowed,
    ImATeapot,
    InternalServerError,
}

/// The numeric value of each status code.
pub open spec fn status_num(s: StatusCode) -> u16 {
    match s {
        StatusCode::SwitchingProtocols => 101,
        StatusCode::Okay => 200,
        StatusCode::Created => 201,
        StatusCode::Accepted => 202,
        StatusCode::NoContent => 204,
        StatusCode::BadRequest => 400,
        StatusCode::Unauthorized => 401,
        StatusCode::PaymentRequired => 402,
        StatusCode::Forbidden => 403,
        StatusCode::NotFound => 404,
        StatusCode::MethodNotAllowed => 405,
        StatusCode::ImATeapot => 418,
        StatusCode::InternalServerError => 500,
    }
}

/// The reason phrase of each status code.
pub open spec fn status_reason(s: StatusCode) -> Seq<char> {
    match s {
        StatusCode::SwitchingProtocols => "Switching Protocols"@,
        StatusCode::Okay => "OK"@,
        StatusCode::Created => "Created"@,
        StatusCode::Accepted => "Accepted"@,
        StatusCode::NoContent => "No Content"@,
        StatusCode::BadRequest => "Bad Request"@,
        StatusCode::Unauthorized => "Unauthorized"@,
        StatusCode::PaymentRequired => "Payment Required"@,
        StatusCode::Forbidden => "Forbidden"@,
        StatusCode::NotFound => "Not Found"@,
        StatusCode::MethodNotAllowed => "Method Not Allowed"@,
        StatusCode::ImATeapot => "I'm a teapot"@,
        StatusCode::InternalServerError => "Internal Server Error"@,
    }
}

impl StatusCode {
    /// The numeric code sent on the wire.
    pub fn code(&self) -> (r: u16)
        ensures
            r == status_num(*self),
    {
        match self {
            StatusCode::SwitchingProtocols => 101,
            StatusCode::Okay => 200,
            StatusCode::Created => 201,
            StatusCode::Accepted => 202,
            StatusCode::NoContent => 204,
            StatusCode::BadRequest => 400,
            StatusCode::Unauthorized => 401,
            StatusCode::PaymentRequired => 402,
            StatusCode::Forbidden => 403,
            StatusCode::NotFound => 404,
            StatusCode::MethodNotAllowed => 405,
            StatusCode::ImATeapot => 418,
            StatusCode::InternalServerError => 500,
        }
    }

    /// The reason phrase sent beside the numeric code.
    pub fn text_name(&self) -> (r: &'static str)
        ensures
            r@ == status_reason(*self),
    {
        match self {
            StatusCode::SwitchingProtocols => "Switching Protocols",
            StatusCode::Okay => "OK",
            StatusCode::Created => "Created",
            StatusCode::Accepted => "Accepted",
            StatusCode::NoContent => "No Content",
            StatusCode::BadRequest => "Bad Request",
            StatusCode::Unauthorized => "Unauthorized",
            StatusCode::PaymentRequired => "Payment Required",
            StatusCode::Forbidden => "Forbidden",
            StatusCode::NotFound => "Not Found",
            StatusCode::MethodNotAllowed => "Method Not Allowed",
            StatusCode::ImATeapot => "I'm a teapot",
            StatusCode::InternalServerError => "Internal Server Error",
        }
    }
}

} // verus!
