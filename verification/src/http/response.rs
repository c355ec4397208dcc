//! Responses and the builder that assembles them.

use vstd::prelude::*;

verus! {

use super::header::{HeaderMap, write_pair};
use super::status::StatusCode;
use vstd::string::StrSliceExecFns;

/// A response before it is rendered to the wire.  The codec stamps
/// `Content-Length` at write time; it is not set here.
#[derive(Debug, Clone, PartialEq, Eq)]
pub struct HttpResponse {
    pub status: StatusCode,
    pub headers: HeaderMap,
    pub body: Option<Vec<u8>>,
}

/// Assembles an [`HttpResponse`] step by step.
pub struct HttpResponseBuilder {
    status: StatusCode,
    header: HeaderMap,
    body: Option<Vec<u8>>,
}

impl HttpResponse {
    /// A fresh builder: status 200, no headers, no body.
    pub fn builder() -> (r: HttpResponseBuilder)
        ensures
            r.spec_status() == StatusCode::Okay,
            r.spec_headers() == Seq::<(Seq<char>, Seq<char>)>::empty(),
            r.spec_body() is None,
    {
        HttpResponseBuilder { status: StatusCode::Okay, header: HeaderMap::empty(), body: None }
    }

    /// An empty 200 response.
    pub fn sucess() -> (r: Self)
        ensures
            r.status == StatusCode::Okay,
            r.headers.pairs() == Seq::<(Seq<char>, Seq<char>)>::empty(),
            r.body is None,
    {
        HttpResponse { status: StatusCode::Okay, headers: HeaderMap::empty(), body: None }
    }

    /// The stock 404 reply used when no route matches.
    pub fn not_found() -> (r: Self)
        ensures
            r.status == StatusCode::NotFound,
            r.body matches Some(b) ==> b@ == vstd::utf8::encode_utf8(
                "The requested resource was not found on the server"@,
            ),
            r.body is Some,
            r.headers.pairs() == seq![("Content-Type"@, "text/plain"@)],
    {
        let r = HttpResponse::builder().status(StatusCode::NotFound).text(
            String::from_str("The requested resource was not found on the server"),
        ).build();
        proof {
            assert(r.headers.pairs() =~= seq![("Content-Type"@, "text/plain"@)]);
        }
        r
    }
}

impl HttpResponseBuilder {
    /// The status the built response will carry.
    pub closed spec fn spec_status(&self) -> StatusCode {
        self.status
    }

    /// The header pairs the built response will carry.
    pub closed spec fn spec_headers(&self) -> Seq<(Seq<char>, Seq<char>)> {
        self.header.pairs()
    }

    /// The body the built response will carry.
    pub closed spec fn spec_body(&self) -> Option<Seq<u8>> {
        match self.body {
            Some(b) => Some(b@),
            None => None,
        }
    }

    /// Sets one header.
    pub fn header(self, key: &str, value: String) -> (r: Self)
        ensures
            r.spec_status() == self.spec_status(),
            r.spec_body() == self.spec_body(),
            r.spec_headers() == write_pair(self.spec_headers(), key@, value@),
    {
        let mut s = self;
        s.header.insert(key, value);
        s
    }

    /// Replaces all headers.
    pub fn headers(self, headers: HeaderMap) -> (r: Self)
        ensures
            r.spec_status() == self.spec_status(),
            r.spec_body() == self.spec_body(),
            r.spec_headers() == headers.pairs(),
    {
        let mut s = self;
        s.header = headers;
        s
    }

    /// Replaces the body.
    pub fn body(self, body: Option<Vec<u8>>) -> (r: Self)
        ensures
            r.spec_status() == self.spec_status(),
            r.spec_headers() == self.spec_headers(),
            r.spec_body() == (match body {
                Some(b) => Some(b@),
                None => None::<Seq<u8>>,
            }),
    {
        let mut s = self;
        s.body = body;
        s
    }

    /// Sets the status.
    pub fn status(self, status: StatusCode) -> (r: Self)
        ensures
            r.spec_status() == status,
            r.spec_headers() == self.spec_headers(),
            r.spec_body() == self.spec_body(),
    {
        let mut s = self;
        s.status = status;
        s
    }

    /// Sets a text body and stamps `Content-Type: text/plain`.
    pub fn text(self, text: String) -> (r: Self)
        ensures
            r.spec_status() == self.spec_status(),
            r.spec_body() == Some(vstd::utf8::encode_utf8(text@)),
            r.spec_headers() == write_pair(
                self.spec_headers(),
                crate::consts::CONTENT_TYPE@,
                "text/plain"@,
            ),
    {
        let mut s = self;
        s.body = Some(text.as_str().as_bytes_vec());
        s.header.insert(crate::consts::CONTENT_TYPE, String::from_str("text/plain"));
        s
    }

    /// Sets a JSON body and stamps `Content-Type: application/json`.
    pub fn json(self, json: String) -> (r: Self)
        ensures
            r.spec_status() == self.spec_status(),
            r.spec_body() == Some(vstd::utf8::encode_utf8(json@)),
            r.spec_headers() == write_pair(
                self.spec_headers(),
                crate::consts::CONTENT_TYPE@,
                "application/json"@,
            ),
    {
        let mut s = self;
        s.body = Some(json.as_str().as_bytes_vec());
        s.header.insert(crate::consts::CONTENT_TYPE, String::from_str("application/json"));
        s
    }

    /// Sets a raw byte body without touching the headers.
    pub fn bytes(self, bytes: Vec<u8>) -> (r: Self)
        ensures
            r.spec_status() == self.spec_status(),
            r.spec_headers() == self.spec_headers(),
            r.spec_body() == Some(bytes@),
    {
        let mut s = self;
        s.body = Some(bytes);
        s
    }

    /// Finishes the response.
    pub fn build(self) -> (r: HttpResponse)
        ensures
            r.status == self.spec_status(),
            r.headers.pairs() == self.spec_headers(),
            (match r.body {
                Some(b) => Some(b@),
                None => None::<Seq<u8>>,
            }) == self.spec_body(),
    {
        HttpResponse { status: self.status, headers: self.header, body: self.body }
    }
}

} // verus!
