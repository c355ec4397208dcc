//! The error reported when an HTTP request cannot be parsed or a
//! WebSocket upgrade is refused.

use vstd::prelude::*;

verus! {

use crate::text::{ascii_view, dec_digits, ascii_to_string, dec_bytes};

/// Why parsing an HTTP request, or upgrading it, failed.
#[derive(Debug, Clone, PartialEq, Eq)]
pub enum Error {
    /// The underlying stream failed; raised by the caller that owns it.
    Io,
    /// A required field was empty.
    Empty,
    /// A header line was malformed or not text.
    InvalidHeader,
    /// The request line carried no request-target.
    NoUri,
    /// The request line began with an unknown verb.
    InvalidMethod { recieved: String },
    /// A header held a value it must not hold.
    InvalidHeaderValue { header: String },
    /// Fewer body bytes arrived than `Content-Length` announced.
    BodyTooShort { expt: usize, got: usize },
    /// The request line named a version other than HTTP/1.1.
    UnsupportedVersion,
    /// A header needed for the WebSocket upgrade was missing or wrong.
    MissingOrInvalidWebsocketHeader { header: &'static str },
}

/// The rendering `message` returns for each error.
pub open spec fn message_view(e: &Error) -> Seq<char> {
    match e {
        Error::Io => "Io Error"@,
        Error::Empty => "A required field was empty"@,
        Error::InvalidHeader => "A header was invalid"@,
        Error::NoUri => "No URI was provided"@,
        Error::InvalidMethod { recieved } => "Invalid method '"@ + recieved@ + "'"@,
        Error::InvalidHeaderValue { header } => "Header "@ + header@
            + " contains an invalid value"@,
        Error::BodyTooShort { expt, got } => "Body too short. Expected "@ + ascii_view(
            dec_digits(*expt as nat),
        ) + " got "@ + ascii_view(dec_digits(*got as nat)),
        Error::UnsupportedVersion => "The specified HTTP version is not supported"@,
        Error::MissingOrInvalidWebsocketHeader { header } => (
        "Missing or invalid header for websocket upgrade: "@ + header@),
    }
}

impl Error {
    /// A human-readable rendering of the error, used as the body of the
    /// `400 Bad Request` reply.
    pub fn message(&self) -> (r: String)
        ensures
            r@ == message_view(self),
    {
        match self {
            Error::Io => String::from_str("Io Error"),
            Error::Empty => String::from_str("A required field was empty"),
            Error::InvalidHeader => String::from_str("A header was invalid"),
            Error::NoUri => String::from_str("No URI was provided"),
            Error::InvalidMethod { recieved } => String::from_str("Invalid method '").concat(
                recieved.as_str(),
            ).concat("'"),
            Error::InvalidHeaderValue { header } => String::from_str("Header ").concat(
                header.as_str(),
            ).concat(" contains an invalid value"),
            Error::BodyTooShort { expt, got } => {
                proof {
                    crate::text::lemma_dec_digits_ascii(*expt as nat);
                    crate::text::lemma_dec_digits_ascii(*got as nat);
                }
                let e = ascii_to_string(dec_bytes(*expt));
                let g = ascii_to_string(dec_bytes(*got));
                String::from_str("Body too short. Expected ").concat(e.as_str()).concat(
                    " got ",
                ).concat(g.as_str())
            },
            Error::UnsupportedVersion => String::from_str(
                "The specified HTTP version is not supported",
            ),
            Error::MissingOrInvalidWebsocketHeader { header } => String::from_str(
                "Missing or invalid header for websocket upgrade: ",
            ).concat(header),
        }
    }
}

} // verus!
