//! The upgrade handshake: checking the client's headers and building
//! the `101 Switching Protocols` reply with the accept key.

use vstd::prelude::*;

verus! {

use crate::error::Error;
use crate::http::request::HttpRequest;
use crate::http::response::HttpResponse;
use crate::http::status::StatusCode;
use crate::text::{lower_bytes, ascii_lowercase, bytes_eq};
use crate::websocket::base64;
use crate::websocket::consts::{UPGRADE, SEC_WEBSOCKET_KEY, SEC_WEBSOCKET_ACCEPT, CONNECTION,
    WEBSOCKET_GUID};
use crate::websocket::sha1::{sha1, sha1_of};
use crate::websocket::base64::base64_of;
use crate::text::ascii_view;
use vstd::utf8::encode_utf8;

/// The accept key computed for a client key: the base64 encoding of
/// the SHA-1 digest of the key with the fixed GUID appended.
pub open spec fn accept_key_of(key: Seq<char>) -> Seq<char> {
    ascii_view(
        base64_of(sha1_of(encode_utf8(key + "258EAFA5-E914-47DA-95CA-C5AB0DC85B11"@))),
    )
}

/// Whether the `Upgrade` header is present and spells `websocket` in
/// any ASCII case.
pub open spec fn upgrade_header_ok(req: &HttpRequest) -> bool {
    &&& req.headers.has_key("Upgrade"@)
    &&& lower_bytes(encode_utf8(req.headers.value_of("Upgrade"@))) == encode_utf8("websocket"@)
}

/// Whether the client key is present, with a UTF-8 form that stays
/// within the digest's reach.
pub open spec fn websocket_key_ok(req: &HttpRequest) -> bool {
    &&& req.headers.has_key("Sec-WebSocket-Key"@)
    &&& encode_utf8(req.headers.value_of("Sec-WebSocket-Key"@)).len() <= 0xFFFFFFFF
}

/// Whether a request asks for the upgrade properly: the `Upgrade`
/// header is right and the key is usable.
pub open spec fn upgrade_ok(req: &HttpRequest) -> bool {
    &&& upgrade_header_ok(req)
    &&& websocket_key_ok(req)
}

/// The headers of the `101` reply, in the order they are set.
pub open spec fn handshake_headers(key: Seq<char>) -> Seq<(Seq<char>, Seq<char>)> {
    seq![
        ("Sec-WebSocket-Accept"@, accept_key_of(key)),
        ("Connection"@, "Upgrade"@),
        ("Upgrade"@, "websocket"@),
    ]
}

/// Checks the upgrade headers of a request and builds the `101`
/// reply that switches the connection to the WebSocket protocol.
/// The caller writes the reply to its stream and then owns the
/// connection as a WebSocket session.
#[verifier::rlimit(100)]
pub fn websocket_handshake(req: &HttpRequest) -> (r: Result<HttpResponse, Error>)
    ensures
        r is Ok <==> upgrade_ok(req),
        r matches Ok(resp) ==> {
            &&& resp.status == StatusCode::SwitchingProtocols
            &&& resp.headers.pairs() == handshake_headers(
                req.headers.value_of("Sec-WebSocket-Key"@),
            )
            &&& resp.body is None
        },
        r matches Err(e) ==> (match e {
            Error::MissingOrInvalidWebsocketHeader { header } => {
                &&& (header@ == "Upgrade"@ <==> !upgrade_header_ok(req))
                &&& (header@ == "Sec-WebSocket-Key"@ <==> upgrade_header_ok(req)
                    && !websocket_key_ok(req))
                &&& (header@ == "Upgrade"@ || header@ == "Sec-WebSocket-Key"@)
            },
            _ => false,
        }),
{
    let upgrade_ok_flag = match req.headers.get(UPGRADE) {
        Some(value) => {
            let lowered = ascii_lowercase(value.as_str().as_bytes());
            bytes_eq(lowered.as_slice(), "websocket".as_bytes())
        },
        None => false,
    };
    if !upgrade_ok_flag {
        proof {
            reveal_strlit("Upgrade");
            reveal_strlit("Sec-WebSocket-Key");
            assert("Upgrade"@.len() == 7);
            assert("Sec-WebSocket-Key"@.len() == 17);
        }
        return Err(Error::MissingOrInvalidWebsocketHeader { header: UPGRADE });
    }
    let key = match req.headers.get(SEC_WEBSOCKET_KEY) {
        Some(key) => key,
        None => {
            proof {
                reveal_strlit("Upgrade");
                reveal_strlit("Sec-WebSocket-Key");
                assert("Upgrade"@.len() == 7);
                assert("Sec-WebSocket-Key"@.len() == 17);
            }
            return Err(Error::MissingOrInvalidWebsocketHeader { header: SEC_WEBSOCKET_KEY });
        },
    };
    if key.as_str().as_bytes().len() > 0xFFFFFFFFusize {
        proof {
            reveal_strlit("Upgrade");
            reveal_strlit("Sec-WebSocket-Key");
            assert("Upgrade"@.len() == 7);
            assert("Sec-WebSocket-Key"@.len() == 17);
        }
        return Err(Error::MissingOrInvalidWebsocketHeader { header: SEC_WEBSOCKET_KEY });
    }
    let mut joined = key.clone();
    joined.append(WEBSOCKET_GUID);
    proof {
        reveal_strlit("258EAFA5-E914-47DA-95CA-C5AB0DC85B11");
        crate::text::lemma_encode_utf8_concat(key@, WEBSOCKET_GUID@);
        crate::text::lemma_encode_utf8_len(WEBSOCKET_GUID@);
    }
    let digest = sha1(joined.as_str().as_bytes());
    let b64encoded = base64::encode(digest.as_slice());
    let b1 = HttpResponse::builder().status(StatusCode::SwitchingProtocols).header(
        SEC_WEBSOCKET_ACCEPT,
        b64encoded,
    );
    proof {
        reveal_strlit("Sec-WebSocket-Accept");
        reveal_strlit("Connection");
        reveal_strlit("Upgrade");
        assert("Sec-WebSocket-Accept"@.len() == 20);
        assert("Connection"@.len() == 10);
        assert("Upgrade"@.len() == 7);
        assert("Sec-WebSocket-Accept"@ != "Connection"@);
        assert("Sec-WebSocket-Accept"@ != "Upgrade"@);
        assert(b1.spec_headers() =~= seq![("Sec-WebSocket-Accept"@, accept_key_of(key@))]);
        crate::http::header::lemma_find_key(b1.spec_headers(), "Connection"@);
        assert(crate::http::header::find_key(b1.spec_headers(), "Connection"@) == -1);
    }
    let b2 = b1.header(CONNECTION, String::from_str("Upgrade"));
    proof {
        reveal_strlit("Sec-WebSocket-Accept");
        reveal_strlit("Connection");
        reveal_strlit("Upgrade");
        assert(b2.spec_headers() =~= seq![
            ("Sec-WebSocket-Accept"@, accept_key_of(key@)),
            ("Connection"@, "Upgrade"@),
        ]);
        crate::http::header::lemma_find_key(b2.spec_headers(), "Upgrade"@);
        assert(crate::http::header::find_key(b2.spec_headers(), "Upgrade"@) == -1);
    }
    let response = b2.header(UPGRADE, String::from_str("websocket")).build();
    proof {
        assert(response.headers.pairs() =~= handshake_headers(
            req.headers.value_of("Sec-WebSocket-Key"@),
        ));
    }
    Ok(response)
}

} // verus!
