//! Protocol constants of the WebSocket engine.

use vstd::prelude::*;

verus! {

/// The fixed GUID appended to the client key before hashing.
pub const WEBSOCKET_GUID: &'static str = "258EAFA5-E914-47DA-95CA-C5AB0DC85B11";

/// Sent data messages get split into fragments of this size.
pub const SEND_FRAME_CHUNK_SIZE: usize = 10240;

/// The most payload a single received frame may carry: one gibibyte.
pub const MAX_RECV_FRAME_SIZE: u64 = 1073741824;

/// Name of the header that asks for the protocol change.
pub const UPGRADE: &'static str = "Upgrade";

/// Name of the header that marks the connection for upgrading.
pub const CONNECTION: &'static str = "Connection";

/// Name of the header that carries the client's nonce.
pub const SEC_WEBSOCKET_KEY: &'static str = "Sec-WebSocket-Key";

/// Name of the header that carries the subprotocol offer.
pub const SEC_WEBSOCKET_PROTOCOL: &'static str = "Sec-WebSocket-Protocol";

/// Name of the header that carries the protocol version.
pub const SEC_WEBSOCKET_VERSION: &'static str = "Sec-WebSocket-Version";

/// Name of the header that carries the server's accept key.
pub const SEC_WEBSOCKET_ACCEPT: &'static str = "Sec-WebSocket-Accept";

} // verus!
