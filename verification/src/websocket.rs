//! The WebSocket engine: handshake, frame codec, close negotiation and
//! the message-assembly state machine.

pub mod base64;
pub mod close;
pub mod connection;
pub mod consts;
pub mod error;
pub mod frame;
pub mod handshake;
pub mod opcode;
pub mod sha1;

pub use close::{Close, CloseReason, CodeRange};
pub use connection::{TypeLock, RecvStep, WebSocketMessage, WebSocketMessageRef};
pub use error::{Error, ProtocolError};
pub use frame::{WebsocketFrame, WebsocketFrameRef, FrameParse};
pub use handshake::websocket_handshake;
pub use opcode::OpCode;
