//! A small HTTP/1.1 + WebSocket server core.
//!
//! The crate holds the wire-level logic of a tiny web framework: the
//! HTTP request parser and response writer, the URL query parser, the
//! route table and its resolution, and the WebSocket handshake, frame
//! codec and message-assembly state machine.  Every function here is
//! verified; the surrounding socket loop lives outside the crate and
//! only shuttles bytes in and out.

pub mod consts;
pub mod http;
pub mod server;
pub mod url;
pub mod websocket;

mod error;
mod text;

pub use error::Error;
