//! Frame opcodes.

use vstd::prelude::*;

verus! {

use crate::websocket::error::ProtocolError;

/// The opcode of a single frame.
#[derive(Debug, Clone, Copy, PartialEq, Eq, Structural)]
pub enum OpCode {
    Continue,
    Text,
    Binary,
    Close,
    Ping,
    Pong,
}

/// The wire value of each opcode.
pub open spec fn opcode_num(o: OpCode) -> u8 {
    match o {
        OpCode::Continue => 0x0,
        OpCode::Text => 0x1,
        OpCode::Binary => 0x2,
        OpCode::Close => 0x8,
        OpCode::Ping => 0x9,
        OpCode::Pong => 0xA,
    }
}

/// The opcode a wire value names, if any.
pub open spec fn opcode_of(code: u8) -> Option<OpCode> {
    if code == 0x0 {
        Some(OpCode::Continue)
    } else if code == 0x1 {
        Some(OpCode::Text)
    } else if code == 0x2 {
        Some(OpCode::Binary)
    } else if code == 0x8 {
        Some(OpCode::Close)
    } else if code == 0x9 {
        Some(OpCode::Ping)
    } else if code == 0xA {
        Some(OpCode::Pong)
    } else {
        None
    }
}

/// Whether an opcode names a control frame.
pub open spec fn spec_is_control(o: OpCode) -> bool {
    !(o is Text || o is Binary || o is Continue)
}

impl OpCode {
    /// Reads an opcode from its wire value; any other value is the
    /// invalid-opcode protocol error carrying that value.
    pub fn parse(code: u8) -> (r: Result<Self, ProtocolError>)
        ensures
            r matches Ok(o) ==> opcode_of(code) == Some(o),
            r matches Err(e) ==> opcode_of(code) is None && e == ProtocolError::InvalidOpcode(code),
    {
        if code == 0x0 {
            Ok(OpCode::Continue)
        } else if code == 0x1 {
            Ok(OpCode::Text)
        } else if code == 0x2 {
            Ok(OpCode::Binary)
        } else if code == 0x8 {
            Ok(OpCode::Close)
        } else if code == 0x9 {
            Ok(OpCode::Ping)
        } else if code == 0xA {
            Ok(OpCode::Pong)
        } else {
            Err(ProtocolError::InvalidOpcode(code))
        }
    }

    /// The wire value of this opcode.
    pub fn value(&self) -> (r: u8)
        ensures
            r == opcode_num(*self),
    {
        match self {
            OpCode::Continue => 0x0,
            OpCode::Text => 0x1,
            OpCode::Binary => 0x2,
            OpCode::Close => 0x8,
            OpCode::Ping => 0x9,
            OpCode::Pong => 0xA,
        }
    }

    /// Whether this opcode names a control frame.
    pub fn is_control(&self) -> (r: bool)
        ensures
            r == spec_is_control(*self),
    {
        !matches!(self, OpCode::Text | OpCode::Binary | OpCode::Continue)
    }
}

} // verus!
