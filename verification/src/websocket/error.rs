//! WebSocket errors: protocol violations by the peer, and local
//! failures of the stream the caller owns.

use vstd::prelude::*;

verus! {

use crate::text::{ascii_view, all_ascii};

/// Why a WebSocket operation failed.
#[derive(Debug, Clone, PartialEq, Eq)]
pub enum Error {
    /// The peer broke the protocol; a Close was sent back.
    Protocol(ProtocolError),
    /// The local stream failed; raised by the caller that owns it.
    Local,
}

/// A protocol violation by the peer.
#[derive(Debug, Clone, Copy, PartialEq, Eq, Structural)]
pub enum ProtocolError {
    ControlPayloadTooLarge(u64),
    PayloadTooLarge(u64),
    UnmaskedClientMessage,
    ReservedBitsSet,
    InvalidOpcode(u8),
    AttemptToStartNewMessageWithoutFin,
    ContinueWithoutStart,
    ControlFrameNotFin,
    InvalidCloseFrame,
    InvalidCloseCode(u16),
    InvalidUtf8,
}

/// The decimal digit bytes of a 64-bit number.
pub open spec fn dec_digits_u64(n: nat) -> Seq<u8>
    decreases n,
{
    if n < 10 {
        seq![(48 + n) as u8]
    } else {
        dec_digits_u64(n / 10).push((48 + n % 10) as u8)
    }
}

/// Decimal digits are ASCII.
pub proof fn lemma_dec_digits_u64_ascii(n: nat)
    ensures
        all_ascii(dec_digits_u64(n)),
        dec_digits_u64(n).len() >= 1,
    decreases n,
{
    if n >= 10 {
        lemma_dec_digits_u64_ascii(n / 10);
    }
}

/// Writes the decimal digits of `n` onto the end of `out`.
pub fn push_dec_u64(n: u64, out: &mut Vec<u8>)
    ensures
        final(out)@ == old(out)@ + dec_digits_u64(n as nat),
    decreases n,
{
    if n < 10 {
        out.push(48 + n as u8);
        proof {
            assert(final(out)@ =~= old(out)@ + dec_digits_u64(n as nat));
        }
    } else {
        push_dec_u64(n / 10, out);
        out.push(48 + (n % 10) as u8);
        proof {
            assert(final(out)@ =~= old(out)@ + dec_digits_u64(n as nat));
        }
    }
}

/// The decimal rendering of a 64-bit number.
pub fn dec_string_u64(n: u64) -> (r: String)
    ensures
        r@ == ascii_view(dec_digits_u64(n as nat)),
{
    let mut out: Vec<u8> = Vec::new();
    push_dec_u64(n, &mut out);
    proof {
        lemma_dec_digits_u64_ascii(n as nat);
        assert(out@ =~= dec_digits_u64(n as nat));
    }
    crate::text::ascii_to_string(out)
}

/// The decimal rendering of a 16-bit number.
pub fn dec_string_u16(n: u16) -> (r: String)
    ensures
        r@ == ascii_view(dec_digits_u64(n as nat)),
{
    dec_string_u64(n as u64)
}

/// The rendering `message` returns for each protocol error.
pub open spec fn protocol_message_view(e: ProtocolError) -> Seq<char> {
    match e {
        ProtocolError::ControlPayloadTooLarge(size) => (
        "Control frame had a too large payload (allowed: 125, got: "@ + ascii_view(
            dec_digits_u64(size as nat),
        ) + ")"@),
        ProtocolError::UnmaskedClientMessage => "Client message was not masked"@,
        ProtocolError::ReservedBitsSet => (
        "Reserved bits were set when no extension protocol using these bits was negotiated"@),
        ProtocolError::InvalidOpcode(code) => "Recieved invalid opcode: "@ + ascii_view(
            dec_digits_u64(code as nat),
        ),
        ProtocolError::AttemptToStartNewMessageWithoutFin => (
        "Attempted to start a new message without finishing an existing one"@),
        ProtocolError::ContinueWithoutStart => (
        "Sent continue frame without having started a message"@),
        ProtocolError::ControlFrameNotFin => "Sent a control frame without fin bit set"@,
        ProtocolError::InvalidCloseFrame => "Recieved an invalid close frame"@,
        ProtocolError::InvalidCloseCode(code) => "Invalid close code: "@ + ascii_view(
            dec_digits_u64(code as nat),
        ),
        ProtocolError::InvalidUtf8 => "Sent invalid UTF-8"@,
        ProtocolError::PayloadTooLarge(len) => (
        "The payload was too large for this implementation: "@ + ascii_view(
            dec_digits_u64(len as nat),
        ) + " (max: 1073741824)"@),
    }
}

impl ProtocolError {
    /// Wraps the violation as a connection error.
    pub fn err(self) -> (r: Error)
        ensures
            r == Error::Protocol(self),
    {
        Error::Protocol(self)
    }

    /// A human-readable rendering of the violation, used as the reason
    /// of the Close frame that reports it.
    pub fn message(&self) -> (r: String)
        ensures
            r@ == protocol_message_view(*self),
    {
        match self {
            ProtocolError::ControlPayloadTooLarge(size) => String::from_str(
                "Control frame had a too large payload (allowed: 125, got: ",
            ).concat(dec_string_u64(*size).as_str()).concat(")"),
            ProtocolError::UnmaskedClientMessage => String::from_str(
                "Client message was not masked",
            ),
            ProtocolError::ReservedBitsSet => String::from_str(
                "Reserved bits were set when no extension protocol using these bits was negotiated",
            ),
            ProtocolError::InvalidOpcode(code) => String::from_str(
                "Recieved invalid opcode: ",
            ).concat(dec_string_u64(*code as u64).as_str()),
            ProtocolError::AttemptToStartNewMessageWithoutFin => String::from_str(
                "Attempted to start a new message without finishing an existing one",
            ),
            ProtocolError::ContinueWithoutStart => String::from_str(
                "Sent continue frame without having started a message",
            ),
            ProtocolError::ControlFrameNotFin => String::from_str(
                "Sent a control frame without fin bit set",
            ),
            ProtocolError::InvalidCloseFrame => String::from_str(
                "Recieved an invalid close frame",
            ),
            ProtocolError::InvalidCloseCode(code) => String::from_str(
                "Invalid close code: ",
            ).concat(dec_string_u16(*code).as_str()),
            ProtocolError::InvalidUtf8 => String::from_str("Sent invalid UTF-8"),
            ProtocolError::PayloadTooLarge(len) => String::from_str(
                "The payload was too large for this implementation: ",
            ).concat(dec_string_u64(*len).as_str()).concat(" (max: 1073741824)"),
        }
    }
}


/// The close code each violation is reported with: `1007` for bad
/// text, `1009` for an oversized payload, `1002` otherwise.
pub open spec fn close_code_of(e: ProtocolError) -> crate::websocket::close::CloseReason {
    match e {
        ProtocolError::InvalidUtf8 => crate::websocket::close::CloseReason::InconsistentData,
        ProtocolError::PayloadTooLarge(_) => crate::websocket::close::CloseReason::TooBig,
        _ => crate::websocket::close::CloseReason::ProtocolError,
    }
}

impl ProtocolError {
    /// The Close contents that report this violation to the peer.
    pub fn close(&self) -> (r: crate::websocket::close::Close)
        ensures
            r.code == crate::websocket::close::CodeRange::Defined(close_code_of(*self)),
            r.reason matches Some(t) ==> t@ == protocol_message_view(*self),
            r.reason is Some,
    {
        crate::websocket::close::Close {
            code: crate::websocket::close::CodeRange::Defined(
                match self {
                    ProtocolError::InvalidUtf8 => crate::websocket::close::CloseReason::InconsistentData,
                    ProtocolError::PayloadTooLarge(_) => crate::websocket::close::CloseReason::TooBig,
                    _ => crate::websocket::close::CloseReason::ProtocolError,
                },
            ),
            reason: Some(self.message()),
        }
    }
}

} // verus!
