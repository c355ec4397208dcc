//! Close codes and the contents of a Close frame.

use vstd::prelude::*;

verus! {

use crate::websocket::error::ProtocolError;

/// The close codes defined by the protocol itself.
#[derive(Debug, Clone, Copy, PartialEq, Eq, Structural)]
pub enum CloseReason {
    Normal,
    GoingAway,
    ProtocolError,
    UnacceptedData,
    Reserved,
    NoStatusCode,
    ClosedAbnormally,
    InconsistentData,
    PolicyViolated,
    TooBig,
    MissingExtension,
    ServerError,
    TlsFailure,
}

/// The numeric value of each defined close code.
pub open spec fn close_reason_num(r: CloseReason) -> u16 {
    match r {
        CloseReason::Normal => 1000,
        CloseReason::GoingAway => 1001,
        CloseReason::ProtocolError => 1002,
        CloseReason::UnacceptedData => 1003,
        CloseReason::Reserved => 1004,
        CloseReason::NoStatusCode => 1005,
        CloseReason::ClosedAbnormally => 1006,
        CloseReason::InconsistentData => 1007,
        CloseReason::PolicyViolated => 1008,
        CloseReason::TooBig => 1009,
        CloseReason::MissingExtension => 1010,
        CloseReason::ServerError => 1011,
        CloseReason::TlsFailure => 1015,
    }
}

/// The defined close codes a peer may actually send.
pub open spec fn accepted_reason_of(code: u16) -> Option<CloseReason> {
    if code == 1000 {
        Some(CloseReason::Normal)
    } else if code == 1001 {
        Some(CloseReason::GoingAway)
    } else if code == 1002 {
        Some(CloseReason::ProtocolError)
    } else if code == 1003 {
        Some(CloseReason::UnacceptedData)
    } else if code == 1007 {
        Some(CloseReason::InconsistentData)
    } else if code == 1008 {
        Some(CloseReason::PolicyViolated)
    } else if code == 1009 {
        Some(CloseReason::TooBig)
    } else if code == 1010 {
        Some(CloseReason::MissingExtension)
    } else if code == 1011 {
        Some(CloseReason::ServerError)
    } else {
        None
    }
}

impl CloseReason {
    /// Reads an accepted defined code; any other value is the
    /// invalid-close-code error carrying that value.
    pub fn parse(code: u16) -> (r: Result<Self, ProtocolError>)
        ensures
            r matches Ok(c) ==> accepted_reason_of(code) == Some(c),
            r matches Err(e) ==> accepted_reason_of(code) is None && e
                == ProtocolError::InvalidCloseCode(code),
    {
        if code == 1000 {
            Ok(CloseReason::Normal)
        } else if code == 1001 {
            Ok(CloseReason::GoingAway)
        } else if code == 1002 {
            Ok(CloseReason::ProtocolError)
        } else if code == 1003 {
            Ok(CloseReason::UnacceptedData)
        } else if code == 1007 {
            Ok(CloseReason::InconsistentData)
        } else if code == 1008 {
            Ok(CloseReason::PolicyViolated)
        } else if code == 1009 {
            Ok(CloseReason::TooBig)
        } else if code == 1010 {
            Ok(CloseReason::MissingExtension)
        } else if code == 1011 {
            Ok(CloseReason::ServerError)
        } else {
            Err(ProtocolError::InvalidCloseCode(code))
        }
    }

    /// The numeric value of this code.
    pub fn code(&self) -> (r: u16)
        ensures
            r == close_reason_num(*self),
    {
        match self {
            CloseReason::Normal => 1000,
            CloseReason::GoingAway => 1001,
            CloseReason::ProtocolError => 1002,
            CloseReason::UnacceptedData => 1003,
            CloseReason::Reserved => 1004,
            CloseReason::NoStatusCode => 1005,
            CloseReason::ClosedAbnormally => 1006,
            CloseReason::InconsistentData => 1007,
            CloseReason::PolicyViolated => 1008,
            CloseReason::TooBig => 1009,
            CloseReason::MissingExtension => 1010,
            CloseReason::ServerError => 1011,
            CloseReason::TlsFailure => 1015,
        }
    }
}

/// The range a received close code falls into.
#[derive(Debug, Clone, Copy, PartialEq, Eq, Structural)]
pub enum CodeRange {
    /// A code defined by the protocol and accepted here.
    Defined(CloseReason),
    /// A code registered with the protocol's registry.
    Registered(u16),
    /// A code in the range reserved for private use.
    Custom(u16),
}

/// How a received close code is classified: accepted defined codes in
/// `1000..=2999`, registered codes in `3000..=3999`, private codes in
/// `4000..=4999`; everything else is refused.
pub open spec fn code_range_of(code: u16) -> Option<CodeRange> {
    if 1000 <= code <= 2999 {
        match accepted_reason_of(code) {
            Some(r) => Some(CodeRange::Defined(r)),
            None => None,
        }
    } else if 3000 <= code <= 3999 {
        Some(CodeRange::Registered(code))
    } else if 4000 <= code <= 4999 {
        Some(CodeRange::Custom(code))
    } else {
        None
    }
}

/// The numeric value a classified code stands for.
pub open spec fn code_range_num(c: CodeRange) -> u16 {
    match c {
        CodeRange::Defined(r) => close_reason_num(r),
        CodeRange::Registered(code) => code,
        CodeRange::Custom(code) => code,
    }
}

impl CodeRange {
    /// The numeric value of this code.
    pub fn code(&self) -> (r: u16)
        ensures
            r == code_range_num(*self),
    {
        match self {
            CodeRange::Defined(close_reason) => close_reason.code(),
            CodeRange::Registered(code) => *code,
            CodeRange::Custom(code) => *code,
        }
    }

    /// Classifies a received code; a refused value is the
    /// invalid-close-code error carrying it.
    pub fn parse(code: u16) -> (r: Result<Self, ProtocolError>)
        ensures
            r matches Ok(c) ==> code_range_of(code) == Some(c),
            r matches Err(e) ==> code_range_of(code) is None && e
                == ProtocolError::InvalidCloseCode(code),
    {
        if 1000 <= code && code <= 2999 {
            match CloseReason::parse(code) {
                Ok(r) => Ok(CodeRange::Defined(r)),
                Err(e) => Err(e),
            }
        } else if 3000 <= code && code <= 3999 {
            Ok(CodeRange::Registered(code))
        } else if 4000 <= code && code <= 4999 {
            Ok(CodeRange::Custom(code))
        } else {
            Err(ProtocolError::InvalidCloseCode(code))
        }
    }
}

/// Classification keeps the numeric value of every accepted code.
pub proof fn lemma_code_range_keeps_code(code: u16)
    ensures
        match code_range_of(code) {
            Some(c) => code_range_num(c) == code,
            None => true,
        },
{
}

/// The contents of a Close frame.
#[derive(Debug, Clone, PartialEq, Eq)]
pub struct Close {
    /// The classified close code.
    pub code: CodeRange,
    /// An optional text telling why the connection closes.
    pub reason: Option<String>,
}

impl Close {
    /// The numeric close code.
    pub fn raw_code(&self) -> (r: u16)
        ensures
            r == code_range_num(self.code),
    {
        self.code.code()
    }
}

} // verus!
