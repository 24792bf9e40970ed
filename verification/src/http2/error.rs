//! The established HTTP/2 error codes.

use vstd::prelude::*;

verus! {

/// The global error code registry of RFC 7540 section 11.4.
#[derive(Debug, Clone, Copy, PartialEq, Eq, Structural)]
pub enum ErrorCodes {
    NoError,
    ProtocolError,
    InternalError,
    FlowControlError,
    SettingsTimeout,
    StreamClosed,
    FrameSizeError,
    RefusedStream,
    Cancel,
    CompressionError,
    ConnectError,
    EnhanceYourCalm,
    InadequateSecurity,
    Http1_1Required,
}

/// The numeric value of an error code on the wire.
pub open spec fn error_code_value(c: ErrorCodes) -> u32 {
    match c {
        ErrorCodes::NoError => 0x0,
        ErrorCodes::ProtocolError => 0x1,
        ErrorCodes::InternalError => 0x2,
        ErrorCodes::FlowControlError => 0x3,
        ErrorCodes::SettingsTimeout => 0x4,
        ErrorCodes::StreamClosed => 0x5,
        ErrorCodes::FrameSizeError => 0x6,
        ErrorCodes::RefusedStream => 0x7,
        ErrorCodes::Cancel => 0x8,
        ErrorCodes::CompressionError => 0x9,
        ErrorCodes::ConnectError => 0xa,
        ErrorCodes::EnhanceYourCalm => 0xb,
        ErrorCodes::InadequateSecurity => 0xc,
        ErrorCodes::Http1_1Required => 0xd,
    }
}

impl ErrorCodes {
    /// The error code a registered integer names; integers outside
    /// the registry are not error codes.
    pub fn from_int(code: u32) -> (r: ErrorCodes)
        requires
            code <= 0xd,
        ensures
            error_code_value(r) == code,
    {
        match code {
            0x0 => ErrorCodes::NoError,
            0x1 => ErrorCodes::ProtocolError,
            0x2 => ErrorCodes::InternalError,
            0x3 => ErrorCodes::FlowControlError,
            0x4 => ErrorCodes::SettingsTimeout,
            0x5 => ErrorCodes::StreamClosed,
            0x6 => ErrorCodes::FrameSizeError,
            0x7 => ErrorCodes::RefusedStream,
            0x8 => ErrorCodes::Cancel,
            0x9 => ErrorCodes::CompressionError,
            0xa => ErrorCodes::ConnectError,
            0xb => ErrorCodes::EnhanceYourCalm,
            0xc => ErrorCodes::InadequateSecurity,
            _ => ErrorCodes::Http1_1Required,
        }
    }
}

} // verus!
