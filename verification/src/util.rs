//! Protocol error types shared across the engine, and small helpers.
//!
//! A `LocalProtocolError` reports that this side attempted something
//! illegal; a `RemoteProtocolError` reports that the peer's bytes or
//! behaviour violate the protocol. `ProtocolError` carries either kind
//! together with a suggested HTTP status code hint.

use vstd::prelude::*;
use vstd::string::StringExecFns;

verus! {

/// An error attributed to one side of the connection, with a
/// human-readable message and a suggested HTTP status code hint.
#[derive(Debug, Clone)]
pub enum ProtocolError {
    LocalProtocolError { message: String, error_status_hint: u16 },
    RemoteProtocolError { message: String, error_status_hint: u16 },
}

impl ProtocolError {
    /// A new error attributed to this side.
    pub fn new_local(message: &str, error_status_hint: u16) -> (r: ProtocolError)
        ensures
            r matches ProtocolError::LocalProtocolError { message: m, error_status_hint: h }
                && m@ == message@ && h == error_status_hint,
    {
        ProtocolError::LocalProtocolError {
            message: String::from_str(message),
            error_status_hint,
        }
    }

    /// A new error attributed to the peer.
    pub fn new_remote(message: &str, error_status_hint: u16) -> (r: ProtocolError)
        ensures
            r matches ProtocolError::RemoteProtocolError { message: m, error_status_hint: h }
                && m@ == message@ && h == error_status_hint,
    {
        ProtocolError::RemoteProtocolError {
            message: String::from_str(message),
            error_status_hint,
        }
    }

    /// The status code hint carried by either kind.
    pub fn error_status_hint(&self) -> (r: u16)
        ensures
            r == match self {
                ProtocolError::LocalProtocolError { error_status_hint, .. } => *error_status_hint,
                ProtocolError::RemoteProtocolError { error_status_hint, .. } => *error_status_hint,
            },
    {
        match self {
            ProtocolError::LocalProtocolError { error_status_hint, .. } => *error_status_hint,
            ProtocolError::RemoteProtocolError { error_status_hint, .. } => *error_status_hint,
        }
    }
}

/// This side attempted something the protocol forbids.
#[derive(Debug, Clone)]
pub struct LocalProtocolError(pub String);

/// The peer's bytes or behaviour violate the protocol.
#[derive(Debug, Clone)]
pub struct RemoteProtocolError(pub String);

/// Marker for types that act as sentinel values.
pub trait Sentinel {

}

/// A unit sentinel.
#[derive(Debug)]
pub struct SentinelType;

impl Sentinel for SentinelType {

}

/// Copies ASCII-compatible bytes into an owned vector.
pub fn bytesify(input: &[u8]) -> (r: Vec<u8>)
    requires
        forall|i: int| 0 <= i < input@.len() ==> #[trigger] input@[i] < 0x80,
    ensures
        r@ =~= input@,
{
    let mut out: Vec<u8> = Vec::new();
    let mut i: usize = 0;
    while i < input.len()
        invariant
            i <= input@.len(),
            out@ =~= input@.take(i as int),
        decreases input@.len() - i,
    {
        out.push(input[i]);
        i = i + 1;
    }
    proof {
        assert(input@.take(input@.len() as int) =~= input@);
    }
    out
}

} // verus!
