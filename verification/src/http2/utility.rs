//! Boundary types and checks of the embryonic HTTP/2 layer.

use vstd::prelude::*;
use vstd::string::StringExecFns;

verus! {

/// The largest flow-control window RFC 7540 permits.
pub const LARGEST_FLOW_CONTROL_WINDOW: u32 = 0x7fffffff;

/// The peer violated the HTTP/2 protocol.
#[derive(Debug)]
pub struct ProtocolError(pub String);

/// A flow-control accounting rule was violated.
#[derive(Debug)]
pub struct FlowControlError(pub String);

/// A header-block validation rule was violated.
#[derive(Debug)]
pub struct HeaderValidationError(pub String);

/// Where a header block stands, which decides which pseudo-header
/// fields it may carry.
#[derive(Debug, Clone, Copy, PartialEq, Eq, Structural)]
pub struct HeaderValidationFlags {
    pub is_client: bool,
    pub is_trailer: bool,
    pub is_response_header: bool,
    pub is_push_promise: bool,
}

/// Grows a flow-control window, refusing growth past the largest
/// window the protocol permits.
pub fn guard_increment_window(current: u32, increment: u32) -> (r: Result<
    u32,
    FlowControlError,
>)
    ensures
        current + increment <= LARGEST_FLOW_CONTROL_WINDOW ==> (r matches Ok(n) && n == current
            + increment),
        current + increment > LARGEST_FLOW_CONTROL_WINDOW ==> (r matches Err(e) && e.0@
            == "May not increment flow control window past 2147483647"@),
{
    let new_size = (current as u64) + (increment as u64);
    if new_size > (LARGEST_FLOW_CONTROL_WINDOW as u64) {
        return Err(
            FlowControlError(
                String::from_str("May not increment flow control window past 2147483647"),
            ),
        );
    }
    Ok(new_size as u32)
}

} // verus!
