//! The event model: a closed set of protocol events, each carrying
//! validated, immutable fields.
//!
//! Validation happens at construction and never later: a `Request`
//! for HTTP/1.1 must name a `Host`, and response status codes must
//! lie in their legal ranges. Downstream components may assume any
//! event they receive already satisfies these invariants.

use vstd::prelude::*;
use vstd::string::StringExecFns;

use crate::headers::{host_label, normalize_fold, Headers};
use crate::num::{dec_chars, dec_string};
use crate::util::LocalProtocolError;

verus! {

/// The bytes of the HTTP version `1.1`.
pub open spec fn http11_label() -> Seq<u8> {
    seq!['1' as u8, '.' as u8, '1' as u8]
}

/// The bytes of `1.1`, as executable data.
pub fn http11_version() -> (r: Vec<u8>)
    ensures
        r@ =~= http11_label(),
{
    vec!['1' as u8, '.' as u8, '1' as u8]
}

/// Whether some triple of `items` carries the lower name `name`.
pub open spec fn has_name(items: Seq<(Seq<u8>, Seq<u8>, Seq<u8>)>, name: Seq<u8>) -> bool {
    exists|k: int| 0 <= k < items.len() && (#[trigger] items[k]).1 == name
}

/// An HTTP request head: method, target, validated headers, and the
/// protocol version it was made with.
#[derive(Debug)]
pub struct Request {
    pub method: Vec<u8>,
    pub headers: Headers,
    pub target: Vec<u8>,
    pub http_version: Vec<u8>,
}

/// A final (non-1xx) HTTP response head.
#[derive(Debug)]
pub struct Response {
    pub status_code: u16,
    pub headers: Headers,
    pub http_version: Vec<u8>,
    pub reason: Vec<u8>,
}

/// An informational (1xx) HTTP response head.
#[derive(Debug)]
pub struct InformationalResponse {
    pub status_code: u16,
    pub headers: Headers,
    pub http_version: Vec<u8>,
    pub reason: Vec<u8>,
}

/// A run of body bytes, with flags marking chunk boundaries.
#[derive(Debug)]
pub struct Data {
    pub data: Vec<u8>,
    pub chunk_start: bool,
    pub chunk_end: bool,
}

/// The end of a message body, with any trailer headers.
#[derive(Debug)]
pub struct EndOfMessage {
    pub headers: Headers,
}

/// The peer closed its side of the connection.
#[derive(Debug)]
pub struct ConnectionClosed;

/// A protocol event.
#[derive(Debug)]
pub enum Event {
    Request(Request),
    InformationalResponse(InformationalResponse),
    Response(Response),
    Data(Data),
    EndOfMessage(EndOfMessage),
    ConnectionClosed(ConnectionClosed),
}

impl Request {
    /// Builds a request head after validating its headers; an
    /// HTTP/1.1 request must carry a `Host` header.
    pub fn new(
        method: Vec<u8>,
        target: Vec<u8>,
        headers: Vec<(Vec<u8>, Vec<u8>)>,
        http_version: Vec<u8>,
    ) -> (r: Result<Request, LocalProtocolError>)
        ensures
            match r {
                Ok(req) => {
                    &&& normalize_fold(headers.deep_view(), false) matches Ok(acc) && req.headers@
                        == acc.out && (http_version@ == http11_label() ==> has_name(
                        acc.out,
                        host_label(),
                    ))
                    &&& req.method@ == method@
                    &&& req.target@ == target@
                    &&& req.http_version@ == http_version@
                },
                Err(e) => match normalize_fold(headers.deep_view(), false) {
                    Err(m) => e.0@ == m,
                    Ok(acc) => http_version@ == http11_label() && !has_name(
                        acc.out,
                        host_label(),
                    ) && e.0@ == "Missing mandatory Host: header"@,
                },
            },
    {
        let validated = match Headers::normalize_and_validate(&headers, false) {
            Ok(h) => h,
            Err(e) => {
                return Err(e);
            },
        };
        let v11 = http11_version();
        if crate::ascii::bytes_eq(http_version.as_slice(), v11.as_slice()) {
            let host = crate::headers::host_name();
            let mut found = false;
            let mut i: usize = 0;
            while i < validated.len()
                invariant
                    i <= validated@.len(),
                    host@ =~= host_label(),
                    found ==> has_name(validated@, host_label()),
                    !found ==> forall|k: int|
                        0 <= k < i ==> (#[trigger] validated@[k]).1 != host_label(),
                decreases validated@.len() - i,
            {
                let item = validated.item_at(i);
                proof {
                    crate::headers::lemma_triple_view(*item);
                }
                if crate::ascii::bytes_eq(item.1.as_slice(), host.as_slice()) {
                    found = true;
                }
                i = i + 1;
            }
            if !found {
                return Err(
                    LocalProtocolError(String::from_str("Missing mandatory Host: header")),
                );
            }
        }
        Ok(Request { method, headers: validated, target, http_version })
    }
}

impl InformationalResponse {
    /// Builds a 1xx response head; the status code must lie in
    /// [100, 200).
    pub fn new(
        status_code: u16,
        headers: Vec<(Vec<u8>, Vec<u8>)>,
        reason: Vec<u8>,
        http_version: Vec<u8>,
    ) -> (r: Result<InformationalResponse, LocalProtocolError>)
        ensures
            match r {
                Ok(resp) => {
                    &&& 100 <= status_code < 200
                    &&& normalize_fold(headers.deep_view(), false) matches Ok(acc) && resp.headers@
                        == acc.out
                    &&& resp.status_code == status_code
                    &&& resp.reason@ == reason@
                    &&& resp.http_version@ == http_version@
                },
                Err(e) => if !(100 <= status_code < 200) {
                    e.0@ == "InformationalResponse status_code should be in range [100, 200), not "@
                        + dec_chars(status_code as nat)
                } else {
                    normalize_fold(headers.deep_view(), false) matches Err(m) && e.0@ == m
                },
            },
    {
        if !(100 <= status_code && status_code < 200) {
            let mut msg = String::from_str(
                "InformationalResponse status_code should be in range [100, 200), not ",
            );
            let digits = dec_string(status_code as usize);
            msg.append(digits.as_str());
            return Err(LocalProtocolError(msg));
        }
        let validated = match Headers::normalize_and_validate(&headers, false) {
            Ok(h) => h,
            Err(e) => {
                return Err(e);
            },
        };
        Ok(InformationalResponse { status_code, headers: validated, reason, http_version })
    }
}

impl Response {
    /// Builds a final response head; the status code must lie in
    /// [200, 1000).
    pub fn new(
        status_code: u16,
        headers: Vec<(Vec<u8>, Vec<u8>)>,
        reason: Vec<u8>,
        http_version: Vec<u8>,
    ) -> (r: Result<Response, LocalProtocolError>)
        ensures
            match r {
                Ok(resp) => {
                    &&& 200 <= status_code < 1000
                    &&& normalize_fold(headers.deep_view(), false) matches Ok(acc) && resp.headers@
                        == acc.out
                    &&& resp.status_code == status_code
                    &&& resp.reason@ == reason@
                    &&& resp.http_version@ == http_version@
                },
                Err(e) => if !(200 <= status_code < 1000) {
                    e.0@ == "Response status_code should be in range [200, 1000), not "@
                        + dec_chars(status_code as nat)
                } else {
                    normalize_fold(headers.deep_view(), false) matches Err(m) && e.0@ == m
                },
            },
    {
        if !(200 <= status_code && status_code < 1000) {
            let mut msg = String::from_str(
                "Response status_code should be in range [200, 1000), not ",
            );
            let digits = dec_string(status_code as usize);
            msg.append(digits.as_str());
            return Err(LocalProtocolError(msg));
        }
        let validated = match Headers::normalize_and_validate(&headers, false) {
            Ok(h) => h,
            Err(e) => {
                return Err(e);
            },
        };
        Ok(Response { status_code, headers: validated, reason, http_version })
    }
}

impl Data {
    /// Wraps a run of body bytes with its chunk-boundary flags.
    pub fn new(data: Vec<u8>, chunk_start: bool, chunk_end: bool) -> (r: Data)
        ensures
            r.data@ == data@,
            r.chunk_start == chunk_start,
            r.chunk_end == chunk_end,
    {
        Data { data, chunk_start, chunk_end }
    }
}

impl EndOfMessage {
    /// Wraps optional trailer headers, validating them; absent
    /// trailers mean an empty header block.
    pub fn new(headers: Option<Vec<(Vec<u8>, Vec<u8>)>>) -> (r: EndOfMessage)
        requires
            headers matches Some(h) ==> normalize_fold(h.deep_view(), false) is Ok,
        ensures
            match headers {
                Some(h) => r.headers@ == normalize_fold(h.deep_view(), false)->Ok_0.out,
                None => r.headers@ =~= Seq::<(Seq<u8>, Seq<u8>, Seq<u8>)>::empty(),
            },
    {
        match headers {
            Some(h) => {
                let validated = match Headers::normalize_and_validate(&h, false) {
                    Ok(v) => v,
                    Err(_) => {
                        proof {
                            assert(false);
                        }
                        Headers::new(Vec::new())
                    },
                };
                EndOfMessage { headers: validated }
            },
            None => EndOfMessage { headers: Headers::new(Vec::new()) },
        }
    }
}

impl ConnectionClosed {
    /// The unit marker of a peer close.
    pub fn new() -> ConnectionClosed {
        ConnectionClosed
    }
}

impl Event {
    /// Accepts any method bytes; the wire parser enforces the grammar
    /// before an event is built from received bytes.
    pub fn validate_method(&self, method: &[u8]) -> (r: Result<(), LocalProtocolError>)
        ensures
            r is Ok,
    {
        let _ = method;
        Ok(())
    }

    /// Accepts any target bytes; the wire parser enforces the grammar
    /// before an event is built from received bytes.
    pub fn validate_target(&self, target: &[u8]) -> (r: Result<(), LocalProtocolError>)
        ensures
            r is Ok,
    {
        let _ = target;
        Ok(())
    }
}

} // verus!
