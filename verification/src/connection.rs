//! The connection façade: callers push received bytes in with
//! `receive_data`, pull parsed protocol events out with `next_event`,
//! and hand outbound events to `send` to get bytes to transmit.
//!
//! The façade composes the receive buffer, header validation, the
//! event model, the per-role state machine and the body-framing
//! readers; everything it does is a function of the bytes supplied
//! and the events sent, with no I/O of its own.

use vstd::prelude::*;
use vstd::string::StringExecFns;

use crate::events::{
    ConnectionClosed, Data, EndOfMessage, Event, InformationalResponse, Request, Response,
};
use crate::headers::{
    chunked_label, comma_values, content_length_label, normalize_fold, transfer_encoding_label,
    Headers,
};
use crate::num::dec_val;
use crate::readers::{chunked_read_spec, BodyReader, ChunkedReader, ContentLengthReader, Http10Reader};
use crate::receive_buffer::{cr, first_blank, lf, split_crlf, ReceiveBuffer};
use crate::state::{process_event_spec, ConnectionState, EventType};
use crate::ascii::is_digits;

verus! {

/// The default bound on how much unparseable data may accumulate
/// before the engine concludes the input is not a valid message.
pub const DEFAULT_MAX_INCOMPLETE_EVENT_SIZE: usize = 16 * 1024;

/// Sentinel outcomes a caller may see in place of an event: more
/// bytes are needed, or progress awaits caller action.
#[derive(Debug, Clone, Copy, PartialEq, Eq, Structural)]
pub enum Sentinel {
    NeedData,
    Paused,
}

/// Which side of the connection this engine plays.
#[derive(Debug, Clone, Copy, PartialEq, Eq, Structural)]
pub enum Role {
    Client,
    Server,
}

/// The state-machine sentinel of a role.
pub open spec fn role_sentinel(r: Role) -> crate::state::Sentinel {
    match r {
        Role::Client => crate::state::Sentinel::Client,
        Role::Server => crate::state::Sentinel::Server,
    }
}

/// Whether either role sits in the error state.
pub open spec fn in_error(cs: ConnectionState) -> bool {
    cs.client_state == crate::state::Sentinel::Error || cs.server_state
        == crate::state::Sentinel::Error
}

/// The first index of `items` whose lower name is `name`, or the
/// length when none matches.
pub open spec fn find_name(items: Seq<(Seq<u8>, Seq<u8>, Seq<u8>)>, name: Seq<u8>) -> nat
    decreases items.len(),
{
    if items.len() == 0 {
        0
    } else if items[0].1 == name {
        0
    } else {
        1 + find_name(items.drop_first(), name)
    }
}

/// Whether the headers select chunked framing.
pub open spec fn chunked_selected(items: Seq<(Seq<u8>, Seq<u8>, Seq<u8>)>) -> bool {
    comma_values(items, transfer_encoding_label()).contains(chunked_label())
}

/// The body reader the headers select: chunked wins, then a declared
/// Content-Length, and otherwise a zero-length body for requests or
/// close-delimited framing for responses. `None` stands for an
/// unusable Content-Length value.
pub open spec fn select_reader_spec(
    items: Seq<(Seq<u8>, Seq<u8>, Seq<u8>)>,
    is_request: bool,
) -> Option<BodyReader> {
    if chunked_selected(items) {
        Some(
            BodyReader::Chunked(
                ChunkedReader { bytes_in_chunk: 0, bytes_to_discard: 0, reading_trailer: false },
            ),
        )
    } else if find_name(items, content_length_label()) < items.len() {
        let v = items[find_name(items, content_length_label()) as int].2;
        if is_digits(v) && dec_val(v) <= usize::MAX {
            Some(
                BodyReader::ContentLength(
                    ContentLengthReader {
                        length: dec_val(v) as usize,
                        remaining: dec_val(v) as usize,
                    },
                ),
            )
        } else {
            None
        }
    } else if is_request {
        Some(BodyReader::ContentLength(ContentLengthReader { length: 0, remaining: 0 }))
    } else {
        Some(BodyReader::Http10(Http10Reader))
    }
}

/// Picks the body reader the validated headers call for.
fn select_reader(headers: &Headers, is_request: bool) -> (r: Result<BodyReader, String>)
    ensures
        match r {
            Ok(rd) => select_reader_spec(headers@, is_request) == Some(rd),
            Err(m) => select_reader_spec(headers@, is_request) is None && m@
                == "bad Content-Length"@,
        },
{
    let te = crate::headers::transfer_encoding_name();
    let values = headers.get_comma_header(te.as_slice());
    let chunked = crate::headers::chunked_value();
    let mut is_chunked = false;
    let mut i: usize = 0;
    while i < values.len()
        invariant
            i <= values@.len(),
            values.deep_view() =~= comma_values(headers@, transfer_encoding_label()),
            values.deep_view().len() == values@.len(),
            chunked@ =~= chunked_label(),
            is_chunked ==> chunked_selected(headers@),
            !is_chunked ==> forall|j: int|
                0 <= j < i ==> values.deep_view()[j] != chunked_label(),
        decreases values@.len() - i,
    {
        proof {
            assert(values.deep_view()[i as int] == values@[i as int].deep_view());
            assert(values@[i as int].deep_view() =~= values@[i as int]@);
        }
        if crate::ascii::bytes_eq(values[i].as_slice(), chunked.as_slice()) {
            proof {
                assert(comma_values(headers@, transfer_encoding_label())[i as int]
                    == chunked_label());
            }
            is_chunked = true;
        }
        i = i + 1;
    }
    if is_chunked {
        return Ok(BodyReader::Chunked(ChunkedReader::new()));
    }
    proof {
        assert(!chunked_selected(headers@)) by {
            if chunked_selected(headers@) {
                let k = choose|k: int|
                    0 <= k < comma_values(headers@, transfer_encoding_label()).len()
                        && comma_values(headers@, transfer_encoding_label())[k]
                        == chunked_label();
            }
        }
    }
    let cl = crate::headers::content_length_name();
    let mut j: usize = 0;
    proof {
        assert(headers@.skip(0) =~= headers@);
    }
    while j < headers.len()
        invariant
            j <= headers@.len(),
            cl@ =~= content_length_label(),
            !chunked_selected(headers@),
            forall|k: int| 0 <= k < j ==> (#[trigger] headers@[k]).1 != content_length_label(),
        decreases headers@.len() - j,
    {
        let item = headers.item_at(j);
        proof {
            crate::headers::lemma_triple_view(*item);
        }
        if crate::ascii::bytes_eq(item.1.as_slice(), cl.as_slice()) {
            proof {
                lemma_find_name_at(headers@, content_length_label(), j as int);
            }
            if !crate::http_regex::matches_digits(item.2.as_slice()) {
                return Err(String::from_str("bad Content-Length"));
            }
            match crate::num::parse_dec(item.2.as_slice()) {
                Some(n) => {
                    return Ok(BodyReader::ContentLength(ContentLengthReader::new(n)));
                },
                None => {
                    return Err(String::from_str("bad Content-Length"));
                },
            }
        }
        j = j + 1;
    }
    proof {
        lemma_find_name_at(headers@, content_length_label(), headers@.len() as int);
    }
    if is_request {
        Ok(BodyReader::ContentLength(ContentLengthReader::new(0)))
    } else {
        Ok(BodyReader::Http10(Http10Reader))
    }
}

/// `find_name` stays in bounds and lands on a matching entry when
/// one exists at all.
pub proof fn lemma_find_name_props(items: Seq<(Seq<u8>, Seq<u8>, Seq<u8>)>, name: Seq<u8>)
    ensures
        find_name(items, name) <= items.len(),
        find_name(items, name) < items.len() ==> items[find_name(items, name) as int].1 == name,
    decreases items.len(),
{
    if items.len() == 0 {
    } else if items[0].1 == name {
    } else {
        lemma_find_name_props(items.drop_first(), name);
        if find_name(items, name) < items.len() {
            assert(items.drop_first()[find_name(items, name) - 1] == items[
                find_name(items, name) as int
            ]);
        }
    }
}

/// `find_name` finds exactly the first matching entry.
proof fn lemma_find_name_at(items: Seq<(Seq<u8>, Seq<u8>, Seq<u8>)>, name: Seq<u8>, k: int)
    requires
        0 <= k <= items.len(),
        forall|j: int| 0 <= j < k ==> (#[trigger] items[j]).1 != name,
        k < items.len() ==> items[k].1 == name,
    ensures
        find_name(items, name) == if k < items.len() {
            k as nat
        } else {
            items.len()
        },
    decreases items.len(),
{
    if items.len() == 0 {
    } else if items[0].1 == name {
    } else {
        assert forall|j: int| 0 <= j < k - 1 implies (#[trigger] items.drop_first()[j]).1
            != name by {
            assert(items.drop_first()[j] == items[j + 1]);
        }
        if k - 1 < items.drop_first().len() && k >= 1 {
            assert(items.drop_first()[k - 1] == items[k]);
        }
        lemma_find_name_at(items.drop_first(), name, if k >= 1 {
            k - 1
        } else {
            0
        });
    }
}

/// A single HTTP/1.1 connection engine for one role.
pub struct Connection {
    pub our_role: Role,
    pub their_role: Role,
    pub max_incomplete_event_size: usize,
    pub cstate: ConnectionState,
    pub receive_buffer: ReceiveBuffer,
    pub receive_buffer_closed: bool,
    pub client_is_waiting_for_100_continue: bool,
    pub their_http_version: Option<Vec<u8>>,
    pub request_method: Option<Vec<u8>>,
    pub reader: Option<BodyReader>,
}

impl Connection {
    /// The receive buffer's search cursors are in order.
    pub open spec fn wf(&self) -> bool {
        self.receive_buffer.wf()
    }

    /// A fresh engine for `our_role`, with an empty buffer and both
    /// state-machine roles idle.
    pub fn new(our_role: Role, max_incomplete_event_size: usize) -> (r: Connection)
        ensures
            r.our_role == our_role,
            r.their_role == (match our_role {
                Role::Client => Role::Server,
                Role::Server => Role::Client,
            }),
            r.max_incomplete_event_size == max_incomplete_event_size,
            r.cstate.client_state == crate::state::Sentinel::Idle,
            r.cstate.server_state == crate::state::Sentinel::Idle,
            r.cstate.keep_alive,
            r.cstate.pending_switch_proposals.spec_is_empty(),
            r.receive_buffer@ =~= Seq::<u8>::empty(),
            !r.receive_buffer_closed,
            !r.client_is_waiting_for_100_continue,
            r.their_http_version is None,
            r.request_method is None,
            r.reader is None,
            r.wf(),
    {
        let their_role = match our_role {
            Role::Client => Role::Server,
            Role::Server => Role::Client,
        };
        Connection {
            our_role,
            their_role,
            max_incomplete_event_size,
            cstate: ConnectionState::new(),
            receive_buffer: ReceiveBuffer::new(),
            receive_buffer_closed: false,
            client_is_waiting_for_100_continue: false,
            their_http_version: None,
            request_method: None,
            reader: None,
        }
    }

    /// Feeds received bytes in; empty input marks the receive side
    /// as closed.
    pub fn receive_data(&mut self, data: &[u8]) -> (r: Result<(), String>)
        requires
            old(self).wf(),
        ensures
            r is Ok,
            final(self).wf(),
            data@.len() == 0 ==> final(self).receive_buffer_closed && final(self).receive_buffer@
                =~= old(self).receive_buffer@,
            data@.len() > 0 ==> final(self).receive_buffer_closed == old(
                self,
            ).receive_buffer_closed && final(self).receive_buffer@ =~= old(self).receive_buffer@
                + data@,
            final(self).cstate == old(self).cstate,
            final(self).reader == old(self).reader,
            final(self).our_role == old(self).our_role,
            final(self).their_role == old(self).their_role,
            final(self).max_incomplete_event_size == old(self).max_incomplete_event_size,
            final(self).their_http_version == old(self).their_http_version,
            final(self).request_method == old(self).request_method,
            final(self).client_is_waiting_for_100_continue == old(
                self,
            ).client_is_waiting_for_100_continue,
    {
        if data.len() == 0 {
            self.receive_buffer_closed = true;
        } else {
            self.receive_buffer.add_data(data);
        }
        Ok(())
    }
}


/// What every `next_event` outcome leaves untouched besides the
/// receive buffer.
pub open spec fn same_except_buffer(pre: Connection, post: Connection) -> bool {
    &&& post.our_role == pre.our_role
    &&& post.their_role == pre.their_role
    &&& post.max_incomplete_event_size == pre.max_incomplete_event_size
    &&& post.receive_buffer_closed == pre.receive_buffer_closed
    &&& post.client_is_waiting_for_100_continue == pre.client_is_waiting_for_100_continue
    &&& post.cstate == pre.cstate
    &&& post.reader == pre.reader
    &&& post.their_http_version == pre.their_http_version
    &&& post.request_method == pre.request_method
}

/// What handling an extracted head block does, as a relation between
/// the prior state, the lines, the outcome, and the new state; the
/// receive buffer is the caller's concern.
pub open spec fn head_post(
    pre: Connection,
    lines: Seq<Seq<u8>>,
    r: Result<Event, String>,
    post: Connection,
) -> bool {
    let keep = {
        &&& post.our_role == pre.our_role
        &&& post.their_role == pre.their_role
        &&& post.max_incomplete_event_size == pre.max_incomplete_event_size
        &&& post.receive_buffer_closed == pre.receive_buffer_closed
        &&& post.client_is_waiting_for_100_continue == pre.client_is_waiting_for_100_continue
    };
    match pre.their_role {
        Role::Client => match crate::parse::parse_request_head_spec(lines) {
            None => keep && (r matches Err(m) && m@ == "malformed request head"@) && post.cstate
                == pre.cstate && post.reader == pre.reader && post.their_http_version
                == pre.their_http_version && post.request_method == pre.request_method,
            Some((method, target, ver, pairs)) => match normalize_fold(pairs, false) {
                Err(em) => keep && (r matches Err(m) && m@ == em) && post.cstate == pre.cstate
                    && post.reader == pre.reader && post.their_http_version
                    == pre.their_http_version && post.request_method == pre.request_method,
                Ok(acc) => if ver == crate::events::http11_label() && !crate::events::has_name(
                    acc.out,
                    crate::headers::host_label(),
                ) {
                    keep && (r matches Err(m) && m@ == "Missing mandatory Host: header"@
                       ) && post.cstate == pre.cstate && post.reader == pre.reader
                        && post.their_http_version == pre.their_http_version
                        && post.request_method == pre.request_method
                } else {
                    match select_reader_spec(acc.out, true) {
                        None => keep && (r matches Err(m) && m@ == "bad Content-Length"@
                           ) && post.cstate == pre.cstate && post.reader == pre.reader
                            && post.their_http_version == pre.their_http_version
                            && post.request_method == pre.request_method,
                        Some(rd) => match process_event_spec(
                            pre.cstate,
                            crate::state::Sentinel::Client,
                            EventType::Request,
                            None,
                        ) {
                            Err(em) => keep && (r matches Err(m) && m@ == em) && post.cstate
                                == crate::state::process_event_err_state(
                                pre.cstate,
                                crate::state::Sentinel::Client,
                                EventType::Request,
                                None,
                            ) && post.reader == pre.reader && post.their_http_version
                                == pre.their_http_version && post.request_method
                                == pre.request_method,
                            Ok(cs2) => keep && post.cstate == cs2 && post.reader == Some(rd)
                                && (post.their_http_version matches Some(v) && v@ == ver) && (
                            post.request_method matches Some(m) && m@ == method) && (r matches Ok(
                                ev,
                            ) && ev matches Event::Request(req) && req.method@ == method
                                && req.target@ == target && req.http_version@ == ver
                                && req.headers@ == acc.out),
                        },
                    }
                },
            },
        },
        Role::Server => match crate::parse::parse_response_head_spec(lines) {
            None => keep && (r matches Err(m) && m@ == "malformed response head"@) && post.cstate
                == pre.cstate && post.reader == pre.reader && post.their_http_version
                == pre.their_http_version && post.request_method == pre.request_method,
            Some((code, reason, ver, pairs)) => if 100 <= code < 200 {
                match normalize_fold(pairs, false) {
                    Err(em) => keep && (r matches Err(m) && m@ == em) && post.cstate == pre.cstate
                        && post.reader == pre.reader && post.their_http_version
                        == pre.their_http_version && post.request_method == pre.request_method,
                    Ok(acc) => match process_event_spec(
                        pre.cstate,
                        crate::state::Sentinel::Server,
                        EventType::InformationalResponse,
                        None,
                    ) {
                        Err(em) => keep && (r matches Err(m) && m@ == em) && post.cstate
                            == crate::state::process_event_err_state(
                            pre.cstate,
                            crate::state::Sentinel::Server,
                            EventType::InformationalResponse,
                            None,
                        ) && post.reader == pre.reader && post.their_http_version
                            == pre.their_http_version && post.request_method
                            == pre.request_method,
                        Ok(cs2) => keep && post.cstate == cs2 && post.reader == pre.reader && (
                        post.their_http_version matches Some(v) && v@ == ver)
                            && post.request_method == pre.request_method && (r matches Ok(ev)
                            && ev matches Event::InformationalResponse(resp) && resp.status_code
                            as nat == code && resp.reason@ == reason && resp.http_version@ == ver
                            && resp.headers@ == acc.out),
                    },
                }
            } else if !(200 <= code < 1000) {
                keep && (r matches Err(m) && m@ == "Response status_code should be in range [200, 1000), not "@
                    + crate::num::dec_chars(code)) && post.cstate == pre.cstate && post.reader
                    == pre.reader && post.their_http_version == pre.their_http_version
                    && post.request_method == pre.request_method
            } else {
                match normalize_fold(pairs, false) {
                    Err(em) => keep && (r matches Err(m) && m@ == em) && post.cstate == pre.cstate
                        && post.reader == pre.reader && post.their_http_version
                        == pre.their_http_version && post.request_method == pre.request_method,
                    Ok(acc) => match select_reader_spec(acc.out, false) {
                        None => keep && (r matches Err(m) && m@ == "bad Content-Length"@
                           ) && post.cstate == pre.cstate && post.reader == pre.reader
                            && post.their_http_version == pre.their_http_version
                            && post.request_method == pre.request_method,
                        Some(rd) => match process_event_spec(
                            pre.cstate,
                            crate::state::Sentinel::Server,
                            EventType::Response,
                            None,
                        ) {
                            Err(em) => keep && (r matches Err(m) && m@ == em) && post.cstate
                                == crate::state::process_event_err_state(
                                pre.cstate,
                                crate::state::Sentinel::Server,
                                EventType::Response,
                                None,
                            ) && post.reader == pre.reader && post.their_http_version
                                == pre.their_http_version && post.request_method
                                == pre.request_method,
                            Ok(cs2) => keep && post.cstate == cs2 && post.reader == Some(rd)
                                && (post.their_http_version matches Some(v) && v@ == ver)
                                && post.request_method == pre.request_method && (r matches Ok(ev)
                                && ev matches Event::Response(resp) && resp.status_code as nat
                                == code && resp.reason@ == reason && resp.http_version@ == ver
                                && resp.headers@ == acc.out),
                        },
                    },
                }
            },
        },
    }
}

/// What driving the current body reader does, buffers included.
pub open spec fn body_post(pre: Connection, r: Result<Event, String>, post: Connection) -> bool {
    let keep = {
        &&& post.our_role == pre.our_role
        &&& post.their_role == pre.their_role
        &&& post.max_incomplete_event_size == pre.max_incomplete_event_size
        &&& post.receive_buffer_closed == pre.receive_buffer_closed
        &&& post.client_is_waiting_for_100_continue == pre.client_is_waiting_for_100_continue
        &&& post.their_http_version == pre.their_http_version
        &&& post.request_method == pre.request_method
    };
    let b = pre.receive_buffer@;
    match pre.reader {
        None => false,
        Some(BodyReader::ContentLength(cl)) => {
            if cl.remaining == 0 {
                match process_event_spec(
                    pre.cstate,
                    role_sentinel(pre.their_role),
                    EventType::EndOfMessage,
                    None,
                ) {
                    Err(em) => keep && (r matches Err(m) && m@ == em) && post.cstate
                        == crate::state::process_event_err_state(
                        pre.cstate,
                        role_sentinel(pre.their_role),
                        EventType::EndOfMessage,
                        None,
                    ) && post.reader == pre.reader && post.receive_buffer@ =~= b,
                    Ok(cs2) => keep && post.cstate == cs2 && post.reader is None
                        && post.receive_buffer@ =~= b && (r matches Ok(ev) && ev matches
                        Event::EndOfMessage(e) && e.headers@ =~= Seq::<
                        (Seq<u8>, Seq<u8>, Seq<u8>),
                    >::empty()),
                }
            } else if b.len() < cl.remaining {
                keep && post.cstate == pre.cstate && post.reader == pre.reader
                    && post.receive_buffer@ =~= b && (r matches Err(m) && m@ == "need more data"@)
            } else {
                keep && post.cstate == pre.cstate && post.reader == Some(
                    BodyReader::ContentLength(
                        ContentLengthReader { length: cl.length, remaining: 0 },
                    ),
                ) && post.receive_buffer@ =~= b.skip(cl.remaining as int) && (r matches Ok(ev)
                    && ev matches Event::Data(d) && d.data@ =~= b.take(cl.remaining as int)
                    && !d.chunk_start && d.chunk_end)
            }
        },
        Some(BodyReader::Chunked(ch)) => {
            let (rd2, b2, outcome) = chunked_read_spec(ch, b);
            match outcome {
                Err(()) => keep && post.cstate == pre.cstate && post.reader == Some(
                    BodyReader::Chunked(rd2),
                ) && post.receive_buffer@ =~= b2 && (r matches Err(m) && m@
                    == "invalid chunk header"@),
                Ok(None) => keep && post.cstate == pre.cstate && post.reader == Some(
                    BodyReader::Chunked(rd2),
                ) && post.receive_buffer@ =~= b2 && (r matches Err(m) && m@ == "need more data"@),
                Ok(Some((bytes, start, end))) => if ch.reading_trailer {
                    match process_event_spec(
                        pre.cstate,
                        role_sentinel(pre.their_role),
                        EventType::EndOfMessage,
                        None,
                    ) {
                        Err(em) => keep && (r matches Err(m) && m@ == em) && post.cstate
                            == crate::state::process_event_err_state(
                            pre.cstate,
                            role_sentinel(pre.their_role),
                            EventType::EndOfMessage,
                            None,
                        ) && post.reader == Some(BodyReader::Chunked(rd2))
                            && post.receive_buffer@ =~= b2,
                        Ok(cs2) => keep && post.cstate == cs2 && post.reader is None
                            && post.receive_buffer@ =~= b2 && (r matches Ok(ev) && ev matches
                            Event::EndOfMessage(e) && e.headers@ =~= Seq::<
                            (Seq<u8>, Seq<u8>, Seq<u8>),
                        >::empty()),
                    }
                } else {
                    keep && post.cstate == pre.cstate && post.reader == Some(
                        BodyReader::Chunked(rd2),
                    ) && post.receive_buffer@ =~= b2 && (r matches Ok(ev) && ev matches
                        Event::Data(d) && d.data@ =~= bytes && d.chunk_start == start
                        && d.chunk_end == end)
                },
            }
        },
        Some(BodyReader::Http10(_)) => {
            if b.len() == 0 {
                keep && post.cstate == pre.cstate && post.reader == pre.reader
                    && post.receive_buffer@ =~= b && (r matches Err(m) && m@ == "need more data"@)
            } else {
                keep && post.cstate == pre.cstate && post.reader == pre.reader
                    && post.receive_buffer@ =~= Seq::<u8>::empty() && (r matches Ok(ev)
                    && ev matches Event::Data(d) && d.data@ =~= b && !d.chunk_start
                    && !d.chunk_end)
            }
        },
    }
}

impl Connection {
    /// Handles an extracted head block: parses the start line and
    /// header lines, builds the validated event, selects the body
    /// framing, and advances the state machine.
    fn handle_head_lines(&mut self, lines: &Vec<Vec<u8>>) -> (r: Result<Event, String>)
        ensures
            head_post(*old(self), lines.deep_view(), r, *final(self)),
            final(self).receive_buffer@ =~= old(self).receive_buffer@,
            final(self).receive_buffer.wf() == old(self).receive_buffer.wf(),
    {
        match self.their_role {
            Role::Client => {
                let (method, target, ver, pairs) = match crate::parse::parse_request_head(lines) {
                    Some(x) => x,
                    None => {
                        return Err(String::from_str("malformed request head"));
                    },
                };
                let ver_copy = ver.clone();
                let method_copy = method.clone();
                proof {
                    assert(ver_copy@ == ver@);
                    assert(method_copy@ == method@);
                }
                let req = match Request::new(method, target, pairs, ver) {
                    Ok(req) => req,
                    Err(e) => {
                        return Err(e.0);
                    },
                };
                let rd = match select_reader(&req.headers, true) {
                    Ok(rd) => rd,
                    Err(m) => {
                        return Err(m);
                    },
                };
                match self.cstate.process_event(
                    crate::state::Sentinel::Client,
                    EventType::Request,
                    None,
                ) {
                    Ok(()) => {},
                    Err(e) => {
                        return Err(e.0);
                    },
                }
                self.reader = Some(rd);
                self.their_http_version = Some(ver_copy);
                self.request_method = Some(method_copy);
                Ok(Event::Request(req))
            },
            Role::Server => {
                let (code, reason, ver, pairs) = match crate::parse::parse_response_head(lines) {
                    Some(x) => x,
                    None => {
                        return Err(String::from_str("malformed response head"));
                    },
                };
                let ver_copy = ver.clone();
                if 100 <= code && code < 200 {
                    let resp = match InformationalResponse::new(code, pairs, reason, ver) {
                        Ok(resp) => resp,
                        Err(e) => {
                            return Err(e.0);
                        },
                    };
                    match self.cstate.process_event(
                        crate::state::Sentinel::Server,
                        EventType::InformationalResponse,
                        None,
                    ) {
                        Ok(()) => {},
                        Err(e) => {
                            return Err(e.0);
                        },
                    }
                    self.their_http_version = Some(ver_copy);
                    Ok(Event::InformationalResponse(resp))
                } else {
                    let resp = match Response::new(code, pairs, reason, ver) {
                        Ok(resp) => resp,
                        Err(e) => {
                            return Err(e.0);
                        },
                    };
                    let rd = match select_reader(&resp.headers, false) {
                        Ok(rd) => rd,
                        Err(m) => {
                            return Err(m);
                        },
                    };
                    match self.cstate.process_event(
                        crate::state::Sentinel::Server,
                        EventType::Response,
                        None,
                    ) {
                        Ok(()) => {},
                        Err(e) => {
                            return Err(e.0);
                        },
                    }
                    self.reader = Some(rd);
                    self.their_http_version = Some(ver_copy);
                    Ok(Event::Response(resp))
                }
            },
        }
    }

    /// Produces the next protocol event from the buffered bytes: a
    /// `ConnectionClosed` once the closed buffer drains, a parsed
    /// head while none is pending, and body data or the end of the
    /// message under the selected framing; in the error state every
    /// call is rejected, and "need more data" reports that progress
    /// awaits more input.
    #[verifier::rlimit(100)]
    pub fn next_event(&mut self) -> (r: Result<Event, String>)
        requires
            old(self).wf(),
        ensures
            final(self).wf(),
            ({
                let pre = *old(self);
                let s = pre.receive_buffer@;
                if in_error(pre.cstate) {
                    r matches Err(m) && m@ == "Cannot process events in the ERROR state."@
                        && *final(self) == pre
                } else if s.len() == 0 && pre.receive_buffer_closed {
                    r matches Ok(ev) && ev is ConnectionClosed && *final(self) == pre
                } else if pre.reader is None {
                    if s.len() > 0 && s[0] == lf() {
                        head_post(pre, Seq::empty(), r, *final(self)) && final(self).receive_buffer@
                            =~= s.skip(1)
                    } else if s.len() > 1 && s[0] == cr() && s[1] == lf() {
                        head_post(pre, Seq::empty(), r, *final(self)) && final(self).receive_buffer@
                            =~= s.skip(2)
                    } else if first_blank(s, 0) < s.len() {
                        head_post(
                            pre,
                            split_crlf(s.take(first_blank(s, 0) as int)),
                            r,
                            *final(self),
                        ) && final(self).receive_buffer@ =~= s.skip(first_blank(s, 0) as int + 4)
                    } else {
                        same_except_buffer(pre, *final(self)) && final(self).receive_buffer@
                            =~= s && (if s.len() > 0 && s[0] < 0x21 && pre.their_role
                            == Role::Client {
                            r matches Err(m) && m@ == "illegal request line"@
                        } else if s.len() > pre.max_incomplete_event_size {
                            r matches Err(m) && m@ == "Receive buffer too long"@
                        } else {
                            r matches Err(m) && m@ == "need more data"@
                        })
                    }
                } else {
                    body_post(pre, r, *final(self))
                }
            }),
    {
        if self.cstate.client_state == crate::state::Sentinel::Error || self.cstate.server_state
            == crate::state::Sentinel::Error {
            return Err(String::from_str("Cannot process events in the ERROR state."));
        }
        if self.receive_buffer.is_empty() && self.receive_buffer_closed {
            return Ok(Event::ConnectionClosed(ConnectionClosed::new()));
        }
        let has_reader = match &self.reader {
            Some(_) => true,
            None => false,
        };
        if !has_reader {
            match self.receive_buffer.maybe_extract_lines() {
                Some(lines) => self.handle_head_lines(&lines),
                None => {
                    if self.receive_buffer.is_next_line_obviously_invalid_request_line() && (
                    match self.their_role {
                        Role::Client => true,
                        Role::Server => false,
                    }) {
                        Err(String::from_str("illegal request line"))
                    } else if self.receive_buffer.len() > self.max_incomplete_event_size {
                        Err(String::from_str("Receive buffer too long"))
                    } else {
                        Err(String::from_str("need more data"))
                    }
                },
            }
        } else {
            let reader = match self.reader.take() {
                Some(rd) => rd,
                None => {
                    proof {
                        assert(false);
                    }
                    BodyReader::Http10(Http10Reader)
                },
            };
            match reader {
                BodyReader::ContentLength(mut cl) => {
                    if cl.remaining == 0 {
                        match self.cstate.process_event(
                            role_sentinel_exec(self.their_role),
                            EventType::EndOfMessage,
                            None,
                        ) {
                            Ok(()) => {
                                self.reader = None;
                                Ok(Event::EndOfMessage(EndOfMessage::new(None)))
                            },
                            Err(e) => {
                                self.reader = Some(BodyReader::ContentLength(cl));
                                Err(e.0)
                            },
                        }
                    } else {
                        match cl.read_body(&mut self.receive_buffer) {
                            Some(d) => {
                                self.reader = Some(BodyReader::ContentLength(cl));
                                Ok(Event::Data(d))
                            },
                            None => {
                                self.reader = Some(BodyReader::ContentLength(cl));
                                Err(String::from_str("need more data"))
                            },
                        }
                    }
                },
                BodyReader::Chunked(mut ch) => {
                    let was_trailer = ch.reading_trailer;
                    match ch.read_body(&mut self.receive_buffer) {
                        Ok(Some(d)) => {
                            if was_trailer {
                                match self.cstate.process_event(
                                    role_sentinel_exec(self.their_role),
                                    EventType::EndOfMessage,
                                    None,
                                ) {
                                    Ok(()) => {
                                        self.reader = None;
                                        Ok(Event::EndOfMessage(EndOfMessage::new(None)))
                                    },
                                    Err(e) => {
                                        self.reader = Some(BodyReader::Chunked(ch));
                                        Err(e.0)
                                    },
                                }
                            } else {
                                self.reader = Some(BodyReader::Chunked(ch));
                                Ok(Event::Data(d))
                            }
                        },
                        Ok(None) => {
                            self.reader = Some(BodyReader::Chunked(ch));
                            Err(String::from_str("need more data"))
                        },
                        Err(e) => {
                            self.reader = Some(BodyReader::Chunked(ch));
                            Err(e.0)
                        },
                    }
                },
                BodyReader::Http10(mut h) => {
                    match h.read_body(&mut self.receive_buffer) {
                        Some(d) => {
                            self.reader = Some(BodyReader::Http10(h));
                            Ok(Event::Data(d))
                        },
                        None => {
                            self.reader = Some(BodyReader::Http10(h));
                            Err(String::from_str("need more data"))
                        },
                    }
                },
            }
        }
    }

    /// Serializes an outbound event into bytes, advancing the state
    /// machine; only a client sends a request head and only a server
    /// a response head, and never while in the error state.
    pub fn send(&mut self, event: Event) -> (r: Result<Vec<u8>, String>)
        ensures
            ({
                let pre = *old(self);
                if in_error(pre.cstate) {
                    r matches Err(m) && m@ == "Cannot send data in the ERROR state."@ && *final(self) == pre
                } else {
                    match event {
                        Event::Request(req) => if pre.our_role != Role::Client {
                            r matches Err(m) && m@ == "Unsupported event type"@ && *final(self)
                                == pre
                        } else if req.http_version@
                            != crate::events::http11_label() {
                            r matches Err(m) && m@ == "I only send HTTP/1.1"@ && *final(self)
                                == pre
                        } else {
                            match process_event_spec(
                                pre.cstate,
                                role_sentinel(pre.our_role),
                                EventType::Request,
                                None,
                            ) {
                                Err(em) => r matches Err(m) && m@ == em && *final(self)
                                    == Connection {
                                    cstate: crate::state::process_event_err_state(
                                        pre.cstate,
                                        role_sentinel(pre.our_role),
                                        EventType::Request,
                                        None,
                                    ),
                                    ..pre
                                },
                                Ok(cs2) => r matches Ok(bytes) && bytes@
                                    =~= crate::writers::render_request(
                                    req.method@,
                                    req.target@,
                                    req.headers@,
                                ) && *final(self) == Connection { cstate: cs2, ..pre },
                            }
                        },
                        Event::Response(resp) => if pre.our_role != Role::Server {
                            r matches Err(m) && m@ == "Unsupported event type"@ && *final(self)
                                == pre
                        } else if resp.http_version@
                            != crate::events::http11_label() {
                            r matches Err(m) && m@ == "I only send HTTP/1.1"@ && *final(self)
                                == pre
                        } else {
                            match process_event_spec(
                                pre.cstate,
                                role_sentinel(pre.our_role),
                                EventType::Response,
                                None,
                            ) {
                                Err(em) => r matches Err(m) && m@ == em && *final(self)
                                    == Connection {
                                    cstate: crate::state::process_event_err_state(
                                        pre.cstate,
                                        role_sentinel(pre.our_role),
                                        EventType::Response,
                                        None,
                                    ),
                                    ..pre
                                },
                                Ok(cs2) => r matches Ok(bytes) && bytes@
                                    =~= crate::writers::render_response(
                                    resp.status_code,
                                    resp.reason@,
                                    resp.headers@,
                                ) && *final(self) == Connection { cstate: cs2, ..pre },
                            }
                        },
                        _ => r matches Err(m) && m@ == "Unsupported event type"@ && *final(self)
                            == pre,
                    }
                }
            }),
    {
        if self.cstate.client_state == crate::state::Sentinel::Error || self.cstate.server_state
            == crate::state::Sentinel::Error {
            return Err(String::from_str("Cannot send data in the ERROR state."));
        }
        match event {
            Event::Request(req) => {
                let is_client = match self.our_role {
                    Role::Client => true,
                    Role::Server => false,
                };
                if !is_client {
                    return Err(String::from_str("Unsupported event type"));
                }
                let mut out: Vec<u8> = Vec::new();
                match crate::writers::write_request(&req, &mut out) {
                    Ok(()) => {},
                    Err(e) => {
                        return Err(e.0);
                    },
                }
                match self.cstate.process_event(
                    role_sentinel_exec(self.our_role),
                    EventType::Request,
                    None,
                ) {
                    Ok(()) => Ok(out),
                    Err(e) => Err(e.0),
                }
            },
            Event::Response(resp) => {
                let is_server = match self.our_role {
                    Role::Server => true,
                    Role::Client => false,
                };
                if !is_server {
                    return Err(String::from_str("Unsupported event type"));
                }
                let mut out: Vec<u8> = Vec::new();
                match crate::writers::write_any_response(&resp, &mut out) {
                    Ok(()) => {},
                    Err(e) => {
                        return Err(e.0);
                    },
                }
                match self.cstate.process_event(
                    role_sentinel_exec(self.our_role),
                    EventType::Response,
                    None,
                ) {
                    Ok(()) => Ok(out),
                    Err(e) => Err(e.0),
                }
            },
            _ => Err(String::from_str("Unsupported event type")),
        }
    }
}

/// The state-machine sentinel of a role, as executable code.
fn role_sentinel_exec(r: Role) -> (s: crate::state::Sentinel)
    ensures
        s == role_sentinel(r),
{
    match r {
        Role::Client => crate::state::Sentinel::Client,
        Role::Server => crate::state::Sentinel::Server,
    }
}


/// The full request round trip through the engine, as one statement:
/// when a fresh server-side engine's buffer holds exactly the bytes
/// the client side's `send` emits for a validated request — the
/// `render_request` serialization of its validated header triples —
/// then the relation `next_event`'s contract establishes for the
/// extracted head block forces the request event back, with the same
/// method, target and version and exactly the host-fronted triples,
/// a body reader installed, and both roles advanced.
pub proof fn lemma_connection_request_round_trip(
    pre: Connection,
    r: Result<Event, String>,
    post: Connection,
    method: Seq<u8>,
    target: Seq<u8>,
    pairs0: Seq<(Seq<u8>, Seq<u8>)>,
)
    requires
        pre.their_role == Role::Client,
        pre.cstate.client_state == crate::state::Sentinel::Idle,
        pre.cstate.server_state == crate::state::Sentinel::Idle,
        pre.cstate.keep_alive,
        pre.cstate.pending_switch_proposals.spec_is_empty(),
        crate::ascii::is_token(method),
        crate::ascii::is_vchar_run(target),
        normalize_fold(pairs0, false) is Ok,
        forall|k: int|
            0 <= k < normalize_fold(pairs0, false)->Ok_0.out.len() ==> crate::ascii::trim_seq(
                (#[trigger] normalize_fold(pairs0, false)->Ok_0.out[k]).2,
            ) == normalize_fold(pairs0, false)->Ok_0.out[k].2,
        crate::events::has_name(
            normalize_fold(pairs0, false)->Ok_0.out,
            crate::headers::host_label(),
        ),
        normalize_fold(pairs0, false)->Ok_0.seen_content_length matches Some(v) ==> dec_val(v)
            <= usize::MAX,
        pre.receive_buffer@ == crate::writers::render_request(
            method,
            target,
            normalize_fold(pairs0, false)->Ok_0.out,
        ),
    ensures
        ({
            let s = pre.receive_buffer@;
            &&& s.len() > 0 && s[0] != lf() && s[0] != cr()
            &&& first_blank(s, 0) < s.len()
            &&& (head_post(pre, split_crlf(s.take(first_blank(s, 0) as int)), r, post) ==> ({
                let items = normalize_fold(pairs0, false)->Ok_0.out;
                let fronted = crate::writers::sel_host(items, true) + crate::writers::sel_host(
                    items,
                    false,
                );
                &&& r matches Ok(ev) && ev matches Event::Request(req) && req.method@ == method
                    && req.target@ == target && req.http_version@
                    == crate::events::http11_label() && req.headers@ == fronted
                &&& post.reader is Some
                &&& post.cstate.client_state == crate::state::Sentinel::SendBody
                &&& post.cstate.server_state == crate::state::Sentinel::SendResponse
                &&& post.cstate.keep_alive
                &&& post.cstate.pending_switch_proposals.spec_is_empty()
            }))
        }),
{
    let acc = normalize_fold(pairs0, false)->Ok_0;
    let items = acc.out;
    let fronted = crate::writers::sel_host(items, true) + crate::writers::sel_host(items, false);
    let s = pre.receive_buffer@;
    crate::parse::lemma_request_event_round_trip(method, target, pairs0);
    assert(s[0] == method[0]);
    assert(crate::ascii::is_token_byte(method[0]));
    let b = first_blank(s, 0);
    assert(b == s.len() - 4);
    let lines = split_crlf(s.take(b as int));
    assert(crate::parse::parse_request_head_spec(lines) == Some(
        (
            method,
            target,
            crate::events::http11_label(),
            crate::headers::raw_value_pairs(fronted),
        ),
    ));
    assert(normalize_fold(crate::headers::raw_value_pairs(fronted), false) == Ok::<
        crate::headers::NormState,
        Seq<char>,
    >(
        crate::headers::NormState {
            out: fronted,
            seen_content_length: acc.seen_content_length,
            saw_transfer_encoding: acc.saw_transfer_encoding,
        },
    ));
    crate::headers::lemma_count_name_pos(items, crate::headers::host_label());
    crate::parse::lemma_fronted_counts(items, crate::headers::host_label());
    crate::headers::lemma_count_name_pos(fronted, crate::headers::host_label());
    assert(crate::events::has_name(fronted, crate::headers::host_label()));
    assert(select_reader_spec(fronted, true) is Some) by {
        if !chunked_selected(fronted) {
            lemma_find_name_props(fronted, content_length_label());
            let f = find_name(fronted, content_length_label());
            if f < fronted.len() {
                crate::headers::lemma_fold_wf(pairs0, false);
                crate::parse::lemma_sel_host_in_items(items, fronted[f as int]);
                let j = choose|j: int|
                    0 <= j < items.len() && fronted[f as int] == items[j];
                assert(is_digits(fronted[f as int].2));
                assert(acc.seen_content_length == Some(fronted[f as int].2));
            }
        }
    }
    let cs1 = pre.cstate;
    let cs2 = ConnectionState {
        client_state: crate::state::Sentinel::SendBody,
        server_state: crate::state::Sentinel::SendResponse,
        ..cs1
    };
    assert(crate::state::state_pass(cs2) == cs2);
    assert(crate::state::state_closure(cs2) == cs2);
    assert(process_event_spec(cs1, crate::state::Sentinel::Client, EventType::Request, None)
        == Ok::<ConnectionState, Seq<char>>(cs2));
}


/// The full response round trip through the engine, the dual of the
/// request case: when a fresh client-side engine's buffer holds
/// exactly the bytes the server side's `send` emits for a validated
/// final response, the relation `next_event`'s contract establishes
/// for the extracted head block forces the response event back, a
/// body reader installed, and the server role advanced.
pub proof fn lemma_connection_response_round_trip(
    pre: Connection,
    r: Result<Event, String>,
    post: Connection,
    status_code: u16,
    reason: Seq<u8>,
    pairs0: Seq<(Seq<u8>, Seq<u8>)>,
)
    requires
        pre.their_role == Role::Server,
        pre.cstate.client_state == crate::state::Sentinel::Idle,
        pre.cstate.server_state == crate::state::Sentinel::Idle,
        pre.cstate.keep_alive,
        pre.cstate.pending_switch_proposals.spec_is_empty(),
        200 <= status_code < 1000,
        forall|i: int| 0 <= i < reason.len() ==> #[trigger] reason[i] != crate::receive_buffer::cr(),
        normalize_fold(pairs0, false) is Ok,
        forall|k: int|
            0 <= k < normalize_fold(pairs0, false)->Ok_0.out.len() ==> crate::ascii::trim_seq(
                (#[trigger] normalize_fold(pairs0, false)->Ok_0.out[k]).2,
            ) == normalize_fold(pairs0, false)->Ok_0.out[k].2,
        normalize_fold(pairs0, false)->Ok_0.seen_content_length matches Some(v) ==> dec_val(v)
            <= usize::MAX,
        pre.receive_buffer@ == crate::writers::render_response(
            status_code,
            reason,
            normalize_fold(pairs0, false)->Ok_0.out,
        ),
    ensures
        ({
            let s = pre.receive_buffer@;
            &&& s.len() > 0 && s[0] != lf() && s[0] != cr()
            &&& first_blank(s, 0) < s.len()
            &&& (head_post(pre, split_crlf(s.take(first_blank(s, 0) as int)), r, post) ==> ({
                let items = normalize_fold(pairs0, false)->Ok_0.out;
                let fronted = crate::writers::sel_host(items, true) + crate::writers::sel_host(
                    items,
                    false,
                );
                &&& r matches Ok(ev) && ev matches Event::Response(resp) && resp.status_code
                    == status_code && resp.reason@ == reason && resp.http_version@
                    == crate::events::http11_label() && resp.headers@ == fronted
                &&& post.reader is Some
                &&& post.cstate.client_state == crate::state::Sentinel::Idle
                &&& post.cstate.server_state == crate::state::Sentinel::SendBody
                &&& post.cstate.keep_alive
                &&& post.cstate.pending_switch_proposals.spec_is_empty()
            }))
        }),
{
    let acc = normalize_fold(pairs0, false)->Ok_0;
    let items = acc.out;
    let fronted = crate::writers::sel_host(items, true) + crate::writers::sel_host(items, false);
    let s = pre.receive_buffer@;
    crate::parse::lemma_response_event_round_trip(status_code, reason, pairs0);
    assert(s[0] == crate::writers::http11_token()[0]);
    let b = first_blank(s, 0);
    assert(b == s.len() - 4);
    let lines = split_crlf(s.take(b as int));
    assert(crate::parse::parse_response_head_spec(lines) == Some(
        (
            status_code as nat,
            reason,
            crate::events::http11_label(),
            crate::headers::raw_value_pairs(fronted),
        ),
    ));
    assert(normalize_fold(crate::headers::raw_value_pairs(fronted), false) == Ok::<
        crate::headers::NormState,
        Seq<char>,
    >(
        crate::headers::NormState {
            out: fronted,
            seen_content_length: acc.seen_content_length,
            saw_transfer_encoding: acc.saw_transfer_encoding,
        },
    ));
    assert(select_reader_spec(fronted, false) is Some) by {
        if !chunked_selected(fronted) {
            lemma_find_name_props(fronted, content_length_label());
            let f = find_name(fronted, content_length_label());
            if f < fronted.len() {
                crate::headers::lemma_fold_wf(pairs0, false);
                crate::parse::lemma_sel_host_in_items(items, fronted[f as int]);
                let j = choose|j: int|
                    0 <= j < items.len() && fronted[f as int] == items[j];
                assert(is_digits(fronted[f as int].2));
                assert(acc.seen_content_length == Some(fronted[f as int].2));
            }
        }
    }
    let cs1 = ConnectionState {
        pending_switch_proposals: crate::state::SwitchProposals { upgrade: false, connect: false },
        ..pre.cstate
    };
    assert(cs1 == pre.cstate);
    let cs2 = ConnectionState { server_state: crate::state::Sentinel::SendBody, ..cs1 };
    assert(crate::state::state_pass(cs2) == cs2);
    assert(crate::state::state_closure(cs2) == cs2);
    assert(process_event_spec(pre.cstate, crate::state::Sentinel::Server, EventType::Response, None)
        == Ok::<ConnectionState, Seq<char>>(cs2));
}

} // verus!
