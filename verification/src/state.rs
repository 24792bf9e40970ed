//! The per-role connection state machine.
//!
//! Event-triggered transitions are a fixed lookup from (role, current
//! state, event type) to the next state; unknown combinations surface
//! a local protocol error instead of being silently ignored. After
//! every mutation the state-triggered rules run to a fixed point,
//! which `state_closure` defines and every mutator is proved to
//! reach.

use vstd::prelude::*;
use vstd::string::StringExecFns;

use crate::util::LocalProtocolError;

verus! {

/// Connection roles, per-role states, and protocol-switch kinds, as
/// one closed set of sentinel values.
#[derive(Debug, Clone, Copy, PartialEq, Eq, Structural)]
pub enum Sentinel {
    Client,
    Server,
    Idle,
    SendResponse,
    SendBody,
    Done,
    MustClose,
    Closed,
    Error,
    MightSwitchProtocol,
    SwitchedProtocol,
    SwitchUpgrade,
    SwitchConnect,
}

/// The classes of protocol events the state machine reacts to.
#[derive(Debug, Clone, Copy, PartialEq, Eq, Structural)]
pub enum EventType {
    Request,
    InformationalResponse,
    Response,
    Data,
    EndOfMessage,
    ConnectionClosed,
}

/// Which protocol-switch proposals the client has pending.
#[derive(Debug, Clone, Copy, PartialEq, Eq, Structural)]
pub struct SwitchProposals {
    pub upgrade: bool,
    pub connect: bool,
}

impl SwitchProposals {
    /// Whether no proposal is pending.
    pub open spec fn spec_is_empty(&self) -> bool {
        !self.upgrade && !self.connect
    }

    /// Whether no proposal is pending.
    pub fn is_empty(&self) -> (r: bool)
        ensures
            r == self.spec_is_empty(),
    {
        !self.upgrade && !self.connect
    }
}

/// The joint state of both roles, the keep-alive flag, and the
/// pending protocol-switch proposals.
#[derive(Debug, Clone, Copy, PartialEq, Eq, Structural)]
pub struct ConnectionState {
    pub keep_alive: bool,
    pub pending_switch_proposals: SwitchProposals,
    pub client_state: Sentinel,
    pub server_state: Sentinel,
}

/// The event-triggered transition table: the next state of `role`
/// when it is in `state` and `event` fires, or `None` when that
/// combination is a protocol violation.
pub open spec fn event_transition(role: Sentinel, state: Sentinel, event: EventType) -> Option<
    Sentinel,
> {
    match role {
        Sentinel::Client => match (state, event) {
            (Sentinel::Idle, EventType::Request) => Some(Sentinel::SendBody),
            (Sentinel::Idle, EventType::ConnectionClosed) => Some(Sentinel::Closed),
            (Sentinel::SendBody, EventType::Data) => Some(Sentinel::SendBody),
            (Sentinel::SendBody, EventType::EndOfMessage) => Some(Sentinel::Done),
            (Sentinel::Done, EventType::ConnectionClosed) => Some(Sentinel::Closed),
            (Sentinel::MustClose, EventType::ConnectionClosed) => Some(Sentinel::Closed),
            (Sentinel::Closed, EventType::ConnectionClosed) => Some(Sentinel::Closed),
            _ => None,
        },
        Sentinel::Server => match (state, event) {
            (Sentinel::Idle, EventType::ConnectionClosed) => Some(Sentinel::Closed),
            (Sentinel::Idle, EventType::Response) => Some(Sentinel::SendBody),
            (Sentinel::Idle, EventType::Request) => Some(Sentinel::SendResponse),
            (Sentinel::SendResponse, EventType::InformationalResponse) => Some(
                Sentinel::SendResponse,
            ),
            (Sentinel::SendResponse, EventType::Response) => Some(Sentinel::SendBody),
            (Sentinel::SendBody, EventType::Data) => Some(Sentinel::SendBody),
            (Sentinel::SendBody, EventType::EndOfMessage) => Some(Sentinel::Done),
            (Sentinel::Done, EventType::ConnectionClosed) => Some(Sentinel::Closed),
            (Sentinel::MustClose, EventType::ConnectionClosed) => Some(Sentinel::Closed),
            (Sentinel::Closed, EventType::ConnectionClosed) => Some(Sentinel::Closed),
            _ => None,
        },
        _ => None,
    }
}

/// The server transitions that accept a pending protocol switch: a
/// 1xx response accepts an upgrade, a final response accepts a
/// CONNECT tunnel, in each case from `SendResponse`.
pub open spec fn switch_transition(state: Sentinel, event: EventType, switch: Sentinel) -> Option<
    Sentinel,
> {
    if state == Sentinel::SendResponse && event == EventType::InformationalResponse && switch
        == Sentinel::SwitchUpgrade {
        Some(Sentinel::SwitchedProtocol)
    } else if state == Sentinel::SendResponse && event == EventType::Response && switch
        == Sentinel::SwitchConnect {
        Some(Sentinel::SwitchedProtocol)
    } else {
        None
    }
}

/// One pass of the state-triggered rules, applied in order: a
/// pending proposal parks a Done client in `MightSwitchProtocol`; a
/// cleared proposal returns it to `Done`; disabled keep-alive forces
/// a Done role to `MustClose`; and the joint-state table maps
/// (Done, Closed) to a `MustClose` server and (Done, Error) to a
/// `MustClose` client.
pub open spec fn state_pass(cs: ConnectionState) -> ConnectionState {
    let c1 = if !cs.pending_switch_proposals.spec_is_empty() && cs.client_state == Sentinel::Done {
        Sentinel::MightSwitchProtocol
    } else {
        cs.client_state
    };
    let c2 = if cs.pending_switch_proposals.spec_is_empty() && c1
        == Sentinel::MightSwitchProtocol {
        Sentinel::Done
    } else {
        c1
    };
    let c3 = if !cs.keep_alive && c2 == Sentinel::Done {
        Sentinel::MustClose
    } else {
        c2
    };
    let s3 = if !cs.keep_alive && cs.server_state == Sentinel::Done {
        Sentinel::MustClose
    } else {
        cs.server_state
    };
    let s4 = if c3 == Sentinel::Done && s3 == Sentinel::Closed {
        Sentinel::MustClose
    } else {
        s3
    };
    let c4 = if c3 == Sentinel::Done && s3 == Sentinel::Error {
        Sentinel::MustClose
    } else {
        c3
    };
    ConnectionState {
        keep_alive: cs.keep_alive,
        pending_switch_proposals: cs.pending_switch_proposals,
        client_state: c4,
        server_state: s4,
    }
}

/// How far the client state can still move under the
/// state-triggered rules.
pub open spec fn client_rank(cs: ConnectionState) -> nat {
    if !cs.pending_switch_proposals.spec_is_empty() {
        if cs.client_state == Sentinel::Done {
            1
        } else {
            0
        }
    } else {
        match cs.client_state {
            Sentinel::MightSwitchProtocol => 2,
            Sentinel::Done => 1,
            _ => 0,
        }
    }
}

/// How far the server state can still move under the
/// state-triggered rules.
pub open spec fn server_rank(cs: ConnectionState) -> nat {
    match cs.server_state {
        Sentinel::Done => 2,
        Sentinel::Closed => 1,
        _ => 0,
    }
}

/// A bound on the passes still to run before the rules reach a
/// fixed point.
pub open spec fn closure_measure(cs: ConnectionState) -> nat {
    client_rank(cs) + server_rank(cs)
}

/// The fixed point of the state-triggered rules.
pub open spec fn state_closure(cs: ConnectionState) -> ConnectionState
    decreases closure_measure(cs),
    via state_closure_decreases
{
    let next = state_pass(cs);
    if next == cs {
        cs
    } else {
        state_closure(next)
    }
}

#[via_fn]
proof fn state_closure_decreases(cs: ConnectionState) {
    lemma_state_pass_measure(cs);
}

/// Each pass that changes anything lowers the measure.
pub proof fn lemma_state_pass_measure(cs: ConnectionState)
    ensures
        state_pass(cs) != cs ==> closure_measure(state_pass(cs)) < closure_measure(cs),
{
}

/// The closure really is a fixed point.
pub proof fn lemma_state_closure_fixed(cs: ConnectionState)
    ensures
        state_pass(state_closure(cs)) == state_closure(cs),
    decreases closure_measure(cs),
{
    let next = state_pass(cs);
    if next == cs {
    } else {
        lemma_state_pass_measure(cs);
        lemma_state_closure_fixed(next);
    }
}

/// The lower-case name of a sentinel, as it appears in error
/// messages.
pub open spec fn sentinel_name(s: Sentinel) -> Seq<char> {
    match s {
        Sentinel::Client => "CLIENT"@,
        Sentinel::Server => "SERVER"@,
        Sentinel::Idle => "IDLE"@,
        Sentinel::SendResponse => "SEND_RESPONSE"@,
        Sentinel::SendBody => "SEND_BODY"@,
        Sentinel::Done => "DONE"@,
        Sentinel::MustClose => "MUST_CLOSE"@,
        Sentinel::Closed => "CLOSED"@,
        Sentinel::Error => "ERROR"@,
        Sentinel::MightSwitchProtocol => "MIGHT_SWITCH_PROTOCOL"@,
        Sentinel::SwitchedProtocol => "SWITCHED_PROTOCOL"@,
        Sentinel::SwitchUpgrade => "SWITCH_UPGRADE"@,
        Sentinel::SwitchConnect => "SWITCH_CONNECT"@,
    }
}

/// The name of an event type, as it appears in error messages.
pub open spec fn event_type_name(e: EventType) -> Seq<char> {
    match e {
        EventType::Request => "Request"@,
        EventType::InformationalResponse => "InformationalResponse"@,
        EventType::Response => "Response"@,
        EventType::Data => "Data"@,
        EventType::EndOfMessage => "EndOfMessage"@,
        EventType::ConnectionClosed => "ConnectionClosed"@,
    }
}

/// The message reported for an event that the table does not map.
pub open spec fn miss_message(role: Sentinel, state: Sentinel, event: EventType) -> Seq<char> {
    "can't handle event type "@ + event_type_name(event) + " when role="@ + sentinel_name(role)
        + " and state="@ + sentinel_name(state)
}

fn sentinel_name_exec(s: Sentinel) -> (r: &'static str)
    ensures
        r@ == sentinel_name(s),
{
    match s {
        Sentinel::Client => "CLIENT",
        Sentinel::Server => "SERVER",
        Sentinel::Idle => "IDLE",
        Sentinel::SendResponse => "SEND_RESPONSE",
        Sentinel::SendBody => "SEND_BODY",
        Sentinel::Done => "DONE",
        Sentinel::MustClose => "MUST_CLOSE",
        Sentinel::Closed => "CLOSED",
        Sentinel::Error => "ERROR",
        Sentinel::MightSwitchProtocol => "MIGHT_SWITCH_PROTOCOL",
        Sentinel::SwitchedProtocol => "SWITCHED_PROTOCOL",
        Sentinel::SwitchUpgrade => "SWITCH_UPGRADE",
        Sentinel::SwitchConnect => "SWITCH_CONNECT",
    }
}

fn event_type_name_exec(e: EventType) -> (r: &'static str)
    ensures
        r@ == event_type_name(e),
{
    match e {
        EventType::Request => "Request",
        EventType::InformationalResponse => "InformationalResponse",
        EventType::Response => "Response",
        EventType::Data => "Data",
        EventType::EndOfMessage => "EndOfMessage",
        EventType::ConnectionClosed => "ConnectionClosed",
    }
}

fn miss_message_exec(role: Sentinel, state: Sentinel, event: EventType) -> (r: String)
    ensures
        r@ == miss_message(role, state, event),
{
    let mut msg = String::from_str("can't handle event type ");
    msg.append(event_type_name_exec(event));
    msg.append(" when role=");
    msg.append(sentinel_name_exec(role));
    msg.append(" and state=");
    msg.append(sentinel_name_exec(state));
    msg
}

/// Whether `cs` has `switch` among its pending proposals.
pub open spec fn pending_has(cs: ConnectionState, switch: Sentinel) -> bool {
    match switch {
        Sentinel::SwitchUpgrade => cs.pending_switch_proposals.upgrade,
        Sentinel::SwitchConnect => cs.pending_switch_proposals.connect,
        _ => false,
    }
}

/// What `process_event` does: the proposal check, the optional
/// decline of pending proposals on a plain server response, the
/// event-triggered transition (for a client request, of both roles),
/// the joint switch when the server accepts one, and finally the
/// state-triggered closure.
pub open spec fn process_event_spec(
    cs: ConnectionState,
    role: Sentinel,
    event: EventType,
    server_switch_event: Option<Sentinel>,
) -> Result<ConnectionState, Seq<char>> {
    match server_switch_event {
        Some(sw) => {
            if !pending_has(cs, sw) {
                Err("Received server _SWITCH_UPGRADE event without a pending proposal"@)
            } else {
                match switch_transition(cs.server_state, event, sw) {
                    None => Err(miss_message(Sentinel::Server, cs.server_state, event)),
                    Some(_) => Ok(
                        state_closure(
                            ConnectionState {
                                keep_alive: cs.keep_alive,
                                pending_switch_proposals: SwitchProposals {
                                    upgrade: false,
                                    connect: false,
                                },
                                client_state: Sentinel::SwitchedProtocol,
                                server_state: Sentinel::SwitchedProtocol,
                            },
                        ),
                    ),
                }
            }
        },
        None => {
            let cs1 = if role == Sentinel::Server && event == EventType::Response {
                ConnectionState {
                    pending_switch_proposals: SwitchProposals { upgrade: false, connect: false },
                    ..cs
                }
            } else {
                cs
            };
            let state = if role == Sentinel::Client {
                cs1.client_state
            } else {
                cs1.server_state
            };
            match event_transition(role, state, event) {
                None => Err(miss_message(role, state, event)),
                Some(ns) => {
                    let cs2 = if role == Sentinel::Client {
                        ConnectionState { client_state: ns, ..cs1 }
                    } else {
                        ConnectionState { server_state: ns, ..cs1 }
                    };
                    if role == Sentinel::Client && event == EventType::Request {
                        match event_transition(Sentinel::Server, cs2.server_state, event) {
                            None => Err(miss_message(Sentinel::Server, cs2.server_state, event)),
                            Some(ss) => Ok(
                                state_closure(ConnectionState { server_state: ss, ..cs2 }),
                            ),
                        }
                    } else {
                        Ok(state_closure(cs2))
                    }
                },
            }
        },
    }
}

/// The state `process_event` leaves behind when it reports an error:
/// everything as it was, except that a plain server response has
/// already declined the pending proposals.
pub open spec fn process_event_err_state(
    cs: ConnectionState,
    role: Sentinel,
    event: EventType,
    server_switch_event: Option<Sentinel>,
) -> ConnectionState {
    if server_switch_event is None && role == Sentinel::Server && event == EventType::Response {
        ConnectionState {
            pending_switch_proposals: SwitchProposals { upgrade: false, connect: false },
            ..cs
        }
    } else {
        cs
    }
}

impl ConnectionState {
    /// A fresh connection: both roles idle, keep-alive on, no
    /// proposals pending.
    pub fn new() -> (r: ConnectionState)
        ensures
            r.keep_alive,
            r.pending_switch_proposals.spec_is_empty(),
            r.client_state == Sentinel::Idle,
            r.server_state == Sentinel::Idle,
    {
        ConnectionState {
            keep_alive: true,
            pending_switch_proposals: SwitchProposals { upgrade: false, connect: false },
            client_state: Sentinel::Idle,
            server_state: Sentinel::Idle,
        }
    }

    fn state_pass_exec(&self) -> (r: ConnectionState)
        ensures
            r == state_pass(*self),
    {
        let mut client = self.client_state;
        let mut server = self.server_state;
        if !self.pending_switch_proposals.is_empty() && client == Sentinel::Done {
            client = Sentinel::MightSwitchProtocol;
        }
        if self.pending_switch_proposals.is_empty() && client == Sentinel::MightSwitchProtocol {
            client = Sentinel::Done;
        }
        if !self.keep_alive && client == Sentinel::Done {
            client = Sentinel::MustClose;
        }
        if !self.keep_alive && server == Sentinel::Done {
            server = Sentinel::MustClose;
        }
        let joint_client = client;
        let joint_server = server;
        if joint_client == Sentinel::Done && joint_server == Sentinel::Closed {
            server = Sentinel::MustClose;
        }
        if joint_client == Sentinel::Done && joint_server == Sentinel::Error {
            client = Sentinel::MustClose;
        }
        ConnectionState {
            keep_alive: self.keep_alive,
            pending_switch_proposals: self.pending_switch_proposals,
            client_state: client,
            server_state: server,
        }
    }

    /// Runs the state-triggered rules until no state changes.
    fn fire_state_triggered_transitions(&mut self)
        ensures
            *final(self) == state_closure(*old(self)),
    {
        loop
            invariant
                state_closure(*self) == state_closure(*old(self)),
            decreases closure_measure(*self),
        {
            let next = self.state_pass_exec();
            if next == *self {
                return;
            }
            proof {
                lemma_state_pass_measure(*self);
            }
            *self = next;
        }
    }

    /// Marks `role` as in error and re-derives the rest.
    pub fn process_error(&mut self, role: Sentinel)
        requires
            role == Sentinel::Client || role == Sentinel::Server,
        ensures
            *final(self) == state_closure(
                if role == Sentinel::Client {
                    ConnectionState { client_state: Sentinel::Error, ..*old(self) }
                } else {
                    ConnectionState { server_state: Sentinel::Error, ..*old(self) }
                },
            ),
    {
        if role == Sentinel::Client {
            self.client_state = Sentinel::Error;
        } else {
            self.server_state = Sentinel::Error;
        }
        self.fire_state_triggered_transitions();
    }

    /// Turns keep-alive off and re-derives the rest.
    pub fn process_keep_alive_disabled(&mut self)
        ensures
            *final(self) == state_closure(ConnectionState { keep_alive: false, ..*old(self) }),
    {
        self.keep_alive = false;
        self.fire_state_triggered_transitions();
    }

    /// Records a client proposal to switch protocols and re-derives
    /// the rest.
    pub fn process_client_switch_proposal(&mut self, switch_event: Sentinel)
        requires
            switch_event == Sentinel::SwitchUpgrade || switch_event == Sentinel::SwitchConnect,
        ensures
            *final(self) == state_closure(
                ConnectionState {
                    pending_switch_proposals: SwitchProposals {
                        upgrade: old(self).pending_switch_proposals.upgrade || switch_event
                            == Sentinel::SwitchUpgrade,
                        connect: old(self).pending_switch_proposals.connect || switch_event
                            == Sentinel::SwitchConnect,
                    },
                    ..*old(self)
                },
            ),
    {
        if switch_event == Sentinel::SwitchUpgrade {
            self.pending_switch_proposals.upgrade = true;
        } else {
            self.pending_switch_proposals.connect = true;
        }
        self.fire_state_triggered_transitions();
    }

    /// Fires the transition for `event` on `role`, handling a server
    /// switch acceptance when `server_switch_event` names a pending
    /// proposal; unknown combinations report a local protocol error.
    pub fn process_event(
        &mut self,
        role: Sentinel,
        event_type: EventType,
        server_switch_event: Option<Sentinel>,
    ) -> (r: Result<(), LocalProtocolError>)
        requires
            role == Sentinel::Client || role == Sentinel::Server,
            server_switch_event matches Some(s) ==> role == Sentinel::Server && (s
                == Sentinel::SwitchUpgrade || s == Sentinel::SwitchConnect),
        ensures
            match r {
                Ok(()) => process_event_spec(*old(self), role, event_type, server_switch_event)
                    matches Ok(cs) && *final(self) == cs,
                Err(e) => process_event_spec(*old(self), role, event_type, server_switch_event)
                    matches Err(m) && e.0@ == m && *final(self) == process_event_err_state(
                    *old(self),
                    role,
                    event_type,
                    server_switch_event,
                ),
            },
    {
        match server_switch_event {
            Some(sw) => {
                let pending = if sw == Sentinel::SwitchUpgrade {
                    self.pending_switch_proposals.upgrade
                } else {
                    self.pending_switch_proposals.connect
                };
                if !pending {
                    return Err(
                        LocalProtocolError(
                            String::from_str(
                                "Received server _SWITCH_UPGRADE event without a pending proposal",
                            ),
                        ),
                    );
                }
                let accepted = if sw == Sentinel::SwitchUpgrade {
                    self.server_state == Sentinel::SendResponse && event_type
                        == EventType::InformationalResponse
                } else {
                    self.server_state == Sentinel::SendResponse && event_type
                        == EventType::Response
                };
                if !accepted {
                    return Err(
                        LocalProtocolError(
                            miss_message_exec(Sentinel::Server, self.server_state, event_type),
                        ),
                    );
                }
                self.client_state = Sentinel::SwitchedProtocol;
                self.server_state = Sentinel::SwitchedProtocol;
                self.pending_switch_proposals = SwitchProposals {
                    upgrade: false,
                    connect: false,
                };
                self.fire_state_triggered_transitions();
                Ok(())
            },
            None => {
                if role == Sentinel::Server && event_type == EventType::Response {
                    self.pending_switch_proposals = SwitchProposals {
                        upgrade: false,
                        connect: false,
                    };
                }
                let state = if role == Sentinel::Client {
                    self.client_state
                } else {
                    self.server_state
                };
                let ns = match event_transition_exec(role, state, event_type) {
                    Some(ns) => ns,
                    None => {
                        return Err(LocalProtocolError(miss_message_exec(role, state, event_type)));
                    },
                };
                if role == Sentinel::Client && event_type == EventType::Request {
                    let ss = match event_transition_exec(
                        Sentinel::Server,
                        self.server_state,
                        event_type,
                    ) {
                        Some(ss) => ss,
                        None => {
                            return Err(
                                LocalProtocolError(
                                    miss_message_exec(
                                        Sentinel::Server,
                                        self.server_state,
                                        event_type,
                                    ),
                                ),
                            );
                        },
                    };
                    self.client_state = ns;
                    self.server_state = ss;
                } else {
                    if role == Sentinel::Client {
                        self.client_state = ns;
                    } else {
                        self.server_state = ns;
                    }
                }
                self.fire_state_triggered_transitions();
                Ok(())
            },
        }
    }

    /// Resets both roles to idle for a new request/response cycle;
    /// legal only when both are exactly `Done`, keep-alive still
    /// holds, and no switch proposal is pending.
    pub fn start_next_cycle(&mut self) -> (r: Result<(), LocalProtocolError>)
        ensures
            ({
                let reusable = old(self).client_state == Sentinel::Done && old(self).server_state
                    == Sentinel::Done && old(self).keep_alive && old(
                    self,
                ).pending_switch_proposals.spec_is_empty();
                match r {
                    Ok(()) => reusable && *final(self) == ConnectionState {
                        client_state: Sentinel::Idle,
                        server_state: Sentinel::Idle,
                        ..*old(self)
                    },
                    Err(e) => !reusable && *final(self) == *old(self) && e.0@
                        == "not in a reusable state"@,
                }
            }),
    {
        if !(self.client_state == Sentinel::Done && self.server_state == Sentinel::Done
            && self.keep_alive && self.pending_switch_proposals.is_empty()) {
            return Err(LocalProtocolError(String::from_str("not in a reusable state")));
        }
        self.client_state = Sentinel::Idle;
        self.server_state = Sentinel::Idle;
        Ok(())
    }
}

/// The transition table, as executable code.
fn event_transition_exec(role: Sentinel, state: Sentinel, event: EventType) -> (r: Option<
    Sentinel,
>)
    ensures
        r == event_transition(role, state, event),
{
    match role {
        Sentinel::Client => match (state, event) {
            (Sentinel::Idle, EventType::Request) => Some(Sentinel::SendBody),
            (Sentinel::Idle, EventType::ConnectionClosed) => Some(Sentinel::Closed),
            (Sentinel::SendBody, EventType::Data) => Some(Sentinel::SendBody),
            (Sentinel::SendBody, EventType::EndOfMessage) => Some(Sentinel::Done),
            (Sentinel::Done, EventType::ConnectionClosed) => Some(Sentinel::Closed),
            (Sentinel::MustClose, EventType::ConnectionClosed) => Some(Sentinel::Closed),
            (Sentinel::Closed, EventType::ConnectionClosed) => Some(Sentinel::Closed),
            _ => None,
        },
        Sentinel::Server => match (state, event) {
            (Sentinel::Idle, EventType::ConnectionClosed) => Some(Sentinel::Closed),
            (Sentinel::Idle, EventType::Response) => Some(Sentinel::SendBody),
            (Sentinel::Idle, EventType::Request) => Some(Sentinel::SendResponse),
            (Sentinel::SendResponse, EventType::InformationalResponse) => Some(
                Sentinel::SendResponse,
            ),
            (Sentinel::SendResponse, EventType::Response) => Some(Sentinel::SendBody),
            (Sentinel::SendBody, EventType::Data) => Some(Sentinel::SendBody),
            (Sentinel::SendBody, EventType::EndOfMessage) => Some(Sentinel::Done),
            (Sentinel::Done, EventType::ConnectionClosed) => Some(Sentinel::Closed),
            (Sentinel::MustClose, EventType::ConnectionClosed) => Some(Sentinel::Closed),
            (Sentinel::Closed, EventType::ConnectionClosed) => Some(Sentinel::Closed),
            _ => None,
        },
        _ => None,
    }
}

} // verus!
