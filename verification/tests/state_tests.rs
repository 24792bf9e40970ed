use h1core::state::{ConnectionState, EventType, Sentinel};

#[test]
fn scenario_start_next_cycle_needs_done_done() {
    let mut cs = ConnectionState::new();
    assert_eq!(cs.client_state, Sentinel::Idle);
    assert_eq!(cs.server_state, Sentinel::Idle);
    let e = cs.start_next_cycle().unwrap_err();
    assert_eq!(e.0, "not in a reusable state");
    assert_eq!(cs.client_state, Sentinel::Idle);
    assert_eq!(cs.server_state, Sentinel::Idle);
}

fn drive_full_cycle(cs: &mut ConnectionState) {
    cs.process_event(Sentinel::Client, EventType::Request, None).unwrap();
    assert_eq!(cs.client_state, Sentinel::SendBody);
    assert_eq!(cs.server_state, Sentinel::SendResponse);
    cs.process_event(Sentinel::Client, EventType::EndOfMessage, None).unwrap();
    assert_eq!(cs.client_state, Sentinel::Done);
    cs.process_event(Sentinel::Server, EventType::InformationalResponse, None).unwrap();
    assert_eq!(cs.server_state, Sentinel::SendResponse);
    cs.process_event(Sentinel::Server, EventType::Response, None).unwrap();
    assert_eq!(cs.server_state, Sentinel::SendBody);
    cs.process_event(Sentinel::Server, EventType::EndOfMessage, None).unwrap();
    assert_eq!(cs.server_state, Sentinel::Done);
}

#[test]
fn a_full_cycle_reaches_done_done_and_resets() {
    let mut cs = ConnectionState::new();
    drive_full_cycle(&mut cs);
    assert_eq!(cs.client_state, Sentinel::Done);
    cs.start_next_cycle().unwrap();
    assert_eq!(cs.client_state, Sentinel::Idle);
    assert_eq!(cs.server_state, Sentinel::Idle);
}

#[test]
fn disabling_keep_alive_forces_done_roles_to_must_close() {
    let mut cs = ConnectionState::new();
    drive_full_cycle(&mut cs);
    cs.process_keep_alive_disabled();
    assert_eq!(cs.client_state, Sentinel::MustClose);
    assert_eq!(cs.server_state, Sentinel::MustClose);
    let e = cs.start_next_cycle().unwrap_err();
    assert_eq!(e.0, "not in a reusable state");
}

#[test]
fn unknown_combination_is_a_protocol_error() {
    let mut cs = ConnectionState::new();
    let e = cs
        .process_event(Sentinel::Client, EventType::Response, None)
        .unwrap_err();
    assert_eq!(e.0, "can't handle event type Response when role=CLIENT and state=IDLE");
    assert_eq!(cs.client_state, Sentinel::Idle);
}

#[test]
fn process_error_marks_the_role() {
    let mut cs = ConnectionState::new();
    cs.process_error(Sentinel::Server);
    assert_eq!(cs.server_state, Sentinel::Error);
    assert_eq!(cs.client_state, Sentinel::Idle);
}

#[test]
fn joint_state_done_error_forces_client_must_close() {
    let mut cs = ConnectionState::new();
    cs.process_event(Sentinel::Client, EventType::Request, None).unwrap();
    cs.process_event(Sentinel::Client, EventType::EndOfMessage, None).unwrap();
    assert_eq!(cs.client_state, Sentinel::Done);
    cs.process_error(Sentinel::Server);
    assert_eq!(cs.client_state, Sentinel::MustClose);
}

#[test]
fn a_pending_proposal_parks_the_client_and_decline_releases_it() {
    let mut cs = ConnectionState::new();
    cs.process_client_switch_proposal(Sentinel::SwitchUpgrade);
    cs.process_event(Sentinel::Client, EventType::Request, None).unwrap();
    cs.process_event(Sentinel::Client, EventType::EndOfMessage, None).unwrap();
    assert_eq!(cs.client_state, Sentinel::MightSwitchProtocol);
    // A plain response declines the proposal and the client returns
    // to Done.
    cs.process_event(Sentinel::Server, EventType::Response, None).unwrap();
    assert_eq!(cs.client_state, Sentinel::Done);
    assert_eq!(cs.server_state, Sentinel::SendBody);
}

#[test]
fn an_accepted_upgrade_switches_both_roles_together() {
    let mut cs = ConnectionState::new();
    cs.process_client_switch_proposal(Sentinel::SwitchUpgrade);
    cs.process_event(Sentinel::Client, EventType::Request, None).unwrap();
    cs.process_event(Sentinel::Client, EventType::EndOfMessage, None).unwrap();
    assert_eq!(cs.client_state, Sentinel::MightSwitchProtocol);
    cs.process_event(
        Sentinel::Server,
        EventType::InformationalResponse,
        Some(Sentinel::SwitchUpgrade),
    )
    .unwrap();
    assert_eq!(cs.client_state, Sentinel::SwitchedProtocol);
    assert_eq!(cs.server_state, Sentinel::SwitchedProtocol);
}

#[test]
fn a_switch_event_without_a_proposal_is_rejected() {
    let mut cs = ConnectionState::new();
    cs.process_event(Sentinel::Client, EventType::Request, None).unwrap();
    let e = cs
        .process_event(
            Sentinel::Server,
            EventType::InformationalResponse,
            Some(Sentinel::SwitchUpgrade),
        )
        .unwrap_err();
    assert_eq!(e.0, "Received server _SWITCH_UPGRADE event without a pending proposal");
}
