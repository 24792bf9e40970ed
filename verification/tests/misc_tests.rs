use h1core::events::{ConnectionClosed, EndOfMessage, Event, InformationalResponse, Request, Response};
use h1core::http2::error::ErrorCodes;
use h1core::http2::utility::guard_increment_window;
use h1core::http_regex;
use h1core::util::{bytesify, ProtocolError, SentinelType};

#[test]
fn protocol_error_kinds_and_status_hints() {
    let local = ProtocolError::new_local("bad header", 400);
    assert_eq!(local.error_status_hint(), 400);
    assert!(matches!(
        local,
        ProtocolError::LocalProtocolError { ref message, .. } if message == "bad header"
    ));
    let remote = ProtocolError::new_remote("peer closed", 503);
    assert_eq!(remote.error_status_hint(), 503);
    assert!(matches!(remote, ProtocolError::RemoteProtocolError { .. }));
}

#[test]
fn bytesify_copies_ascii_bytes() {
    assert_eq!(bytesify(b"Hello, world!"), b"Hello, world!".to_vec());
    assert_eq!(bytesify(b""), Vec::<u8>::new());
    let _marker = SentinelType;
}

#[test]
fn wire_grammar_patterns_are_published() {
    assert_eq!(http_regex::field_content(), "[^\\x00\\s]+(?:[ \\t]+[^\\x00\\s])*");
    assert_eq!(http_regex::field_value(), "([^\\x00\\s]+(?:[ \\t]+[^\\x00\\s])*)?");
    assert_eq!(
        http_regex::header_field(),
        "(?P<field_name>[-!#$%&'*+.^_`|~0-9a-zA-Z]+)[ \\t]*:[ \\t]*(?P<field_value>([^\\x00\\s]+(?:[ \\t]+[^\\x00\\s])*)?)[ \\t]*"
    );
    assert_eq!(
        http_regex::request_line(),
        "(?P<method>[-!#$%&'*+.^_`|~0-9a-zA-Z]+) (?P<target>[\\x21-\\x7e]+) HTTP/(?P<http_version>[0-9]\\.[0-9])"
    );
    assert_eq!(
        http_regex::status_line(),
        "HTTP/(?P<http_version>[0-9]\\.[0-9]) (?P<status_code>[0-9]{3})(?: (?P<reason>([ \\t]|[^\\x00\\s])*))?"
    );
    assert_eq!(
        http_regex::chunk_header(),
        "(?P<chunk_size>[0-9A-Fa-f]{1,20})(?P<chunk_ext>;.*)?[ \\t]*\\r\\n"
    );
}

#[test]
fn the_published_patterns_describe_the_wire_grammar() {
    // The checking calls behind validation agree with the published
    // request-line pattern on simple inputs.
    let re = regex::Regex::new(&format!("^{}$", http_regex::request_line())).unwrap();
    assert!(re.is_match("GET /x HTTP/1.1"));
    assert!(!re.is_match("GET  /x HTTP/1.1"));
}

#[test]
fn error_codes_map_to_their_registry_values() {
    assert!(matches!(ErrorCodes::from_int(0x0), ErrorCodes::NoError));
    assert!(matches!(ErrorCodes::from_int(0x3), ErrorCodes::FlowControlError));
    assert!(matches!(ErrorCodes::from_int(0xd), ErrorCodes::Http1_1Required));
}

#[test]
fn flow_control_window_growth_is_bounded() {
    assert_eq!(guard_increment_window(100, 500).unwrap(), 600);
    let e = guard_increment_window(0x7fffffff, 1).unwrap_err();
    assert_eq!(e.0, "May not increment flow control window past 2147483647");
}

#[test]
fn request_construction_requires_host_for_http11() {
    let e = Request::new(
        b"GET".to_vec(),
        b"/".to_vec(),
        vec![(b"Accept".to_vec(), b"x".to_vec())],
        b"1.1".to_vec(),
    )
    .unwrap_err();
    assert_eq!(e.0, "Missing mandatory Host: header");
    // HTTP/1.0 requests need no Host header.
    assert!(Request::new(
        b"GET".to_vec(),
        b"/".to_vec(),
        vec![(b"Accept".to_vec(), b"x".to_vec())],
        b"1.0".to_vec(),
    )
    .is_ok());
}

#[test]
fn response_status_codes_are_range_checked() {
    let e = Response::new(99, vec![], b"?".to_vec(), b"1.1".to_vec()).unwrap_err();
    assert_eq!(e.0, "Response status_code should be in range [200, 1000), not 99");
    assert!(Response::new(200, vec![], b"OK".to_vec(), b"1.1".to_vec()).is_ok());
    let e = InformationalResponse::new(200, vec![], b"?".to_vec(), b"1.1".to_vec()).unwrap_err();
    assert_eq!(
        e.0,
        "InformationalResponse status_code should be in range [100, 200), not 200"
    );
    assert!(InformationalResponse::new(100, vec![], b"Continue".to_vec(), b"1.1".to_vec()).is_ok());
}

#[test]
fn end_of_message_and_connection_closed_construct() {
    let eom = EndOfMessage::new(None);
    assert_eq!(eom.headers.len(), 0);
    let eom = EndOfMessage::new(Some(vec![(b"X-Check".to_vec(), b"1".to_vec())]));
    assert_eq!(eom.headers.len(), 1);
    let _closed = ConnectionClosed::new();
}

#[test]
fn method_and_target_validation_accept_wire_validated_input() {
    let ev = Event::ConnectionClosed(ConnectionClosed::new());
    assert!(ev.validate_method(b"GET").is_ok());
    assert!(ev.validate_target(b"/index.html").is_ok());
}
