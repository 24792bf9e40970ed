use h1core::connection::{Connection, Role, DEFAULT_MAX_INCOMPLETE_EVENT_SIZE};
use h1core::events::{Event, Request, Response};

#[test]
fn scenario_empty_receive_marks_closed_and_reports_connection_closed() {
    let mut client = Connection::new(Role::Client, DEFAULT_MAX_INCOMPLETE_EVENT_SIZE);
    client.receive_data(b"").unwrap();
    let ev = client.next_event().unwrap();
    assert!(matches!(ev, Event::ConnectionClosed(_)));
}

#[test]
fn error_state_rejects_next_event_and_send() {
    let mut client = Connection::new(Role::Client, DEFAULT_MAX_INCOMPLETE_EVENT_SIZE);
    client.cstate.process_error(h1core::state::Sentinel::Client);
    let e = client.next_event().unwrap_err();
    assert_eq!(e, "Cannot process events in the ERROR state.");
    let req = Request::new(
        b"GET".to_vec(),
        b"/".to_vec(),
        vec![(b"Host".to_vec(), b"a".to_vec())],
        b"1.1".to_vec(),
    )
    .unwrap();
    let e = client.send(Event::Request(req)).unwrap_err();
    assert_eq!(e, "Cannot send data in the ERROR state.");
}

#[test]
fn need_more_data_and_overlong_buffer_are_reported() {
    let mut server = Connection::new(Role::Server, 8);
    server.receive_data(b"GET /").unwrap();
    assert_eq!(server.next_event().unwrap_err(), "need more data");
    server.receive_data(b" HTTP/1.1").unwrap();
    assert_eq!(server.next_event().unwrap_err(), "Receive buffer too long");
}

#[test]
fn an_obviously_invalid_request_line_fails_fast() {
    let mut server = Connection::new(Role::Server, DEFAULT_MAX_INCOMPLETE_EVENT_SIZE);
    server.receive_data(&[0x10, 0x11]).unwrap();
    assert_eq!(server.next_event().unwrap_err(), "illegal request line");
}

#[test]
fn round_trip_request_with_content_length_body() {
    let mut client = Connection::new(Role::Client, DEFAULT_MAX_INCOMPLETE_EVENT_SIZE);
    let req = Request::new(
        b"POST".to_vec(),
        b"/upload".to_vec(),
        vec![
            (b"Host".to_vec(), b"example.com".to_vec()),
            (b"Content-Length".to_vec(), b"5".to_vec()),
        ],
        b"1.1".to_vec(),
    )
    .unwrap();
    let head = client.send(Event::Request(req)).unwrap();
    assert_eq!(
        head,
        b"POST /upload HTTP/1.1\r\nHost: example.com\r\nContent-Length: 5\r\n\r\n".to_vec()
    );

    let mut server = Connection::new(Role::Server, DEFAULT_MAX_INCOMPLETE_EVENT_SIZE);
    server.receive_data(&head).unwrap();
    let ev = server.next_event().unwrap();
    match ev {
        Event::Request(parsed) => {
            assert_eq!(parsed.method, b"POST".to_vec());
            assert_eq!(parsed.target, b"/upload".to_vec());
            assert_eq!(parsed.http_version, b"1.1".to_vec());
            assert_eq!(
                parsed.headers.raw_items(),
                vec![
                    (b"Host".to_vec(), b"example.com".to_vec()),
                    (b"Content-Length".to_vec(), b"5".to_vec()),
                ]
            );
        },
        other => panic!("expected a request event, got {:?}", other),
    }
    assert_eq!(server.next_event().unwrap_err(), "need more data");
    server.receive_data(b"hello").unwrap();
    match server.next_event().unwrap() {
        Event::Data(d) => {
            assert_eq!(d.data, b"hello".to_vec());
            assert!(d.chunk_end);
        },
        other => panic!("expected body data, got {:?}", other),
    }
    match server.next_event().unwrap() {
        Event::EndOfMessage(_) => {},
        other => panic!("expected end of message, got {:?}", other),
    }
}

#[test]
fn round_trip_response_with_chunked_body() {
    // The server answers an in-flight request with a chunked body.
    let mut server = Connection::new(Role::Server, DEFAULT_MAX_INCOMPLETE_EVENT_SIZE);
    server
        .receive_data(b"GET / HTTP/1.1\r\nHost: a\r\n\r\n")
        .unwrap();
    server.next_event().unwrap();
    let resp = Response::new(
        200,
        vec![(b"Transfer-Encoding".to_vec(), b"chunked".to_vec())],
        b"OK".to_vec(),
        b"1.1".to_vec(),
    )
    .unwrap();
    let head = server.send(Event::Response(resp)).unwrap();
    assert_eq!(
        head,
        b"HTTP/1.1 200 OK\r\nTransfer-Encoding: chunked\r\n\r\n".to_vec()
    );

    let mut client = Connection::new(Role::Client, DEFAULT_MAX_INCOMPLETE_EVENT_SIZE);
    client.receive_data(&head).unwrap();
    match client.next_event().unwrap() {
        Event::Response(parsed) => {
            assert_eq!(parsed.status_code, 200);
            assert_eq!(parsed.reason, b"OK".to_vec());
            assert_eq!(
                parsed.headers.raw_items(),
                vec![(b"Transfer-Encoding".to_vec(), b"chunked".to_vec())]
            );
        },
        other => panic!("expected a response event, got {:?}", other),
    }
    let mut body = Vec::new();
    let mut w = h1core::writers::ChunkedWriter;
    w.write_data(b"hello", &mut body).unwrap();
    w.write_eom(h1core::headers::Headers::new(Vec::new()), &mut body).unwrap();
    client.receive_data(&body).unwrap();
    match client.next_event().unwrap() {
        Event::Data(d) => {
            assert_eq!(d.data, b"hello".to_vec());
            assert!(d.chunk_start && d.chunk_end);
        },
        other => panic!("expected body data, got {:?}", other),
    }
    // One pass discards the chunk terminator and enters the trailer.
    assert_eq!(client.next_event().unwrap_err(), "need more data");
    match client.next_event().unwrap() {
        Event::EndOfMessage(_) => {},
        other => panic!("expected end of message, got {:?}", other),
    }
}

#[test]
fn response_without_framing_headers_reads_until_close() {
    let mut client = Connection::new(Role::Client, DEFAULT_MAX_INCOMPLETE_EVENT_SIZE);
    client
        .receive_data(b"HTTP/1.1 200 OK\r\nServer: x\r\n\r\nsome body")
        .unwrap();
    match client.next_event().unwrap() {
        Event::Response(_) => {},
        other => panic!("expected a response event, got {:?}", other),
    }
    match client.next_event().unwrap() {
        Event::Data(d) => assert_eq!(d.data, b"some body".to_vec()),
        other => panic!("expected body data, got {:?}", other),
    }
}

#[test]
fn malformed_heads_are_rejected() {
    let mut server = Connection::new(Role::Server, DEFAULT_MAX_INCOMPLETE_EVENT_SIZE);
    server.receive_data(b"NOT-A-REQUEST\r\n\r\n").unwrap();
    assert_eq!(server.next_event().unwrap_err(), "malformed request head");

    let mut client = Connection::new(Role::Client, DEFAULT_MAX_INCOMPLETE_EVENT_SIZE);
    client.receive_data(b"BOGUS\r\n\r\n").unwrap();
    assert_eq!(client.next_event().unwrap_err(), "malformed response head");
}

#[test]
fn a_request_without_host_is_rejected_when_parsed() {
    let mut server = Connection::new(Role::Server, DEFAULT_MAX_INCOMPLETE_EVENT_SIZE);
    server.receive_data(b"GET / HTTP/1.1\r\nAccept: x\r\n\r\n").unwrap();
    assert_eq!(server.next_event().unwrap_err(), "Missing mandatory Host: header");
}

#[test]
fn a_request_target_outside_the_wire_grammar_is_rejected() {
    let mut server = Connection::new(Role::Server, DEFAULT_MAX_INCOMPLETE_EVENT_SIZE);
    // The delete character is not a visible ASCII byte, so the
    // target fails the request-target grammar.
    server
        .receive_data(b"GET /a\x7fb HTTP/1.1\r\nHost: a\r\n\r\n")
        .unwrap();
    assert_eq!(server.next_event().unwrap_err(), "malformed request head");
}

#[test]
fn send_checks_the_event_kind_against_the_role() {
    let mut server = Connection::new(Role::Server, DEFAULT_MAX_INCOMPLETE_EVENT_SIZE);
    let req = Request::new(
        b"GET".to_vec(),
        b"/".to_vec(),
        vec![(b"Host".to_vec(), b"a".to_vec())],
        b"1.1".to_vec(),
    )
    .unwrap();
    let e = server.send(Event::Request(req)).unwrap_err();
    assert_eq!(e, "Unsupported event type");

    let mut client = Connection::new(Role::Client, DEFAULT_MAX_INCOMPLETE_EVENT_SIZE);
    let resp = Response::new(200, vec![], b"OK".to_vec(), b"1.1".to_vec()).unwrap();
    let e = client.send(Event::Response(resp)).unwrap_err();
    assert_eq!(e, "Unsupported event type");
}

#[test]
fn send_rejects_unsupported_event_types() {
    let mut client = Connection::new(Role::Client, DEFAULT_MAX_INCOMPLETE_EVENT_SIZE);
    let e = client
        .send(Event::ConnectionClosed(h1core::events::ConnectionClosed::new()))
        .unwrap_err();
    assert_eq!(e, "Unsupported event type");
}

#[test]
fn default_max_incomplete_event_size_is_sixteen_kib() {
    assert_eq!(DEFAULT_MAX_INCOMPLETE_EVENT_SIZE, 16 * 1024);
}

#[test]
fn new_connection_swaps_roles() {
    let c = Connection::new(Role::Client, 64);
    assert_eq!(c.our_role, Role::Client);
    assert_eq!(c.their_role, Role::Server);
    assert_eq!(c.max_incomplete_event_size, 64);
    let s = Connection::new(Role::Server, 64);
    assert_eq!(s.their_role, Role::Client);
}
