use h1core::receive_buffer::ReceiveBuffer;

#[test]
fn append_len_is_empty_as_bytes() {
    let mut buf = ReceiveBuffer::new();
    assert!(buf.is_empty());
    buf.append(b"Hello");
    assert_eq!(buf.len(), 5);
    assert!(!buf.is_empty());
    assert_eq!(buf.as_bytes(), b"Hello");
}

#[test]
fn add_data_and_pop() {
    let mut buf = ReceiveBuffer::new();
    buf.add_data(&[1, 2, 3]);
    assert_eq!(buf.pop(), Some(1));
    assert_eq!(buf.pop(), Some(2));
    assert_eq!(buf.pop(), Some(3));
    assert_eq!(buf.pop(), None);
}

#[test]
fn maybe_extract_at_most_is_all_or_nothing() {
    let mut buf = ReceiveBuffer::new();
    buf.append(b"Hello");
    assert_eq!(buf.maybe_extract_at_most(3), Some(b"Hel".to_vec()));
    assert_eq!(buf.maybe_extract_at_most(3), None);
    assert_eq!(buf.maybe_extract_at_most(2), Some(b"lo".to_vec()));
}

#[test]
fn maybe_extract_next_line_waits_for_crlf() {
    let mut buf = ReceiveBuffer::new();
    buf.append(b"Hello");
    assert_eq!(buf.maybe_extract_next_line(), None);
    buf.append(b"\r");
    assert_eq!(buf.maybe_extract_next_line(), None);
    buf.append(b"\nWorld");
    assert_eq!(buf.maybe_extract_next_line(), Some(b"Hello\r\n".to_vec()));
    assert_eq!(buf.maybe_extract_next_line(), None);
    assert_eq!(buf.as_bytes(), b"World");
}

#[test]
fn maybe_extract_lines_splits_a_head() {
    let mut buf = ReceiveBuffer::new();
    buf.append(b"Hello\r\nWorld\r\n\r\ntail");
    let lines = buf.maybe_extract_lines().unwrap();
    assert_eq!(lines, vec![b"Hello".to_vec(), b"World".to_vec()]);
    assert_eq!(buf.as_bytes(), b"tail");
}

#[test]
fn maybe_extract_lines_handles_immediate_blank_lines() {
    let mut buf = ReceiveBuffer::new();
    buf.append(b"\nrest");
    assert_eq!(buf.maybe_extract_lines(), Some(vec![]));
    assert_eq!(buf.as_bytes(), b"rest");

    let mut buf = ReceiveBuffer::new();
    buf.append(b"\r\nrest");
    assert_eq!(buf.maybe_extract_lines(), Some(vec![]));
    assert_eq!(buf.as_bytes(), b"rest");
}

#[test]
fn maybe_extract_lines_needs_a_blank_line() {
    let mut buf = ReceiveBuffer::new();
    buf.append(b"Hello\r\nWorld\r\n");
    assert_eq!(buf.maybe_extract_lines(), None);
    buf.append(b"\r\n");
    let lines = buf.maybe_extract_lines().unwrap();
    assert_eq!(lines, vec![b"Hello".to_vec(), b"World".to_vec()]);
    assert!(buf.is_empty());
}

#[test]
fn obviously_invalid_request_line_is_flagged() {
    let mut buf = ReceiveBuffer::new();
    assert!(!buf.is_next_line_obviously_invalid_request_line());
    buf.append(&[0x10]);
    assert!(buf.is_next_line_obviously_invalid_request_line());
    let mut ok = ReceiveBuffer::new();
    ok.append(b"GET");
    assert!(!ok.is_next_line_obviously_invalid_request_line());
}
