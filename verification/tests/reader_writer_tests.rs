use h1core::events::{Data, Event};
use h1core::headers::Headers;
use h1core::num::{dec_bytes, dec_string, hex_bytes, parse_dec, parse_hex};
use h1core::readers::{
    build_readers, parse_chunk_size, BodyReader, ChunkedReader, ContentLengthReader, Http10Reader,
    Reader,
};
use h1core::receive_buffer::ReceiveBuffer;
use h1core::writers::{
    create_writers, write_any_response, write_request, BodyWriter, ChunkedWriter,
    ContentLengthWriter, Http10Writer, MessageWriter,
};

#[test]
fn boundary_content_length_read_eof() {
    let mut done = ContentLengthReader::new(5);
    let mut buf = ReceiveBuffer::new();
    buf.append(b"hello");
    let d = done.read_body(&mut buf).unwrap();
    assert_eq!(d.data, b"hello".to_vec());
    assert!(d.chunk_end);
    assert!(done.read_body_eof().is_ok());

    let mut partial = ContentLengthReader::new(5);
    let mut buf = ReceiveBuffer::new();
    buf.append(b"he");
    assert!(partial.read_body(&mut buf).is_none());
    let e = partial.read_body_eof().unwrap_err();
    assert_eq!(
        e.0,
        "peer closed connection without sending complete message body (received 0 bytes, expected 5)"
    );
}

#[test]
fn content_length_reader_counts_received_bytes_in_eof_error() {
    let mut r = ContentLengthReader::new(5);
    r.remaining = 3;
    let e = r.read_body_eof().unwrap_err();
    assert_eq!(
        e.0,
        "peer closed connection without sending complete message body (received 2 bytes, expected 5)"
    );
}

#[test]
fn chunked_reader_reads_a_chunked_body() {
    let mut r = ChunkedReader::new();
    let mut buf = ReceiveBuffer::new();
    buf.append(b"5\r\nhello\r\n0\r\n\r\n");
    let d = r.read_body(&mut buf).unwrap().unwrap();
    assert_eq!(d.data, b"hello".to_vec());
    assert!(d.chunk_start);
    assert!(d.chunk_end);
    // The CRLF after the chunk is discarded, the zero-size chunk
    // switches to the trailer, and the blank line ends the message.
    assert!(r.read_body(&mut buf).unwrap().is_none());
    assert!(r.reading_trailer);
    let end = r.read_body(&mut buf).unwrap().unwrap();
    assert_eq!(end.data, Vec::<u8>::new());
    assert!(buf.is_empty());
}

#[test]
fn chunked_reader_rejects_bad_size_line() {
    let mut r = ChunkedReader::new();
    let mut buf = ReceiveBuffer::new();
    buf.append(b"zz\r\n");
    let e = r.read_body(&mut buf).unwrap_err();
    assert_eq!(e.0, "invalid chunk header");
}

#[test]
fn chunked_reader_eof_is_always_an_error() {
    let mut r = ChunkedReader::new();
    let e = r.read_body_eof().unwrap_err();
    assert_eq!(e.0, "peer closed connection without sending complete message body");
}

#[test]
fn http10_reader_reads_greedily_and_accepts_eof() {
    let mut r = Http10Reader;
    let mut buf = ReceiveBuffer::new();
    assert!(r.read_body(&mut buf).is_none());
    buf.append(b"anything");
    let d = r.read_body(&mut buf).unwrap();
    assert_eq!(d.data, b"anything".to_vec());
    assert!(r.read_body_eof().is_ok());
}

#[test]
fn parse_chunk_size_accepts_the_grammar() {
    assert_eq!(parse_chunk_size(b"5\r\n"), Some(5));
    assert_eq!(parse_chunk_size(b"a\r\n"), Some(10));
    assert_eq!(parse_chunk_size(b"1A;name=value\r\n"), Some(26));
    assert_eq!(parse_chunk_size(b"5  \r\n"), Some(5));
    assert_eq!(parse_chunk_size(b"zz\r\n"), None);
    assert_eq!(parse_chunk_size(b"\r\n"), None);
    assert_eq!(parse_chunk_size(b"111111111111111111111\r\n"), None);
}

#[test]
fn content_length_writer_enforces_the_declared_length() {
    let mut w = ContentLengthWriter::new(5);
    let mut out = Vec::new();
    w.write_data(b"hel", &mut out).unwrap();
    w.write_data(b"lo", &mut out).unwrap();
    assert_eq!(out, b"hello".to_vec());
    let e = w.write_data(b"!", &mut out).unwrap_err();
    assert_eq!(e.0, "Too much data for declared Content-Length");
    assert!(w.write_eom(Headers::new(Vec::new()), &mut out).is_ok());

    let mut short = ContentLengthWriter::new(5);
    let e = short.write_eom(Headers::new(Vec::new()), &mut out).unwrap_err();
    assert_eq!(e.0, "Too little data for declared Content-Length");

    let mut done = ContentLengthWriter::new(0);
    let mut trailers = Headers::new(Vec::new());
    trailers.add(b"X".to_vec(), b"x".to_vec(), b"1".to_vec());
    let e = done.write_eom(trailers, &mut out).unwrap_err();
    assert_eq!(e.0, "Content-Length and trailers don't mix");
}

#[test]
fn chunked_writer_emits_length_prefixed_chunks() {
    let mut w = ChunkedWriter;
    let mut out = Vec::new();
    w.write_data(b"", &mut out).unwrap();
    assert_eq!(out, Vec::<u8>::new());
    w.write_data(b"hello world!", &mut out).unwrap();
    assert_eq!(out, b"c\r\nhello world!\r\n".to_vec());
    let mut end = Vec::new();
    w.write_eom(Headers::new(Vec::new()), &mut end).unwrap();
    assert_eq!(end, b"0\r\n\r\n".to_vec());
}

#[test]
fn http10_writer_passes_data_through_and_rejects_trailers() {
    let mut w = Http10Writer;
    let mut out = Vec::new();
    w.write_data(b"raw", &mut out).unwrap();
    assert_eq!(out, b"raw".to_vec());
    assert!(w.write_eom(Headers::new(Vec::new()), &mut out).is_ok());
    let mut trailers = Headers::new(Vec::new());
    trailers.add(b"X".to_vec(), b"x".to_vec(), b"1".to_vec());
    let e = w.write_eom(trailers, &mut out).unwrap_err();
    assert_eq!(e.0, "can't send trailers to HTTP/1.0 client");
}

#[test]
fn write_request_serializes_the_head_with_host_first() {
    let req = h1core::events::Request::new(
        b"GET".to_vec(),
        b"/index.html".to_vec(),
        vec![
            (b"Accept".to_vec(), b"text/plain".to_vec()),
            (b"Host".to_vec(), b"example.com".to_vec()),
        ],
        b"1.1".to_vec(),
    )
    .unwrap();
    let mut out = Vec::new();
    write_request(&req, &mut out).unwrap();
    assert_eq!(
        out,
        b"GET /index.html HTTP/1.1\r\nHost: example.com\r\nAccept: text/plain\r\n\r\n".to_vec()
    );
}

#[test]
fn scenario_writer_only_sends_http11() {
    let resp = h1core::events::Response::new(
        200,
        vec![(b"Host".to_vec(), b"example.com".to_vec())],
        b"OK".to_vec(),
        b"1.0".to_vec(),
    )
    .unwrap();
    let mut out = Vec::new();
    let e = write_any_response(&resp, &mut out).unwrap_err();
    assert_eq!(e.0, "I only send HTTP/1.1");
    assert_eq!(out, Vec::<u8>::new());

    let req = h1core::events::Request::new(
        b"GET".to_vec(),
        b"/".to_vec(),
        vec![(b"Host".to_vec(), b"example.com".to_vec())],
        b"1.0".to_vec(),
    )
    .unwrap();
    let e = write_request(&req, &mut out).unwrap_err();
    assert_eq!(e.0, "I only send HTTP/1.1");
}

#[test]
fn write_any_response_serializes_the_status_line() {
    let resp = h1core::events::Response::new(
        404,
        vec![(b"Content-Length".to_vec(), b"0".to_vec())],
        b"Not Found".to_vec(),
        b"1.1".to_vec(),
    )
    .unwrap();
    let mut out = Vec::new();
    write_any_response(&resp, &mut out).unwrap();
    assert_eq!(
        out,
        b"HTTP/1.1 404 Not Found\r\nContent-Length: 0\r\n\r\n".to_vec()
    );
}

#[test]
fn numbers_render_and_parse_exactly() {
    assert_eq!(dec_bytes(0), b"0".to_vec());
    assert_eq!(dec_bytes(1234), b"1234".to_vec());
    assert_eq!(dec_string(907), "907".to_string());
    assert_eq!(hex_bytes(255), b"ff".to_vec());
    assert_eq!(hex_bytes(0), b"0".to_vec());
    assert_eq!(parse_dec(b"0042"), Some(42));
    assert_eq!(parse_dec(b""), None);
    assert_eq!(parse_dec(b"4x2"), None);
    assert_eq!(parse_hex(b"Ff"), Some(255));
    assert_eq!(parse_hex(b"g"), None);
}

#[test]
fn registries_hold_the_documented_entries() {
    let readers = build_readers();
    assert_eq!(readers.len(), 3);
    assert!(matches!(readers[0].1, BodyReader::ContentLength(ref c) if c.length == 100));
    assert!(matches!(readers[1].1, BodyReader::Chunked(_)));
    assert!(matches!(readers[2].1, BodyReader::Http10(_)));
    let writers = create_writers();
    assert_eq!(writers.len(), 3);
    assert!(matches!(writers[0].1, MessageWriter::Request));
    assert!(matches!(writers[1].1, MessageWriter::AnyResponse));
    assert!(matches!(writers[2].1, MessageWriter::AnyResponse));
}

#[test]
fn readers_and_writers_work_through_their_traits() {
    let mut r = ContentLengthReader::new(3);
    let mut buf = ReceiveBuffer::new();
    buf.append(b"abc");
    let d = Reader::read(&mut r, &mut buf).unwrap();
    assert_eq!(d.data, b"abc".to_vec());
    assert!(Reader::read_eof(&mut r).is_ok());
    let mut w = ContentLengthWriter::new(2);
    let mut out = Vec::new();
    BodyWriter::send_data(&mut w, b"ok", &mut out).unwrap();
    assert_eq!(out, b"ok".to_vec());
    assert!(BodyWriter::send_eom(&mut w, Headers::new(Vec::new()), &mut out).is_ok());
}

#[test]
fn expect_nothing_accepts_a_drained_buffer() {
    let buf = ReceiveBuffer::new();
    h1core::readers::expect_nothing(&buf);
}

#[test]
fn data_event_carries_its_flags() {
    let d: Data = Data::new(b"x".to_vec(), true, false);
    assert!(d.chunk_start);
    assert!(!d.chunk_end);
    let ev = Event::Data(d);
    assert!(matches!(ev, Event::Data(_)));
}
