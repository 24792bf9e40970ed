//! Body readers: the strategies that consume `ReceiveBuffer` content
//! into `Data` and end-of-message decisions, one per framing.
//!
//! `ContentLengthReader` counts down a declared length,
//! `ChunkedReader` drives a state machine over chunk-size lines,
//! chunk bodies, terminator bytes and the trailer block, and
//! `Http10Reader` reads until the connection closes.

use vstd::prelude::*;
use vstd::string::StringExecFns;

use crate::ascii::{is_hex_digit_byte, is_ws_byte, trailing_ws};
use crate::events::{Data, EndOfMessage};
use crate::num::{dec_chars, dec_string, hex_val, parse_hex};
use crate::receive_buffer::{cr, first_blank, first_crlf, lf, ReceiveBuffer};
use crate::util::{LocalProtocolError, RemoteProtocolError};

verus! {

/// A reader strategy: `read` turns buffered bytes into body data
/// when enough are available, and `read_eof` decides whether a peer
/// close at this point ends the message legally.
pub trait Reader {
    /// Consumes buffered content into body data, `None` when more
    /// bytes are needed first.
    fn read(&mut self, buf: &mut ReceiveBuffer) -> (r: Option<Data>)
        requires
            old(buf).wf(),
        ensures
            final(buf).wf(),
    ;

    /// Decides whether end of input here ends the message legally.
    fn read_eof(&mut self) -> (r: Result<EndOfMessage, RemoteProtocolError>);
}

/// Reads a body whose total size a Content-Length header declared.
pub struct ContentLengthReader {
    pub length: usize,
    pub remaining: usize,
}

impl ContentLengthReader {
    /// The countdown never exceeds the declared length.
    pub open spec fn wf(&self) -> bool {
        self.remaining <= self.length
    }

    /// A reader expecting exactly `length` body bytes.
    pub fn new(length: usize) -> (r: ContentLengthReader)
        ensures
            r.length == length,
            r.remaining == length,
            r.wf(),
    {
        ContentLengthReader { length, remaining: length }
    }

    /// Extracts the outstanding body bytes once they are all
    /// buffered; the extracted data carries the end-of-body mark.
    pub fn read_body(&mut self, buf: &mut ReceiveBuffer) -> (r: Option<Data>)
        requires
            old(buf).wf(),
        ensures
            final(buf).wf(),
            old(self).remaining == 0 ==> (r matches Some(d) && d.data@ =~= Seq::<u8>::empty()
                && !d.chunk_start && !d.chunk_end && *final(self) == *old(self) && final(buf)@
                =~= old(buf)@),
            old(self).remaining > 0 && old(buf)@.len() < old(self).remaining ==> (r is None
                && *final(self) == *old(self) && final(buf)@ =~= old(buf)@),
            old(self).remaining > 0 && old(buf)@.len() >= old(self).remaining ==> (r matches Some(
                d,
            ) && d.data@ =~= old(buf)@.take(old(self).remaining as int) && !d.chunk_start
                && d.chunk_end && final(self).remaining == 0 && final(self).length == old(
                self,
            ).length && final(buf)@ =~= old(buf)@.skip(old(self).remaining as int)),
    {
        if self.remaining == 0 {
            return Some(Data::new(Vec::new(), false, false));
        }
        match buf.maybe_extract_at_most(self.remaining) {
            Some(data) => {
                self.remaining = 0;
                Some(Data::new(data, false, true))
            },
            None => None,
        }
    }

    /// A peer close is legal only once the whole declared body
    /// arrived; otherwise the error reports the received and
    /// expected counts.
    pub fn read_body_eof(&mut self) -> (r: Result<EndOfMessage, RemoteProtocolError>)
        requires
            old(self).wf(),
        ensures
            *final(self) == *old(self),
            old(self).remaining == 0 ==> (r matches Ok(e) && e.headers@ =~= Seq::<
                (Seq<u8>, Seq<u8>, Seq<u8>),
            >::empty()),
            old(self).remaining > 0 ==> (r matches Err(e) && e.0@
                == "peer closed connection without sending complete message body (received "@
                + dec_chars((old(self).length - old(self).remaining) as nat)
                + " bytes, expected "@ + dec_chars(old(self).length as nat) + ")"@),
    {
        if self.remaining > 0 {
            let mut msg = String::from_str(
                "peer closed connection without sending complete message body (received ",
            );
            let received = dec_string(self.length - self.remaining);
            msg.append(received.as_str());
            msg.append(" bytes, expected ");
            let expected = dec_string(self.length);
            msg.append(expected.as_str());
            msg.append(")");
            Err(RemoteProtocolError(msg))
        } else {
            Ok(EndOfMessage::new(None))
        }
    }
}

impl Reader for ContentLengthReader {
    fn read(&mut self, buf: &mut ReceiveBuffer) -> (r: Option<Data>)
        ensures
            old(self).remaining == 0 ==> (r matches Some(d) && d.data@ =~= Seq::<u8>::empty()
                && !d.chunk_start && !d.chunk_end && *final(self) == *old(self) && final(buf)@
                =~= old(buf)@),
            old(self).remaining > 0 && old(buf)@.len() < old(self).remaining ==> (r is None
                && *final(self) == *old(self) && final(buf)@ =~= old(buf)@),
            old(self).remaining > 0 && old(buf)@.len() >= old(self).remaining ==> (r matches Some(
                d,
            ) && d.data@ =~= old(buf)@.take(old(self).remaining as int) && !d.chunk_start
                && d.chunk_end && final(self).remaining == 0 && final(self).length == old(
                self,
            ).length && final(buf)@ =~= old(buf)@.skip(old(self).remaining as int)),
    {
        self.read_body(buf)
    }

    /// Through the trait's plain signature an inconsistent countdown
    /// reads as an immediate legal end; the inherent `read_body_eof`
    /// keeps the exact accounting.
    fn read_eof(&mut self) -> (r: Result<EndOfMessage, RemoteProtocolError>)
        ensures
            *final(self) == *old(self),
            old(self).remaining == 0 || old(self).remaining > old(self).length ==> (r matches Ok(
                e,
            ) && e.headers@ =~= Seq::<(Seq<u8>, Seq<u8>, Seq<u8>)>::empty()),
            0 < old(self).remaining <= old(self).length ==> (r matches Err(e) && e.0@
                == "peer closed connection without sending complete message body (received "@
                + dec_chars((old(self).length - old(self).remaining) as nat)
                + " bytes, expected "@ + dec_chars(old(self).length as nat) + ")"@),
    {
        if self.remaining > self.length {
            return Ok(EndOfMessage::new(None));
        }
        self.read_body_eof()
    }
}

/// The candidate size digits of a chunk-size line: what stands
/// before the first `;` of the line's body, or the body itself with
/// trailing whitespace removed when it has no extension.
pub open spec fn chunk_size_part(line: Seq<u8>) -> Seq<u8> {
    let body = line.take(line.len() - 2);
    let cut = crate::ascii::find_byte(body, ';' as u8);
    if cut == body.len() {
        body.take(body.len() - trailing_ws(body))
    } else {
        body.take(cut as int)
    }
}

/// The size a chunk-size line declares: the line carries one to
/// twenty hexadecimal digits, an optional `;extension`, optional
/// trailing whitespace, and the terminating CRLF.
pub open spec fn chunk_size_spec(line: Seq<u8>) -> Option<nat> {
    if line.len() < 2 {
        None
    } else if 1 <= chunk_size_part(line).len() <= 20 && (forall|i: int|
        0 <= i < chunk_size_part(line).len() ==> is_hex_digit_byte(
            #[trigger] chunk_size_part(line)[i],
        )) {
        Some(hex_val(chunk_size_part(line)))
    } else {
        None
    }
}

/// Reads the hexadecimal size from a chunk-size line ending in CRLF.
pub fn parse_chunk_size(line: &[u8]) -> (r: Option<usize>)
    ensures
        match r {
            Some(n) => chunk_size_spec(line@) == Some(n as nat),
            None => chunk_size_spec(line@) is None || (chunk_size_spec(line@) matches Some(v) && v
                > usize::MAX),
        },
{
    if line.len() < 2 {
        return None;
    }
    let body_len = line.len() - 2;
    let mut cut: usize = 0;
    while cut < body_len && line[cut] != (';' as u8)
        invariant
            cut <= body_len,
            body_len + 2 == line@.len(),
            forall|j: int| 0 <= j < cut ==> line@[j] != ';' as u8,
        decreases body_len - cut,
    {
        cut = cut + 1;
    }
    let ghost body = line@.take(body_len as int);
    proof {
        assert forall|j: int| 0 <= j < cut implies body[j] != ';' as u8 by {
            assert(body[j] == line@[j]);
        }
        if cut < body_len {
            assert(body[cut as int] == line@[cut as int]);
        }
        crate::ascii::lemma_find_byte_props(body, ';' as u8);
        assert(crate::ascii::find_byte(body, ';' as u8) == cut) by {
            let f = crate::ascii::find_byte(body, ';' as u8);
            if f < cut {
                assert(body[f as int] == ';' as u8);
            }
            if f > cut && cut < body_len {
                assert(body[cut as int] != ';' as u8);
            }
        }
    }
    let end: usize;
    if cut == body_len {
        let mut e: usize = body_len;
        while e > 0 && (line[e - 1] == 0x20 || line[e - 1] == 0x09 || line[e - 1] == 0x0a
            || line[e - 1] == 0x0b || line[e - 1] == 0x0c || line[e - 1] == 0x0d)
            invariant
                e <= body_len,
                body_len + 2 == line@.len(),
                forall|j: int| e <= j < body_len ==> is_ws_byte(#[trigger] line@[j]),
            decreases e,
        {
            e = e - 1;
        }
        proof {
            assert forall|j: int| body.len() - (body_len - e) <= j < body.len() implies is_ws_byte(
                #[trigger] body[j],
            ) by {
                assert(body[j] == line@[j]);
            }
            if e > 0 {
                assert(body[e - 1] == line@[e - 1]);
            }
            lemma_trailing_ws_exact(body, (body_len - e) as nat);
        }
        end = e;
    } else {
        end = cut;
    }
    let ghost size_part = body.take(end as int);
    if end == 0 || end > 20 {
        return None;
    }
    let mut digits: Vec<u8> = Vec::new();
    let mut i: usize = 0;
    while i < end
        invariant
            i <= end,
            end + 2 <= line@.len(),
            digits@ =~= line@.subrange(0, i as int),
        decreases end - i,
    {
        digits.push(line[i]);
        i = i + 1;
    }
    proof {
        assert(digits@ =~= size_part);
    }
    let parsed = parse_hex(digits.as_slice());
    proof {
        assert(size_part == digits@);
        assert(size_part.len() == end as int);
        assert(chunk_size_part(line@) =~= size_part);
    }
    match parsed {
        Some(n) => {
            proof {
                assert forall|j: int|
                    0 <= j < chunk_size_part(line@).len() implies is_hex_digit_byte(
                    #[trigger] chunk_size_part(line@)[j],
                ) by {
                    assert(chunk_size_part(line@)[j] == digits@[j]);
                }
                assert(chunk_size_spec(line@) == Some(hex_val(chunk_size_part(line@))));
            }
            Some(n)
        },
        None => {
            proof {
                if exists|j: int| 0 <= j < digits@.len() && !is_hex_digit_byte(#[trigger] digits@[j]) {
                    let j = choose|j: int|
                        0 <= j < digits@.len() && !is_hex_digit_byte(#[trigger] digits@[j]);
                    assert(chunk_size_part(line@)[j] == digits@[j]);
                    assert(!is_hex_digit_byte(chunk_size_part(line@)[j]));
                    assert(chunk_size_spec(line@) is None);
                } else {
                    assert forall|j: int|
                        0 <= j < chunk_size_part(line@).len() implies is_hex_digit_byte(
                        #[trigger] chunk_size_part(line@)[j],
                    ) by {
                        assert(chunk_size_part(line@)[j] == digits@[j]);
                    }
                    assert(hex_val(digits@) > usize::MAX);
                    assert(chunk_size_spec(line@) == Some(hex_val(chunk_size_part(line@))));
                }
            }
            None
        },
    }
}

/// `trailing_ws` counts exactly the whitespace run at the end.
proof fn lemma_trailing_ws_exact(s: Seq<u8>, k: nat)
    requires
        k <= s.len(),
        forall|j: int| s.len() - k <= j < s.len() ==> is_ws_byte(#[trigger] s[j]),
        k < s.len() ==> !is_ws_byte(s[s.len() - k - 1]),
    ensures
        trailing_ws(s) == if k < s.len() {
            k
        } else {
            s.len()
        },
    decreases k,
{
    if k == 0 {
    } else {
        assert forall|j: int|
            s.drop_last().len() - (k - 1) <= j < s.drop_last().len() implies is_ws_byte(
            #[trigger] s.drop_last()[j],
        ) by {
            assert(s.drop_last()[j] == s[j]);
        }
        if k - 1 < s.drop_last().len() {
            assert(s.drop_last()[s.len() - k - 1] == s[s.len() - k - 1]);
        }
        lemma_trailing_ws_exact(s.drop_last(), (k - 1) as nat);
    }
}

/// Reads a chunked body: size lines, chunk bytes, the CRLF after
/// each chunk, and finally the trailer block.
pub struct ChunkedReader {
    pub bytes_in_chunk: usize,
    pub bytes_to_discard: usize,
    pub reading_trailer: bool,
}

/// What one `ChunkedReader::read_body` call does, as a function of
/// the reader state and the buffered bytes: the new reader state,
/// the bytes left in the buffer, and the outcome — `Err(())` for a
/// malformed chunk-size line, `Ok(None)` for "need more data", and
/// `Ok(Some((data, start, end)))` for an emitted `Data` event.
pub open spec fn chunked_read_spec(rd: ChunkedReader, b: Seq<u8>) -> (
    ChunkedReader,
    Seq<u8>,
    Result<Option<(Seq<u8>, bool, bool)>, ()>,
) {
    if rd.reading_trailer {
        if b.len() > 0 && b[0] == lf() {
            (rd, b.skip(1), Ok(Some((Seq::empty(), false, false))))
        } else if b.len() > 1 && b[0] == cr() && b[1] == lf() {
            (rd, b.skip(2), Ok(Some((Seq::empty(), false, false))))
        } else if first_blank(b, 0) < b.len() {
            (rd, b.skip(first_blank(b, 0) as int + 4), Ok(Some((Seq::empty(), false, false))))
        } else {
            (rd, b, Ok(None))
        }
    } else {
        let (rd1, b1, stop1) = if rd.bytes_to_discard > 0 {
            if b.len() >= rd.bytes_to_discard {
                (
                    ChunkedReader { bytes_to_discard: 0, ..rd },
                    b.skip(rd.bytes_to_discard as int),
                    false,
                )
            } else {
                (rd, b, true)
            }
        } else {
            (rd, b, false)
        };
        if stop1 {
            (rd1, b1, Ok(None))
        } else {
            let (rd2, b2, outcome2) = if rd1.bytes_in_chunk == 0 {
                let i = first_crlf(b1, 0);
                if i >= b1.len() {
                    (rd1, b1, Some(Ok(None)))
                } else {
                    let line = b1.take(i as int + 2);
                    let rest = b1.skip(i as int + 2);
                    match chunk_size_spec(line) {
                        None => (rd1, rest, Some(Err(()))),
                        Some(size) => if size > usize::MAX {
                            (rd1, rest, Some(Err(())))
                        } else if size == 0 {
                            (
                                ChunkedReader { reading_trailer: true, ..rd1 },
                                rest,
                                Some(Ok(None)),
                            )
                        } else {
                            (
                                ChunkedReader { bytes_in_chunk: size as usize, ..rd1 },
                                rest,
                                None,
                            )
                        },
                    }
                }
            } else {
                (rd1, b1, None)
            };
            match outcome2 {
                Some(o) => (rd2, b2, o),
                None => {
                    if b2.len() >= rd2.bytes_in_chunk {
                        (
                            ChunkedReader { bytes_in_chunk: 0, bytes_to_discard: 2, ..rd2 },
                            b2.skip(rd2.bytes_in_chunk as int),
                            Ok(Some((b2.take(rd2.bytes_in_chunk as int), true, true))),
                        )
                    } else {
                        (rd2, b2, Ok(None))
                    }
                },
            }
        }
    }
}

impl ChunkedReader {
    /// A reader at the start of a chunked body.
    pub fn new() -> (r: ChunkedReader)
        ensures
            r.bytes_in_chunk == 0,
            r.bytes_to_discard == 0,
            !r.reading_trailer,
    {
        ChunkedReader { bytes_in_chunk: 0, bytes_to_discard: 0, reading_trailer: false }
    }

    /// Advances the chunked state machine one step against the
    /// buffer, exactly as `chunked_read_spec` says.
    pub fn read_body(&mut self, buf: &mut ReceiveBuffer) -> (r: Result<
        Option<Data>,
        RemoteProtocolError,
    >)
        requires
            old(buf).wf(),
        ensures
            final(buf).wf(),
            ({
                let (rd2, b2, outcome) = chunked_read_spec(*old(self), old(buf)@);
                &&& *final(self) == rd2
                &&& final(buf)@ =~= b2
                &&& match outcome {
                    Err(()) => r matches Err(e) && e.0@ == "invalid chunk header"@,
                    Ok(None) => r matches Ok(o) && o is None,
                    Ok(Some((bytes, start, end))) => r matches Ok(o) && o matches Some(d)
                        && d.data@ =~= bytes && d.chunk_start == start && d.chunk_end == end,
                }
            }),
    {
        if self.reading_trailer {
            match buf.maybe_extract_lines() {
                Some(_lines) => {
                    return Ok(Some(Data::new(Vec::new(), false, false)));
                },
                None => {
                    return Ok(None);
                },
            }
        }
        if self.bytes_to_discard > 0 {
            match buf.maybe_extract_at_most(self.bytes_to_discard) {
                Some(_discarded) => {
                    self.bytes_to_discard = 0;
                },
                None => {
                    return Ok(None);
                },
            }
        }
        if self.bytes_in_chunk == 0 {
            let line = match buf.maybe_extract_next_line() {
                Some(line) => line,
                None => {
                    return Ok(None);
                },
            };
            let size = match parse_chunk_size(line.as_slice()) {
                Some(size) => size,
                None => {
                    return Err(RemoteProtocolError(String::from_str("invalid chunk header")));
                },
            };
            if size == 0 {
                self.reading_trailer = true;
                return Ok(None);
            }
            self.bytes_in_chunk = size;
        }
        match buf.maybe_extract_at_most(self.bytes_in_chunk) {
            Some(data) => {
                self.bytes_in_chunk = 0;
                self.bytes_to_discard = 2;
                Ok(Some(Data::new(data, true, true)))
            },
            None => Ok(None),
        }
    }

    /// A peer close is never a legal end of a chunked body.
    pub fn read_body_eof(&mut self) -> (r: Result<EndOfMessage, RemoteProtocolError>)
        ensures
            *final(self) == *old(self),
            r matches Err(e) && e.0@
                == "peer closed connection without sending complete message body"@,
    {
        Err(
            RemoteProtocolError(
                String::from_str("peer closed connection without sending complete message body"),
            ),
        )
    }
}

impl Reader for ChunkedReader {
    /// Through the trait's plain signature a malformed chunk-size
    /// line reads as no progress; the inherent `read_body` reports
    /// it.
    fn read(&mut self, buf: &mut ReceiveBuffer) -> (r: Option<Data>)
        ensures
            ({
                let (rd2, b2, outcome) = chunked_read_spec(*old(self), old(buf)@);
                &&& *final(self) == rd2
                &&& final(buf)@ =~= b2
                &&& match outcome {
                    Err(()) => r is None,
                    Ok(None) => r is None,
                    Ok(Some((bytes, start, end))) => r matches Some(d) && d.data@ =~= bytes
                        && d.chunk_start == start && d.chunk_end == end,
                }
            }),
    {
        match self.read_body(buf) {
            Ok(r) => r,
            Err(_) => None,
        }
    }

    fn read_eof(&mut self) -> (r: Result<EndOfMessage, RemoteProtocolError>)
        ensures
            *final(self) == *old(self),
            r matches Err(e) && e.0@
                == "peer closed connection without sending complete message body"@,
    {
        self.read_body_eof()
    }
}

/// Reads a close-delimited HTTP/1.0-style body.
pub struct Http10Reader;

impl Http10Reader {
    /// Greedily extracts whatever is buffered.
    pub fn read_body(&mut self, buf: &mut ReceiveBuffer) -> (r: Option<Data>)
        requires
            old(buf).wf(),
        ensures
            final(buf).wf(),
            old(buf)@.len() == 0 ==> (r is None && final(buf)@ =~= old(buf)@),
            old(buf)@.len() > 0 ==> (r matches Some(d) && d.data@ =~= old(buf)@ && !d.chunk_start
                && !d.chunk_end && final(buf)@ =~= Seq::<u8>::empty()),
    {
        let n = buf.len();
        if n == 0 {
            return None;
        }
        match buf.maybe_extract_at_most(n) {
            Some(data) => {
                proof {
                    assert(old(buf)@.take(old(buf)@.len() as int) =~= old(buf)@);
                }
                Some(Data::new(data, false, false))
            },
            None => None,
        }
    }

    /// For close-delimited framing the close is the end-of-body
    /// signal, so end of input always succeeds.
    pub fn read_body_eof(&mut self) -> (r: Result<EndOfMessage, RemoteProtocolError>)
        ensures
            r matches Ok(e) && e.headers@ =~= Seq::<(Seq<u8>, Seq<u8>, Seq<u8>)>::empty(),
    {
        Ok(EndOfMessage::new(None))
    }
}

impl Reader for Http10Reader {
    fn read(&mut self, buf: &mut ReceiveBuffer) -> (r: Option<Data>)
        ensures
            old(buf)@.len() == 0 ==> (r is None && final(buf)@ =~= old(buf)@),
            old(buf)@.len() > 0 ==> (r matches Some(d) && d.data@ =~= old(buf)@ && !d.chunk_start
                && !d.chunk_end && final(buf)@ =~= Seq::<u8>::empty()),
    {
        self.read_body(buf)
    }

    fn read_eof(&mut self) -> (r: Result<EndOfMessage, RemoteProtocolError>)
        ensures
            r matches Ok(e) && e.headers@ =~= Seq::<(Seq<u8>, Seq<u8>, Seq<u8>)>::empty(),
    {
        self.read_body_eof()
    }
}

/// Checks that the peer sent nothing beyond the message that just
/// ended; callers may only ask this of a drained buffer.
pub fn expect_nothing(buf: &ReceiveBuffer)
    requires
        buf@.len() == 0,
{
    let _ = buf;
}

/// One of the body-reading strategies, as a closed set.
pub enum BodyReader {
    ContentLength(ContentLengthReader),
    Chunked(ChunkedReader),
    Http10(Http10Reader),
}

/// The default reader registry, keyed by (role, state).
pub fn build_readers() -> (r: Vec<(
    (crate::state::Sentinel, crate::state::Sentinel),
    BodyReader,
)>)
    ensures
        r@.len() == 3,
        r@[0].0 == (crate::state::Sentinel::Client, crate::state::Sentinel::Idle),
        r@[0].1 matches BodyReader::ContentLength(c) && c.length == 100 && c.remaining == 100,
        r@[1].0 == (crate::state::Sentinel::Server, crate::state::Sentinel::Idle),
        r@[1].1 matches BodyReader::Chunked(c) && c.bytes_in_chunk == 0 && c.bytes_to_discard == 0
            && !c.reading_trailer,
        r@[2].0 == (crate::state::Sentinel::Server, crate::state::Sentinel::SendResponse),
        r@[2].1 is Http10,
{
    let mut readers: Vec<((crate::state::Sentinel, crate::state::Sentinel), BodyReader)> =
        Vec::new();
    readers.push(
        (
            (crate::state::Sentinel::Client, crate::state::Sentinel::Idle),
            BodyReader::ContentLength(ContentLengthReader::new(100)),
        ),
    );
    readers.push(
        (
            (crate::state::Sentinel::Server, crate::state::Sentinel::Idle),
            BodyReader::Chunked(ChunkedReader::new()),
        ),
    );
    readers.push(
        (
            (crate::state::Sentinel::Server, crate::state::Sentinel::SendResponse),
            BodyReader::Http10(Http10Reader),
        ),
    );
    readers
}


/// Powers of sixteen.
pub open spec fn pow16(k: nat) -> nat
    decreases k,
{
    if k == 0 {
        1
    } else {
        16 * pow16((k - 1) as nat)
    }
}

proof fn lemma_hex_seq_len_bound(n: nat, k: nat)
    requires
        k >= 1,
        n < pow16(k),
    ensures
        crate::num::hex_seq(n).len() <= k,
    decreases k,
{
    if n < 16 {
    } else {
        assert(pow16(k) == 16 * pow16((k - 1) as nat));
        assert(n / 16 < pow16((k - 1) as nat)) by (nonlinear_arith)
            requires
                n < 16 * pow16((k - 1) as nat),
                n >= 16,
        ;
        lemma_hex_seq_len_bound(n / 16, (k - 1) as nat);
    }
}

/// Round trip of one chunk: the bytes `ChunkedWriter` emits for a
/// nonempty run — the hexadecimal size line, the data, and the
/// trailing CRLF — read back as exactly that run, marked as a whole
/// chunk, leaving the terminator for the next step.
pub proof fn lemma_chunked_round_trip(data: Seq<u8>)
    requires
        0 < data.len() <= usize::MAX,
    ensures
        ({
            let wire = crate::num::hex_seq(data.len()) + seq![cr(), lf()] + data + seq![
                cr(),
                lf(),
            ];
            let fresh = ChunkedReader { bytes_in_chunk: 0, bytes_to_discard: 0, reading_trailer: false };
            let (rd2, b2, outcome) = chunked_read_spec(fresh, wire);
            &&& rd2 == ChunkedReader { bytes_in_chunk: 0, bytes_to_discard: 2, reading_trailer: false }
            &&& b2 =~= seq![cr(), lf()]
            &&& outcome == Ok::<Option<(Seq<u8>, bool, bool)>, ()>(Some((data, true, true)))
        }),
{
    let size = data.len();
    let digits = crate::num::hex_seq(size);
    crate::num::lemma_hex_round_trip(size);
    assert(pow16(16) > usize::MAX) by {
        reveal_with_fuel(pow16, 17);
    }
    lemma_hex_seq_len_bound(size, 16);
    let wire = digits + seq![cr(), lf()] + data + seq![cr(), lf()];
    assert forall|j: int| 0 <= j < digits.len() implies !crate::receive_buffer::is_crlf_at(
        wire,
        j,
    ) by {
        assert(wire[j] == digits[j]);
        assert(is_hex_digit_byte(digits[j]));
    }
    assert(wire[digits.len() as int] == cr());
    assert(wire[digits.len() as int + 1] == lf());
    crate::receive_buffer::lemma_first_crlf_at(wire, digits.len() as int);
    assert(first_crlf(wire, 0) == digits.len());
    let line = wire.take(digits.len() as int + 2);
    let rest = wire.skip(digits.len() as int + 2);
    assert(line =~= digits + seq![cr(), lf()]);
    assert(rest =~= data + seq![cr(), lf()]);
    assert(chunk_size_spec(line) == Some(size)) by {
        let body = line.take(line.len() - 2);
        assert(body =~= digits);
        assert forall|j: int| 0 <= j < body.len() implies #[trigger] body[j] != ';' as u8 by {
            assert(is_hex_digit_byte(body[j]));
        }
        crate::ascii::lemma_find_byte_at(body, ';' as u8, body.len() as int);
        assert(!is_ws_byte(body[body.len() - 1])) by {
            assert(is_hex_digit_byte(body[body.len() - 1]));
        }
        lemma_trailing_ws_exact(body, 0);
        assert(trailing_ws(body) == 0);
        assert(chunk_size_part(line) =~= digits);
        assert(chunk_size_part(line) == digits);
        assert(1 <= chunk_size_part(line).len() <= 20);
        assert forall|i: int| 0 <= i < chunk_size_part(line).len() implies is_hex_digit_byte(
            #[trigger] chunk_size_part(line)[i],
        ) by {
            assert(chunk_size_part(line)[i] == digits[i]);
        }
        assert(hex_val(chunk_size_part(line)) == size);
    }
    assert(rest.len() >= size);
    assert(rest.take(size as int) =~= data);
    assert(rest.skip(size as int) =~= seq![cr(), lf()]);
}

} // verus!
