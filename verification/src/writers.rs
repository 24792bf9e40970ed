//! Body writers and head serialization: the dual of the readers,
//! turning outbound events into bytes while enforcing length and
//! trailer invariants.

use vstd::prelude::*;
use vstd::string::StringExecFns;

use crate::ascii::bytes_eq;
use crate::events::{http11_label, http11_version, Request, Response};
use crate::headers::{host_label, Headers};
use crate::num::{dec_seq, hex_seq, dec_bytes, hex_bytes};
use crate::receive_buffer::{cr, lf};
use crate::state::Sentinel;
use crate::util::LocalProtocolError;

verus! {

/// The CRLF line terminator.
pub open spec fn crlf_seq() -> Seq<u8> {
    seq![cr(), lf()]
}

/// One serialized header line: `raw_name: value` and CRLF.
pub open spec fn render_entry(t: (Seq<u8>, Seq<u8>, Seq<u8>)) -> Seq<u8> {
    t.0 + seq![':' as u8, ' ' as u8] + t.2 + crlf_seq()
}

/// A list of serialized header lines, in order.
pub open spec fn render_list(items: Seq<(Seq<u8>, Seq<u8>, Seq<u8>)>) -> Seq<u8>
    decreases items.len(),
{
    if items.len() == 0 {
        Seq::empty()
    } else {
        render_list(items.drop_last()) + render_entry(items.last())
    }
}

/// The entries of `items` whose lower name is (`want_host` true) or
/// is not (`want_host` false) `host`, in order.
pub open spec fn sel_host(items: Seq<(Seq<u8>, Seq<u8>, Seq<u8>)>, want_host: bool) -> Seq<
    (Seq<u8>, Seq<u8>, Seq<u8>),
>
    decreases items.len(),
{
    if items.len() == 0 {
        Seq::empty()
    } else {
        sel_host(items.drop_last(), want_host) + (if (items.last().1 == host_label())
            == want_host {
            seq![items.last()]
        } else {
            Seq::empty()
        })
    }
}

/// A serialized header block: the `Host` entries first, then the
/// rest, then the blank line.
pub open spec fn render_headers(items: Seq<(Seq<u8>, Seq<u8>, Seq<u8>)>) -> Seq<u8> {
    render_list(sel_host(items, true)) + render_list(sel_host(items, false)) + crlf_seq()
}

/// The bytes `HTTP/1.1`.
pub open spec fn http11_token() -> Seq<u8> {
    seq![
        'H' as u8, 'T' as u8, 'T' as u8, 'P' as u8, '/' as u8, '1' as u8, '.' as u8, '1' as u8,
    ]
}

/// A serialized request head: request line, then the header block.
pub open spec fn render_request(method: Seq<u8>, target: Seq<u8>, items: Seq<(Seq<u8>, Seq<u8>, Seq<u8>)>) -> Seq<u8> {
    method + seq![' ' as u8] + target + seq![' ' as u8] + http11_token() + crlf_seq()
        + render_headers(items)
}

/// A serialized response head: status line, then the header block.
pub open spec fn render_response(status_code: u16, reason: Seq<u8>, items: Seq<(Seq<u8>, Seq<u8>, Seq<u8>)>) -> Seq<u8> {
    http11_token() + seq![' ' as u8] + dec_seq(status_code as nat) + seq![' ' as u8] + reason
        + crlf_seq() + render_headers(items)
}

/// Appends a slice to an output buffer.
pub fn push_bytes(out: &mut Vec<u8>, bytes: &[u8])
    ensures
        final(out)@ =~= old(out)@ + bytes@,
{
    let mut i: usize = 0;
    while i < bytes.len()
        invariant
            i <= bytes@.len(),
            out@ =~= old(out)@ + bytes@.take(i as int),
        decreases bytes@.len() - i,
    {
        out.push(bytes[i]);
        i = i + 1;
        proof {
            assert(bytes@.take(i as int).drop_last() =~= bytes@.take(i - 1));
        }
    }
    proof {
        assert(bytes@.take(bytes@.len() as int) =~= bytes@);
    }
}

pub proof fn lemma_render_list_add(a: Seq<(Seq<u8>, Seq<u8>, Seq<u8>)>, b: Seq<(Seq<u8>, Seq<u8>, Seq<u8>)>)
    ensures
        render_list(a + b) =~= render_list(a) + render_list(b),
    decreases b.len(),
{
    if b.len() == 0 {
        assert(a + b =~= a);
    } else {
        lemma_render_list_add(a, b.drop_last());
        assert((a + b).drop_last() =~= a + b.drop_last());
        assert((a + b).last() == b.last());
    }
}

/// Writes the header block: `Host` entries first, the others after,
/// each as `raw_name: value` and CRLF, ended by a blank line.
pub fn write_headers(headers: &Headers, out: &mut Vec<u8>)
    ensures
        final(out)@ =~= old(out)@ + render_headers(headers@),
{
    let host = crate::headers::host_name();
    let colon_space: Vec<u8> = vec![':' as u8, ' ' as u8];
    let crlf: Vec<u8> = vec![0x0du8, 0x0au8];
    let ghost base = out@;
    let mut pass: usize = 0;
    while pass < 2
        invariant
            pass <= 2,
            host@ =~= host_label(),
            colon_space@ =~= seq![':' as u8, ' ' as u8],
            crlf@ =~= crlf_seq(),
            pass == 0 ==> out@ =~= base,
            pass == 1 ==> out@ =~= base + render_list(sel_host(headers@, true)),
            pass == 2 ==> out@ =~= base + render_list(sel_host(headers@, true)) + render_list(
                sel_host(headers@, false),
            ),
        decreases 2 - pass,
    {
        let want_host = pass == 0;
        let ghost start = out@;
        let mut i: usize = 0;
        proof {
            assert(headers@.take(0) =~= Seq::<(Seq<u8>, Seq<u8>, Seq<u8>)>::empty());
        }
        while i < headers.len()
            invariant
                i <= headers@.len(),
                host@ =~= host_label(),
                colon_space@ =~= seq![':' as u8, ' ' as u8],
                crlf@ =~= crlf_seq(),
                out@ =~= start + render_list(sel_host(headers@.take(i as int), want_host)),
            decreases headers@.len() - i,
        {
            let item = headers.item_at(i);
            proof {
                crate::headers::lemma_triple_view(*item);
                assert(headers@.take(i + 1).drop_last() =~= headers@.take(i as int));
                assert(headers@.take(i + 1).last() == headers@[i as int]);
            }
            let matches_host = bytes_eq(item.1.as_slice(), host.as_slice());
            if matches_host == want_host {
                push_bytes(out, item.0.as_slice());
                push_bytes(out, colon_space.as_slice());
                push_bytes(out, item.2.as_slice());
                push_bytes(out, crlf.as_slice());
                proof {
                    assert(sel_host(headers@.take(i + 1), want_host) =~= sel_host(
                        headers@.take(i as int),
                        want_host,
                    ) + seq![headers@[i as int]]);
                    lemma_render_list_add(
                        sel_host(headers@.take(i as int), want_host),
                        seq![headers@[i as int]],
                    );
                    assert(render_list(seq![headers@[i as int]]) =~= render_entry(
                        headers@[i as int],
                    )) by {
                        let single = seq![headers@[i as int]];
                        assert(single.drop_last() =~= Seq::<(Seq<u8>, Seq<u8>, Seq<u8>)>::empty());
                        assert(single.last() == headers@[i as int]);
                        assert(render_list(single.drop_last()) =~= Seq::<u8>::empty());
                    }
                    assert(out@ =~= start + render_list(
                        sel_host(headers@.take(i as int), want_host),
                    ) + render_entry(headers@[i as int]));
                }
            } else {
                proof {
                    assert(sel_host(headers@.take(i + 1), want_host) =~= sel_host(
                        headers@.take(i as int),
                        want_host,
                    ));
                }
            }
            i = i + 1;
        }
        proof {
            assert(headers@.take(headers@.len() as int) =~= headers@);
        }
        pass = pass + 1;
    }
    push_bytes(out, crlf.as_slice());
}

/// Writes a request head; only HTTP/1.1 requests are ever sent.
pub fn write_request(request: &Request, out: &mut Vec<u8>) -> (r: Result<
    (),
    LocalProtocolError,
>)
    ensures
        request.http_version@ == http11_label() ==> (r is Ok && final(out)@ =~= old(out)@
            + render_request(request.method@, request.target@, request.headers@)),
        request.http_version@ != http11_label() ==> (r matches Err(e) && e.0@
            == "I only send HTTP/1.1"@ && final(out)@ =~= old(out)@),
{
    let v11 = http11_version();
    if !bytes_eq(request.http_version.as_slice(), v11.as_slice()) {
        return Err(LocalProtocolError(String::from_str("I only send HTTP/1.1")));
    }
    let space: Vec<u8> = vec![' ' as u8];
    let version_crlf: Vec<u8> = vec![
        'H' as u8, 'T' as u8, 'T' as u8, 'P' as u8, '/' as u8, '1' as u8, '.' as u8, '1' as u8,
        0x0du8, 0x0au8,
    ];
    push_bytes(out, request.method.as_slice());
    push_bytes(out, space.as_slice());
    push_bytes(out, request.target.as_slice());
    push_bytes(out, space.as_slice());
    push_bytes(out, version_crlf.as_slice());
    proof {
        assert(version_crlf@ =~= http11_token() + crlf_seq());
    }
    write_headers(&request.headers, out);
    Ok(())
}

/// Writes a response head; only HTTP/1.1 responses are ever sent.
pub fn write_any_response(response: &Response, out: &mut Vec<u8>) -> (r: Result<
    (),
    LocalProtocolError,
>)
    ensures
        response.http_version@ == http11_label() ==> (r is Ok && final(out)@ =~= old(out)@
            + render_response(response.status_code, response.reason@, response.headers@)),
        response.http_version@ != http11_label() ==> (r matches Err(e) && e.0@
            == "I only send HTTP/1.1"@ && final(out)@ =~= old(out)@),
{
    let v11 = http11_version();
    if !bytes_eq(response.http_version.as_slice(), v11.as_slice()) {
        return Err(LocalProtocolError(String::from_str("I only send HTTP/1.1")));
    }
    let version_space: Vec<u8> = vec![
        'H' as u8, 'T' as u8, 'T' as u8, 'P' as u8, '/' as u8, '1' as u8, '.' as u8, '1' as u8,
        ' ' as u8,
    ];
    let space: Vec<u8> = vec![' ' as u8];
    let crlf: Vec<u8> = vec![0x0du8, 0x0au8];
    push_bytes(out, version_space.as_slice());
    let code = dec_bytes(response.status_code as usize);
    push_bytes(out, code.as_slice());
    push_bytes(out, space.as_slice());
    push_bytes(out, response.reason.as_slice());
    push_bytes(out, crlf.as_slice());
    proof {
        assert(version_space@ =~= http11_token() + seq![' ' as u8]);
        assert(crlf@ =~= crlf_seq());
    }
    write_headers(&response.headers, out);
    Ok(())
}

/// A writer strategy: `send_data` serializes body bytes and
/// `send_eom` ends the message, each appending to the caller's
/// output buffer.
pub trait BodyWriter {
    /// Serializes a run of body bytes.
    fn send_data(&mut self, data: &[u8], out: &mut Vec<u8>) -> (r: Result<
        (),
        LocalProtocolError,
    >);

    /// Ends the message, with any trailer headers.
    fn send_eom(&mut self, trailers: Headers, out: &mut Vec<u8>) -> (r: Result<
        (),
        LocalProtocolError,
    >);
}

/// Writes a body whose total size a Content-Length header declared.
pub struct ContentLengthWriter {
    pub length: usize,
}

impl ContentLengthWriter {
    /// A writer that owes exactly `length` body bytes.
    pub fn new(length: usize) -> (r: ContentLengthWriter)
        ensures
            r.length == length,
    {
        ContentLengthWriter { length }
    }

    /// Emits body bytes as they are, counting them against the
    /// declared length; more than declared is an error.
    pub fn write_data(&mut self, data: &[u8], out: &mut Vec<u8>) -> (r: Result<
        (),
        LocalProtocolError,
    >)
        ensures
            data@.len() <= old(self).length ==> (r is Ok && final(self).length == old(self).length
                - data@.len() && final(out)@ =~= old(out)@ + data@),
            data@.len() > old(self).length ==> (r matches Err(e) && e.0@
                == "Too much data for declared Content-Length"@ && *final(self) == *old(self)
                && final(out)@ =~= old(out)@),
    {
        match self.length.checked_sub(data.len()) {
            Some(new_length) => {
                self.length = new_length;
                push_bytes(out, data);
                Ok(())
            },
            None => Err(
                LocalProtocolError(String::from_str("Too much data for declared Content-Length")),
            ),
        }
    }

    /// Ends the message: all declared bytes must have been sent, and
    /// Content-Length framing admits no trailers.
    pub fn write_eom(&mut self, trailers: Headers, out: &mut Vec<u8>) -> (r: Result<
        (),
        LocalProtocolError,
    >)
        ensures
            *final(self) == *old(self),
            final(out)@ =~= old(out)@,
            old(self).length != 0 ==> (r matches Err(e) && e.0@
                == "Too little data for declared Content-Length"@),
            old(self).length == 0 && trailers@.len() > 0 ==> (r matches Err(e) && e.0@
                == "Content-Length and trailers don't mix"@),
            old(self).length == 0 && trailers@.len() == 0 ==> r is Ok,
    {
        let _ = out;
        if self.length != 0 {
            return Err(
                LocalProtocolError(String::from_str("Too little data for declared Content-Length")),
            );
        }
        if trailers.len() > 0 {
            return Err(
                LocalProtocolError(String::from_str("Content-Length and trailers don't mix")),
            );
        }
        Ok(())
    }
}

impl BodyWriter for ContentLengthWriter {
    fn send_data(&mut self, data: &[u8], out: &mut Vec<u8>) -> (r: Result<
        (),
        LocalProtocolError,
    >)
        ensures
            data@.len() <= old(self).length ==> (r is Ok && final(self).length == old(self).length
                - data@.len() && final(out)@ =~= old(out)@ + data@),
            data@.len() > old(self).length ==> (r matches Err(e) && e.0@
                == "Too much data for declared Content-Length"@ && *final(self) == *old(self)
                && final(out)@ =~= old(out)@),
    {
        self.write_data(data, out)
    }

    fn send_eom(&mut self, trailers: Headers, out: &mut Vec<u8>) -> (r: Result<
        (),
        LocalProtocolError,
    >)
        ensures
            *final(self) == *old(self),
            final(out)@ =~= old(out)@,
            old(self).length != 0 ==> (r matches Err(e) && e.0@
                == "Too little data for declared Content-Length"@),
            old(self).length == 0 && trailers@.len() > 0 ==> (r matches Err(e) && e.0@
                == "Content-Length and trailers don't mix"@),
            old(self).length == 0 && trailers@.len() == 0 ==> r is Ok,
    {
        self.write_eom(trailers, out)
    }
}

/// Writes a chunked body: each nonempty run becomes one chunk with a
/// hexadecimal length line.
pub struct ChunkedWriter;

impl ChunkedWriter {
    /// Emits one chunk for a nonempty run, and nothing for an empty
    /// one, which would read as the end of the body.
    pub fn write_data(&mut self, data: &[u8], out: &mut Vec<u8>) -> (r: Result<
        (),
        LocalProtocolError,
    >)
        ensures
            r is Ok,
            data@.len() == 0 ==> final(out)@ =~= old(out)@,
            data@.len() > 0 ==> final(out)@ =~= old(out)@ + hex_seq(data@.len()) + crlf_seq()
                + data@ + crlf_seq(),
    {
        if data.len() == 0 {
            return Ok(());
        }
        let size = hex_bytes(data.len());
        let crlf: Vec<u8> = vec![0x0du8, 0x0au8];
        push_bytes(out, size.as_slice());
        push_bytes(out, crlf.as_slice());
        push_bytes(out, data);
        push_bytes(out, crlf.as_slice());
        proof {
            assert(crlf@ =~= crlf_seq());
        }
        Ok(())
    }

    /// Emits the terminal zero-length chunk and the trailer block.
    pub fn write_eom(&mut self, trailers: Headers, out: &mut Vec<u8>) -> (r: Result<
        (),
        LocalProtocolError,
    >)
        ensures
            r is Ok,
            final(out)@ =~= old(out)@ + seq!['0' as u8, cr(), lf()] + render_headers(trailers@),
    {
        let zero: Vec<u8> = vec!['0' as u8, 0x0du8, 0x0au8];
        push_bytes(out, zero.as_slice());
        write_headers(&trailers, out);
        proof {
            assert(zero@ =~= seq!['0' as u8, cr(), lf()]);
        }
        Ok(())
    }
}

impl BodyWriter for ChunkedWriter {
    fn send_data(&mut self, data: &[u8], out: &mut Vec<u8>) -> (r: Result<
        (),
        LocalProtocolError,
    >)
        ensures
            r is Ok,
            data@.len() == 0 ==> final(out)@ =~= old(out)@,
            data@.len() > 0 ==> final(out)@ =~= old(out)@ + hex_seq(data@.len()) + crlf_seq()
                + data@ + crlf_seq(),
    {
        self.write_data(data, out)
    }

    fn send_eom(&mut self, trailers: Headers, out: &mut Vec<u8>) -> (r: Result<
        (),
        LocalProtocolError,
    >)
        ensures
            r is Ok,
            final(out)@ =~= old(out)@ + seq!['0' as u8, cr(), lf()] + render_headers(trailers@),
    {
        self.write_eom(trailers, out)
    }
}

/// Writes a close-delimited HTTP/1.0-style body.
pub struct Http10Writer;

impl Http10Writer {
    /// Emits body bytes as they are.
    pub fn write_data(&mut self, data: &[u8], out: &mut Vec<u8>) -> (r: Result<
        (),
        LocalProtocolError,
    >)
        ensures
            r is Ok,
            final(out)@ =~= old(out)@ + data@,
    {
        push_bytes(out, data);
        Ok(())
    }

    /// Ends the message; close-delimited framing cannot represent
    /// trailers.
    pub fn write_eom(&mut self, trailers: Headers, out: &mut Vec<u8>) -> (r: Result<
        (),
        LocalProtocolError,
    >)
        ensures
            final(out)@ =~= old(out)@,
            trailers@.len() > 0 ==> (r matches Err(e) && e.0@
                == "can't send trailers to HTTP/1.0 client"@),
            trailers@.len() == 0 ==> r is Ok,
    {
        let _ = out;
        if trailers.len() > 0 {
            return Err(
                LocalProtocolError(String::from_str("can't send trailers to HTTP/1.0 client")),
            );
        }
        Ok(())
    }
}

impl BodyWriter for Http10Writer {
    fn send_data(&mut self, data: &[u8], out: &mut Vec<u8>) -> (r: Result<
        (),
        LocalProtocolError,
    >)
        ensures
            r is Ok,
            final(out)@ =~= old(out)@ + data@,
    {
        self.write_data(data, out)
    }

    fn send_eom(&mut self, trailers: Headers, out: &mut Vec<u8>) -> (r: Result<
        (),
        LocalProtocolError,
    >)
        ensures
            final(out)@ =~= old(out)@,
            trailers@.len() > 0 ==> (r matches Err(e) && e.0@
                == "can't send trailers to HTTP/1.0 client"@),
            trailers@.len() == 0 ==> r is Ok,
    {
        self.write_eom(trailers, out)
    }
}

/// Which head writer serves a (role, state) pair.
pub enum MessageWriter {
    Request,
    AnyResponse,
}

/// The default writer registry, keyed by (role, state): a client in
/// `Idle` writes a request head; a server in `Idle` or
/// `SendResponse` writes a response head.
pub fn create_writers() -> (r: Vec<((Sentinel, Sentinel), MessageWriter)>)
    ensures
        r@.len() == 3,
        r@[0].0 == (Sentinel::Client, Sentinel::Idle),
        r@[0].1 is Request,
        r@[1].0 == (Sentinel::Server, Sentinel::Idle),
        r@[1].1 is AnyResponse,
        r@[2].0 == (Sentinel::Server, Sentinel::SendResponse),
        r@[2].1 is AnyResponse,
{
    let mut writers: Vec<((Sentinel, Sentinel), MessageWriter)> = Vec::new();
    writers.push(((Sentinel::Client, Sentinel::Idle), MessageWriter::Request));
    writers.push(((Sentinel::Server, Sentinel::Idle), MessageWriter::AnyResponse));
    writers.push(((Sentinel::Server, Sentinel::SendResponse), MessageWriter::AnyResponse));
    writers
}

} // verus!
