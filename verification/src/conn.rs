//! The per-connection state machine.
//!
//! A connection starts in `Reading`, accumulates request bytes until the
//! buffer holds at least as many bytes as the announced body length, then
//! moves to `Writing`, and after the response has been handed out it is
//! `Closed`. No other transition exists. The expected body length starts at
//! zero and is set at most once, by the first chunk that announces one; a
//! request that never announces a length is complete as soon as any read
//! fires.

use vstd::prelude::*;

use crate::parse;
use crate::parse::ScanResult;

verus! {

/// The phases of one connection, in order; `Closed` is terminal.
#[derive(Clone, Copy, PartialEq, Eq, Structural, Debug)]
pub enum ConnState {
    Reading,
    Writing,
    Closed,
}

/// The readiness a registration is armed for.
#[derive(Clone, Copy, PartialEq, Eq, Structural, Debug)]
pub enum Interest {
    Read,
    Write,
}

/// A failure confined to one connection.
#[derive(Clone, Copy, PartialEq, Eq, Structural, Debug)]
pub enum ConnError {
    /// The first `content-length` line of a chunk does not carry a
    /// well-formed decimal numeral.
    MalformedLength,
}

/// The expected body length after a chunk has been examined: a length
/// already set is immutable; otherwise the value the chunk announces, if
/// any; otherwise still zero.
pub open spec fn updated_length(cl: usize, chunk: Seq<u8>) -> usize {
    if cl != 0 {
        cl
    } else {
        match parse::spec_scan(chunk) {
            ScanResult::Found(v) => v,
            _ => cl,
        }
    }
}

/// A chunk passes header examination unless a length is still wanted and
/// the chunk's first `content-length` line is malformed.
pub open spec fn chunk_header_ok(cl: usize, chunk: Seq<u8>) -> bool {
    cl != 0 || parse::spec_scan(chunk) != ScanResult::Malformed
}

/// The state one connection carries: the accumulated request bytes, the
/// announced body length, and the phase of its state machine. The socket
/// itself lives with the caller, beside this context.
#[derive(Debug)]
pub struct RequestContext {
    pub content_length: usize,
    pub buf: Vec<u8>,
    pub state: ConnState,
}

impl RequestContext {
    /// A fresh connection: empty buffer, no announced length, `Reading`.
    pub fn new() -> (c: RequestContext)
        ensures
            c.content_length == 0,
            c.buf@ == Seq::<u8>::empty(),
            c.state == ConnState::Reading,
    {
        RequestContext { content_length: 0, buf: Vec::new(), state: ConnState::Reading }
    }

    /// Examine one chunk for a `content-length` header and record the
    /// announced length, if this connection still wants one. A length
    /// already set is never changed; a malformed field is this
    /// connection's error and changes nothing.
    pub fn parse_and_set_content_length(&mut self, chunk: &[u8]) -> (r: Result<(), ConnError>)
        ensures
            final(self).buf == old(self).buf,
            final(self).state == old(self).state,
            match r {
                Ok(()) => {
                    &&& chunk_header_ok(old(self).content_length, chunk@)
                    &&& final(self).content_length == updated_length(
                        old(self).content_length,
                        chunk@,
                    )
                },
                Err(e) => {
                    &&& e == ConnError::MalformedLength
                    &&& !chunk_header_ok(old(self).content_length, chunk@)
                    &&& final(self).content_length == old(self).content_length
                },
            },
    {
        if self.content_length == 0 {
            match parse::scan_content_length(chunk) {
                ScanResult::Found(v) => {
                    self.content_length = v;
                    Ok(())
                },
                ScanResult::NoHeader => Ok(()),
                ScanResult::Malformed => Err(ConnError::MalformedLength),
            }
        } else {
            Ok(())
        }
    }

    /// One readiness-driven read step: examine the chunk for a length
    /// header, append its bytes to the buffer, and decide the next phase.
    /// The connection moves to `Writing` exactly when the buffer now holds
    /// at least the expected length; otherwise it stays in `Reading`. The
    /// returned interest is what the registration must be re-armed for. On
    /// a malformed header nothing changes and the caller must abandon the
    /// connection.
    pub fn on_readable(&mut self, chunk: &[u8]) -> (r: Result<Interest, ConnError>)
        requires
            old(self).state == ConnState::Reading,
        ensures
            match r {
                Ok(interest) => {
                    &&& chunk_header_ok(old(self).content_length, chunk@)
                    &&& final(self).content_length == updated_length(
                        old(self).content_length,
                        chunk@,
                    )
                    &&& final(self).buf@ == old(self).buf@ + chunk@
                    &&& (final(self).state == ConnState::Writing || final(self).state
                        == ConnState::Reading)
                    &&& (final(self).state == ConnState::Writing <==> final(self).buf@.len()
                        >= final(self).content_length)
                    &&& (interest == Interest::Write <==> final(self).state == ConnState::Writing)
                    &&& (interest == Interest::Read <==> final(self).state == ConnState::Reading)
                },
                Err(e) => {
                    &&& e == ConnError::MalformedLength
                    &&& !chunk_header_ok(old(self).content_length, chunk@)
                    &&& *final(self) == *old(self)
                },
            },
    {
        match self.parse_and_set_content_length(chunk) {
            Ok(()) => {},
            Err(e) => {
                return Err(e);
            },
        }
        let ghost pre = *self;
        let mut i: usize = 0;
        while i < chunk.len()
            invariant
                0 <= i <= chunk@.len(),
                self.content_length == pre.content_length,
                self.state == pre.state,
                self.buf@ == pre.buf@ + chunk@.take(i as int),
            decreases chunk@.len() - i,
        {
            self.buf.push(chunk[i]);
            proof {
                assert(pre.buf@ + chunk@.take(i as int) + seq![chunk@[i as int]] =~= pre.buf@
                    + chunk@.take(i as int + 1));
            }
            i = i + 1;
        }
        proof {
            assert(chunk@.take(chunk@.len() as int) =~= chunk@);
        }
        if self.buf.len() >= self.content_length {
            self.state = ConnState::Writing;
            Ok(Interest::Write)
        } else {
            Ok(Interest::Read)
        }
    }

    /// One readiness-driven write step: the connection's request is
    /// complete, so hand out the fixed response and close the state
    /// machine. The caller writes the bytes, shuts the socket down and
    /// drops the registration.
    pub fn on_writable(&mut self) -> (resp: Vec<u8>)
        requires
            old(self).state == ConnState::Writing,
        ensures
            final(self).state == ConnState::Closed,
            final(self).buf == old(self).buf,
            final(self).content_length == old(self).content_length,
            resp@ == http_response(),
    {
        self.state = ConnState::Closed;
        response_bytes()
    }
}

/// The fixed response payload, byte for byte:
/// `HTTP/1.1 200 OK`, a `content-type` line, `content-length: 5`, a blank
/// line, and the five-byte body `Hello`, each line ending in a bare line
/// feed.
pub open spec fn http_response() -> Seq<u8> {
    seq![
        72u8, 84u8, 84u8, 80u8, 47u8, 49u8, 46u8, 49u8, 32u8, 50u8, 48u8, 48u8, 32u8, 79u8, 75u8,
        10u8, 99u8, 111u8, 110u8, 116u8, 101u8, 110u8, 116u8, 45u8, 116u8, 121u8, 112u8, 101u8,
        58u8, 32u8, 116u8, 101u8, 120u8, 116u8, 47u8, 104u8, 116u8, 109u8, 108u8, 10u8, 99u8,
        111u8, 110u8, 116u8, 101u8, 110u8, 116u8, 45u8, 108u8, 101u8, 110u8, 103u8, 116u8, 104u8,
        58u8, 32u8, 53u8, 10u8, 10u8, 72u8, 101u8, 108u8, 108u8, 111u8,
    ]
}

/// Executable copy of `http_response`.
pub fn response_bytes() -> (v: Vec<u8>)
    ensures
        v@ == http_response(),
{
    let v: Vec<u8> = vec![
        72u8, 84u8, 84u8, 80u8, 47u8, 49u8, 46u8, 49u8, 32u8, 50u8, 48u8, 48u8, 32u8, 79u8, 75u8,
        10u8, 99u8, 111u8, 110u8, 116u8, 101u8, 110u8, 116u8, 45u8, 116u8, 121u8, 112u8, 101u8,
        58u8, 32u8, 116u8, 101u8, 120u8, 116u8, 47u8, 104u8, 116u8, 109u8, 108u8, 10u8, 99u8,
        111u8, 110u8, 116u8, 101u8, 110u8, 116u8, 45u8, 108u8, 101u8, 110u8, 103u8, 116u8, 104u8,
        58u8, 32u8, 53u8, 10u8, 10u8, 72u8, 101u8, 108u8, 108u8, 111u8,
    ];
    proof {
        assert(v@ =~= http_response());
    }
    v
}

} // verus!
