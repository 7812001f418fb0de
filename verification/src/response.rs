//! The response: status line and headers are gathered first and frozen when
//! the head is encoded; body bytes follow, as they are or chunk by chunk.
//!
//! The writer does no I/O: each call returns the bytes that go to the
//! transport.

use vstd::prelude::*;
use crate::runs::{crlf, encode_chunk, hex_char, hex_digits};

verus! {

/// How far a response has been written.
#[derive(Clone, Copy, Debug, PartialEq, Eq, Structural)]
pub enum WriteState {
    NotStarted,
    HeadersSent,
    BodyStreaming,
    Finished,
}

/// Why the writer refused a call.
#[derive(Clone, Copy, Debug, PartialEq, Eq, Structural)]
pub enum ResponseError {
    /// The status code is not between 100 and 999.
    BadStatus,
    /// The call came too late or too early for the state of the response.
    WrongState,
}

/// The reason phrase that `http` holds for a status code; empty for a code
/// for which it holds none.
pub uninterp spec fn canonical_reason(code: u16) -> Seq<u8>;

/// `http::StatusCode::canonical_reason`, on the status that
/// `StatusCode::from_u16` makes of `code`: the phrase as bytes, or nothing
/// where the code has no phrase or is no status code.
#[verifier::external_body]
fn reason_phrase(code: u16) -> (r: Vec<u8>)
    ensures
        r@ == canonical_reason(code),
{
    match http::StatusCode::from_u16(code) {
        Ok(status) => status.canonical_reason().unwrap_or("").as_bytes().to_vec(),
        Err(_) => Vec::new(),
    }
}

/// `HTTP/1.1`
pub open spec fn version_bytes() -> Seq<u8> {
    seq![72u8, 84u8, 84u8, 80u8, 47u8, 49u8, 46u8, 49u8]
}

/// The three decimal digits of a status code.
pub open spec fn status_digits(code: u16) -> Seq<u8> {
    seq![(48 + code / 100) as u8, (48 + (code / 10) % 10) as u8, (48 + code % 10) as u8]
}

/// `name: value` and CRLF.
pub open spec fn header_line(name: Seq<u8>, value: Seq<u8>) -> Seq<u8> {
    name + seq![58u8, 32u8] + value + crlf()
}

/// The header lines, in the order in which the headers were added.
pub open spec fn header_block(headers: Seq<(Seq<u8>, Seq<u8>)>) -> Seq<u8>
    decreases headers.len(),
{
    if headers.len() == 0 {
        Seq::empty()
    } else {
        header_block(headers.drop_last()) + header_line(headers.last().0, headers.last().1)
    }
}

/// Status line, header lines and the blank line that ends the head.
pub open spec fn head_bytes(status: u16, reason: Seq<u8>, headers: Seq<(Seq<u8>, Seq<u8>)>) -> Seq<
    u8,
> {
    version_bytes() + seq![32u8] + status_digits(status) + seq![32u8] + reason + crlf()
        + header_block(headers) + crlf()
}

fn append(out: &mut Vec<u8>, bytes: &[u8])
    ensures
        final(out)@ == old(out)@ + bytes@,
{
    let mut i: usize = 0;
    while i < bytes.len()
        invariant
            i <= bytes@.len(),
            out@ == old(out)@ + bytes@.take(i as int),
        decreases bytes@.len() - i,
    {
        out.push(bytes[i]);
        proof {
            assert(bytes@.take(i + 1) =~= bytes@.take(i as int).push(bytes@[i as int]));
            assert(out@ =~= old(out)@ + bytes@.take(i + 1));
        }
        i += 1;
    }
    proof {
        assert(bytes@.take(i as int) =~= bytes@);
    }
}

fn copy_of(bytes: &[u8]) -> (r: Vec<u8>)
    ensures
        r@ == bytes@,
{
    let mut r: Vec<u8> = Vec::new();
    append(&mut r, bytes);
    proof {
        assert(r@ =~= bytes@);
    }
    r
}

fn hex_byte(d: u64) -> (r: u8)
    requires
        d < 16,
    ensures
        r == hex_char(d as nat),
{
    if d < 10 {
        (48 + d) as u8
    } else {
        (87 + d) as u8
    }
}

/// Writes a chunk length in hexadecimal digits.
pub fn hex_of(n: usize) -> (r: Vec<u8>)
    ensures
        r@ == hex_digits(n as nat),
{
    let mut low: Vec<u8> = Vec::new();
    let mut m: u64 = n as u64;
    // `low` gathers the digits below those of `m`, lowest first.
    let ghost mut tail: Seq<u8> = Seq::empty();
    while m >= 16
        invariant
            low@.len() == tail.len(),
            forall|j: int| 0 <= j < tail.len() ==> low@[j] == tail[tail.len() - 1 - j],
            hex_digits(n as nat) == hex_digits(m as nat) + tail,
        decreases m,
    {
        let d = hex_byte(m % 16);
        proof {
            let next = seq![d] + tail;
            assert(hex_digits(m as nat) == hex_digits((m / 16) as nat).push(d));
            assert(hex_digits((m / 16) as nat).push(d) + tail =~= hex_digits((m / 16) as nat) + next);
            tail = next;
        }
        low.push(d);
        m = m / 16;
    }
    let mut out: Vec<u8> = Vec::new();
    out.push(hex_byte(m));
    let mut i: usize = low.len();
    while i > 0
        invariant
            i <= low@.len(),
            low@.len() == tail.len(),
            forall|j: int| 0 <= j < tail.len() ==> low@[j] == tail[tail.len() - 1 - j],
            out@ == hex_digits(m as nat) + tail.take(tail.len() - i),
        decreases i,
    {
        i -= 1;
        out.push(low[i]);
        proof {
            let k = tail.len() - 1 - i;
            assert(tail.take(k + 1) =~= tail.take(k).push(tail[k]));
            assert(out@ =~= hex_digits(m as nat) + tail.take(k + 1));
        }
    }
    proof {
        assert(tail.take(tail.len() as int) =~= tail);
    }
    out
}

/// Encodes one chunk of a chunked body: size line, data, CRLF. An empty
/// chunk is the terminal one.
pub fn chunk_bytes(data: &[u8]) -> (r: Vec<u8>)
    ensures
        r@ == encode_chunk(data@),
{
    let mut out = hex_of(data.len());
    out.push(13);
    out.push(10);
    append(&mut out, data);
    out.push(13);
    out.push(10);
    proof {
        assert(out@ =~= encode_chunk(data@));
    }
    out
}

/// A response in the making.
pub struct Response {
    status: u16,
    reason: Vec<u8>,
    headers: Vec<(Vec<u8>, Vec<u8>)>,
    state: WriteState,
}

impl Response {
    /// The status code.
    pub closed spec fn status_code(&self) -> u16 {
        self.status
    }

    /// The reason phrase.
    pub closed spec fn reason(&self) -> Seq<u8> {
        self.reason@
    }

    /// Name and value of each header, in the order of the calls that added
    /// them.
    pub closed spec fn header_list(&self) -> Seq<(Seq<u8>, Seq<u8>)> {
        Seq::new(self.headers@.len(), |i: int| (self.headers@[i].0@, self.headers@[i].1@))
    }

    /// How far the response has been written.
    pub closed spec fn write_state(&self) -> WriteState {
        self.state
    }

    /// The status is one of three digits.
    pub closed spec fn wf(&self) -> bool {
        100 <= self.status <= 999
    }

    /// A response `200 OK` without headers, nothing of it written.
    pub fn new() -> (r: Response)
        ensures
            r.wf(),
            r.status_code() == 200,
            r.reason() == seq![79u8, 75u8],
            r.header_list() == Seq::<(Seq<u8>, Seq<u8>)>::empty(),
            r.write_state() == WriteState::NotStarted,
    {
        let r = Response {
            status: 200,
            reason: vec![79u8, 75u8],
            headers: Vec::new(),
            state: WriteState::NotStarted,
        };
        proof {
            assert(r.reason@ =~= seq![79u8, 75u8]);
            assert(r.header_list() =~= Seq::<(Seq<u8>, Seq<u8>)>::empty());
        }
        r
    }

    /// How far the response has been written.
    pub fn state(&self) -> (s: WriteState)
        ensures
            s == self.write_state(),
    {
        self.state
    }

    /// What `set_status_line` returns: the refusal that is due, or `Ok`.
    pub open spec fn status_verdict(&self, code: u16) -> Result<(), ResponseError> {
        if self.write_state() != WriteState::NotStarted {
            Err(ResponseError::WrongState)
        } else if code < 100 || code > 999 {
            Err(ResponseError::BadStatus)
        } else {
            Ok(())
        }
    }

    /// Sets status code and reason phrase. Refused once the head has been
    /// encoded, and for a code that has not three digits; the response is
    /// then left as it was.
    pub fn set_status_line(&mut self, code: u16, reason: &[u8]) -> (r: Result<(), ResponseError>)
        requires
            old(self).wf(),
        ensures
            final(self).wf(),
            final(self).header_list() == old(self).header_list(),
            final(self).write_state() == old(self).write_state(),
            r == old(self).status_verdict(code),
            r.is_ok() ==> final(self).status_code() == code && final(self).reason() == reason@,
            r.is_err() ==> final(self).status_code() == old(self).status_code() && final(
                self).reason() == old(self).reason(),
    {
        if self.state != WriteState::NotStarted {
            return Err(ResponseError::WrongState);
        }
        if code < 100 || code > 999 {
            return Err(ResponseError::BadStatus);
        }
        self.status = code;
        self.reason = copy_of(reason);
        proof {
            assert(final(self).header_list() =~= old(self).header_list());
        }
        Ok(())
    }

    /// Sets the status code, with the reason phrase that `http` holds for
    /// it. Refused as `set_status_line` refuses.
    pub fn set_status(&mut self, code: u16) -> (r: Result<(), ResponseError>)
        requires
            old(self).wf(),
        ensures
            final(self).wf(),
            final(self).header_list() == old(self).header_list(),
            final(self).write_state() == old(self).write_state(),
            r == old(self).status_verdict(code),
            r.is_ok() ==> final(self).status_code() == code && final(self).reason()
                == canonical_reason(code),
            r.is_err() ==> final(self).status_code() == old(self).status_code() && final(
                self).reason() == old(self).reason(),
    {
        let reason = reason_phrase(code);
        self.set_status_line(code, reason.as_slice())
    }

    /// Appends a header. Refused once the head has been encoded: the
    /// headers are then fixed.
    pub fn add_header(&mut self, name: &[u8], value: &[u8]) -> (r: Result<(), ResponseError>)
        requires
            old(self).wf(),
        ensures
            final(self).wf(),
            final(self).status_code() == old(self).status_code(),
            final(self).reason() == old(self).reason(),
            final(self).write_state() == old(self).write_state(),
            old(self).write_state() == WriteState::NotStarted ==> r.is_ok() && final(self).header_list() == old(self).header_list().push((name@, value@)),
            old(self).write_state() != WriteState::NotStarted ==> r == Err::<(), ResponseError>(
                ResponseError::WrongState,
            ) && final(self).header_list() == old(self).header_list(),
    {
        if self.state != WriteState::NotStarted {
            return Err(ResponseError::WrongState);
        }
        let pair = (copy_of(name), copy_of(value));
        self.headers.push(pair);
        proof {
            assert(final(self).header_list() =~= old(self).header_list().push((name@, value@)));
        }
        Ok(())
    }

    /// Encodes the head and fixes the headers. Refused where the head was
    /// encoded before.
    pub fn send_head(&mut self) -> (r: Result<Vec<u8>, ResponseError>)
        requires
            old(self).wf(),
        ensures
            final(self).wf(),
            final(self).status_code() == old(self).status_code(),
            final(self).reason() == old(self).reason(),
            final(self).header_list() == old(self).header_list(),
            old(self).write_state() == WriteState::NotStarted ==> final(self).write_state()
                == WriteState::HeadersSent && r.is_ok() && r.unwrap()@ == head_bytes(
                old(self).status_code(),
                old(self).reason(),
                old(self).header_list(),
            ),
            old(self).write_state() != WriteState::NotStarted ==> final(self).write_state() == old(self).write_state() && r == Err::<Vec<u8>, ResponseError>(ResponseError::WrongState),
    {
        if self.state != WriteState::NotStarted {
            return Err(ResponseError::WrongState);
        }
        let mut out: Vec<u8> = vec![72u8, 84u8, 84u8, 80u8, 47u8, 49u8, 46u8, 49u8, 32u8];
        let code = self.status;
        out.push((48 + code / 100) as u8);
        out.push((48 + (code / 10) % 10) as u8);
        out.push((48 + code % 10) as u8);
        out.push(32);
        append(&mut out, self.reason.as_slice());
        out.push(13);
        out.push(10);
        let ghost line = out@;
        let ghost all = self.header_list();
        proof {
            assert(line =~= version_bytes() + seq![32u8] + status_digits(code) + seq![32u8]
                + self.reason@ + crlf());
        }
        let mut i: usize = 0;
        while i < self.headers.len()
            invariant
                i <= self.headers@.len(),
                all == self.header_list(),
                all.len() == self.headers@.len(),
                out@ == line + header_block(all.take(i as int)),
            decreases self.headers@.len() - i,
        {
            let ghost before = out@;
            append(&mut out, self.headers[i].0.as_slice());
            out.push(58);
            out.push(32);
            append(&mut out, self.headers[i].1.as_slice());
            out.push(13);
            out.push(10);
            proof {
                let upto = all.take(i + 1);
                assert(upto.drop_last() =~= all.take(i as int));
                assert(upto.last() == all[i as int]);
                assert(out@ =~= before + header_line(all[i as int].0, all[i as int].1));
                assert(out@ =~= line + header_block(upto));
            }
            i += 1;
        }
        out.push(13);
        out.push(10);
        proof {
            assert(all.take(i as int) =~= all);
            assert(out@ =~= head_bytes(code, self.reason@, all));
        }
        self.state = WriteState::HeadersSent;
        proof {
            assert(final(self).header_list() =~= old(self).header_list());
        }
        Ok(out)
    }

    /// Passes body bytes on as they are. Refused before the head was
    /// encoded and after the response was finished.
    pub fn send_body(&mut self, data: &[u8]) -> (r: Result<Vec<u8>, ResponseError>)
        requires
            old(self).wf(),
        ensures
            final(self).wf(),
            final(self).status_code() == old(self).status_code(),
            final(self).reason() == old(self).reason(),
            final(self).header_list() == old(self).header_list(),
            old(self).write_state() == WriteState::HeadersSent || old(self).write_state()
                == WriteState::BodyStreaming ==> final(self).write_state()
                == WriteState::BodyStreaming && r.is_ok() && r.unwrap()@ == data@,
            old(self).write_state() == WriteState::NotStarted || old(self).write_state()
                == WriteState::Finished ==> final(self).write_state() == old(self).write_state()
                && r == Err::<Vec<u8>, ResponseError>(ResponseError::WrongState),
    {
        match self.state {
            WriteState::HeadersSent | WriteState::BodyStreaming => {
                self.state = WriteState::BodyStreaming;
                proof {
                    assert(final(self).header_list() =~= old(self).header_list());
                }
                Ok(copy_of(data))
            },
            _ => Err(ResponseError::WrongState),
        }
    }

    /// Ends the response. Refused before the head was encoded.
    pub fn finish(&mut self) -> (r: Result<(), ResponseError>)
        requires
            old(self).wf(),
        ensures
            final(self).wf(),
            final(self).status_code() == old(self).status_code(),
            final(self).reason() == old(self).reason(),
            final(self).header_list() == old(self).header_list(),
            old(self).write_state() == WriteState::NotStarted ==> final(self).write_state()
                == WriteState::NotStarted && r == Err::<(), ResponseError>(
                ResponseError::WrongState,
            ),
            old(self).write_state() != WriteState::NotStarted ==> final(self).write_state()
                == WriteState::Finished && r.is_ok(),
    {
        if self.state == WriteState::NotStarted {
            return Err(ResponseError::WrongState);
        }
        self.state = WriteState::Finished;
        proof {
            assert(final(self).header_list() =~= old(self).header_list());
        }
        Ok(())
    }
}

} // verus!
