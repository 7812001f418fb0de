//! The entity body as a stream: absent, of fixed length, or chunked.
//!
//! A reader does no I/O. Each call of `read` is handed the bytes that the
//! transport has delivered and not yet passed on, and says how many of them
//! it used, which bytes of the body they gave, and where the body stands.

use vstd::prelude::*;
use vstd::slice::{slice_subrange, slice_to_vec};

verus! {

/// Where a chunked body stands.
#[derive(Clone, Copy, Debug, PartialEq, Eq, Structural)]
pub enum ChunkPhase {
    /// A chunk-size line is due.
    Size,
    /// This many data bytes of the current chunk are still due.
    Data(u64),
    /// The CRLF that closes a chunk's data is due.
    DataEnd,
    /// The terminal chunk was seen; trailer lines are discarded up to the
    /// blank line.
    Trailer,
    /// The body is over.
    Done,
}

/// The reader of one request's body.
#[derive(Clone, Copy, Debug, PartialEq, Eq, Structural)]
pub enum BodyReader {
    /// No body.
    Empty,
    /// This many bytes are still to be yielded.
    Fixed(u64),
    Chunked(ChunkPhase),
}

/// Broken chunk framing; nothing that follows on the connection can be
/// trusted.
#[derive(Clone, Copy, Debug, PartialEq, Eq, Structural)]
pub enum BodyError {
    /// A chunk-size line does not start with a hexadecimal number of at most
    /// 64 bits, followed by the end of the line or by `;`.
    BadChunkSize,
    /// A chunk's data is not followed by CRLF.
    BadChunkEnd,
}

/// How a call of `read` ended.
#[derive(Clone, Copy, Debug, PartialEq, Eq, Structural)]
pub enum ReadStatus {
    /// The call moved on; another call may yield more.
    Progress,
    /// The call needs bytes that the input does not hold yet.
    NeedInput,
    /// The body is over; nothing was used.
    End,
}

/// What one call of `read` did.
#[derive(Debug)]
pub struct Read {
    /// How many bytes of the input were used up.
    pub consumed: usize,
    /// The bytes of the body that they gave.
    pub data: Vec<u8>,
    pub status: ReadStatus,
}

/// What one call of `read` owes, and the reader it leaves.
pub struct ReadView {
    /// The reader after the call.
    pub reader: BodyReader,
    pub consumed: int,
    pub data: Seq<u8>,
    pub status: ReadStatus,
}

/// The least of three.
pub open spec fn min3(a: int, b: int, c: int) -> int {
    if a <= b && a <= c {
        a
    } else if b <= c {
        b
    } else {
        c
    }
}

/// A CRLF starts at `i`.
pub open spec fn crlf_at(s: Seq<u8>, i: int) -> bool {
    0 <= i && i + 1 < s.len() && s[i] == 13 && s[i + 1] == 10
}

/// `i` is where the first CRLF of `s` starts.
pub open spec fn is_line_end(s: Seq<u8>, i: int) -> bool {
    crlf_at(s, i) && forall|j: int| 0 <= j < i ==> !crlf_at(s, j)
}

/// Where the first line of `s` ends, if `s` holds a whole line.
pub open spec fn line_end(s: Seq<u8>) -> Option<int> {
    if exists|i: int| is_line_end(s, i) {
        Some(choose|i: int| is_line_end(s, i))
    } else {
        None
    }
}

/// A hexadecimal digit, in either case.
pub open spec fn is_hex(b: u8) -> bool {
    48 <= b <= 57 || 65 <= b <= 70 || 97 <= b <= 102
}

/// The value of a hexadecimal digit.
pub open spec fn hex_digit_value(b: u8) -> nat {
    if 48 <= b <= 57 {
        (b - 48) as nat
    } else if 65 <= b <= 70 {
        (b - 55) as nat
    } else {
        (b - 87) as nat
    }
}

/// The number that a string of hexadecimal digits writes.
pub open spec fn hex_value(s: Seq<u8>) -> nat
    decreases s.len(),
{
    if s.len() == 0 {
        0
    } else {
        hex_value(s.drop_last()) * 16 + hex_digit_value(s.last())
    }
}

/// The first `k` bytes of `s` are its leading hexadecimal digits.
pub open spec fn is_hex_run(s: Seq<u8>, k: int) -> bool {
    &&& 0 <= k <= s.len()
    &&& forall|j: int| 0 <= j < k ==> is_hex(#[trigger] s[j])
    &&& (k == s.len() || !is_hex(s[k]))
}

/// How many hexadecimal digits `s` starts with.
pub open spec fn hex_run(s: Seq<u8>) -> int {
    choose|k: int| is_hex_run(s, k)
}

/// The size that a chunk-size line declares: its leading hexadecimal digits,
/// at least one, within 64 bits; a chunk extension after `;` is ignored.
pub open spec fn chunk_size(line: Seq<u8>) -> Option<u64> {
    let k = hex_run(line);
    if 0 < k && (k == line.len() || line[k] == 59) && hex_value(line.take(k)) <= u64::MAX {
        Some(hex_value(line.take(k)) as u64)
    } else {
        None
    }
}

/// A call that used and yielded nothing.
pub open spec fn stay(reader: BodyReader, status: ReadStatus) -> ReadView {
    ReadView { reader, consumed: 0, data: Seq::empty(), status }
}

/// A call that passed `consumed` bytes of framing.
pub open spec fn pass(reader: BodyReader, consumed: int) -> ReadView {
    ReadView { reader, consumed, data: Seq::empty(), status: ReadStatus::Progress }
}

/// What a call of `read` owes: the move that `reader` makes on `input` when
/// up to `want` bytes of the body are asked for.
pub open spec fn read_spec(reader: BodyReader, input: Seq<u8>, want: usize) -> Result<
    ReadView,
    BodyError,
> {
    match reader {
        BodyReader::Empty => Ok(stay(reader, ReadStatus::End)),
        BodyReader::Fixed(n) => {
            let k = min3(n as int, input.len() as int, want as int);
            if n == 0 {
                Ok(stay(reader, ReadStatus::End))
            } else if input.len() == 0 {
                Ok(stay(reader, ReadStatus::NeedInput))
            } else {
                Ok(
                    ReadView {
                        reader: BodyReader::Fixed((n - k) as u64),
                        consumed: k,
                        data: input.take(k),
                        status: ReadStatus::Progress,
                    },
                )
            }
        },
        BodyReader::Chunked(ChunkPhase::Size) => match line_end(input) {
            None => Ok(stay(reader, ReadStatus::NeedInput)),
            Some(i) => match chunk_size(input.take(i)) {
                None => Err(BodyError::BadChunkSize),
                Some(n) => if n == 0 {
                    Ok(pass(BodyReader::Chunked(ChunkPhase::Trailer), i + 2))
                } else {
                    Ok(pass(BodyReader::Chunked(ChunkPhase::Data(n)), i + 2))
                },
            },
        },
        BodyReader::Chunked(ChunkPhase::Data(n)) => {
            let k = min3(n as int, input.len() as int, want as int);
            if n == 0 {
                Ok(pass(BodyReader::Chunked(ChunkPhase::DataEnd), 0))
            } else if input.len() == 0 {
                Ok(stay(reader, ReadStatus::NeedInput))
            } else {
                Ok(
                    ReadView {
                        reader: if n == k {
                            BodyReader::Chunked(ChunkPhase::DataEnd)
                        } else {
                            BodyReader::Chunked(ChunkPhase::Data((n - k) as u64))
                        },
                        consumed: k,
                        data: input.take(k),
                        status: ReadStatus::Progress,
                    },
                )
            }
        },
        BodyReader::Chunked(ChunkPhase::DataEnd) => {
            if input.len() == 0 || (input.len() == 1 && input[0] == 13) {
                Ok(stay(reader, ReadStatus::NeedInput))
            } else if crlf_at(input, 0) {
                Ok(pass(BodyReader::Chunked(ChunkPhase::Size), 2))
            } else {
                Err(BodyError::BadChunkEnd)
            }
        },
        BodyReader::Chunked(ChunkPhase::Trailer) => match line_end(input) {
            None => Ok(stay(reader, ReadStatus::NeedInput)),
            Some(i) => if i == 0 {
                Ok(pass(BodyReader::Chunked(ChunkPhase::Done), 2))
            } else {
                Ok(pass(reader, i + 2))
            },
        },
        BodyReader::Chunked(ChunkPhase::Done) => Ok(stay(reader, ReadStatus::End)),
    }
}

/// Finds the first CRLF.
fn find_line_end(s: &[u8]) -> (r: Option<usize>)
    ensures
        match r {
            Some(i) => line_end(s@) == Some(i as int) && i + 2 <= s@.len() <= usize::MAX,
            None => line_end(s@).is_none(),
        },
{
    let mut i: usize = 0;
    while i < s.len() && i + 1 < s.len()
        invariant
            i <= s@.len(),
            forall|j: int| 0 <= j < i ==> !crlf_at(s@, j),
        decreases s@.len() - i,
    {
        if s[i] == 13 && s[i + 1] == 10 {
            proof {
                assert(is_line_end(s@, i as int));
                let c = choose|c: int| is_line_end(s@, c);
                assert(c == i);
            }
            return Some(i);
        }
        i += 1;
    }
    proof {
        assert forall|c: int| !is_line_end(s@, c) by {
            if crlf_at(s@, c) {
                assert(c < i);
            }
        }
    }
    None
}

fn byte_is_hex(b: u8) -> (r: bool)
    ensures
        r == is_hex(b),
{
    (48 <= b && b <= 57) || (65 <= b && b <= 70) || (97 <= b && b <= 102)
}

fn hex_digit(b: u8) -> (r: u64)
    requires
        is_hex(b),
    ensures
        r == hex_digit_value(b),
        r < 16,
{
    if 48 <= b && b <= 57 {
        (b - 48) as u64
    } else if 65 <= b && b <= 70 {
        (b - 55) as u64
    } else {
        (b - 87) as u64
    }
}

pub(crate) proof fn lemma_hex_run_unique(s: Seq<u8>, a: int, b: int)
    requires
        is_hex_run(s, a),
        is_hex_run(s, b),
    ensures
        a == b,
{
    if a < b {
        assert(is_hex(s[a]));
    } else if b < a {
        assert(is_hex(s[b]));
    }
}

/// Reads a chunk-size line, without its CRLF.
pub fn parse_chunk_size(line: &[u8]) -> (r: Option<u64>)
    ensures
        r == chunk_size(line@),
{
    let mut acc: u64 = 0;
    let mut i: usize = 0;
    let mut fits = true;
    while i < line.len() && byte_is_hex(line[i])
        invariant
            i <= line@.len(),
            forall|j: int| 0 <= j < i ==> is_hex(#[trigger] line@[j]),
            fits ==> acc == hex_value(line@.take(i as int)),
            !fits ==> hex_value(line@.take(i as int)) > u64::MAX,
        decreases line@.len() - i,
    {
        let d = hex_digit(line[i]);
        proof {
            assert(line@.take(i + 1).drop_last() =~= line@.take(i as int));
            assert(line@.take(i + 1).last() == line@[i as int]);
        }
        if fits && acc <= 0x0fff_ffff_ffff_ffff {
            acc = acc * 16 + d;
        } else {
            fits = false;
        }
        i += 1;
    }
    proof {
        assert(is_hex_run(line@, i as int));
        lemma_hex_run_unique(line@, i as int, hex_run(line@));
    }
    if i > 0 && fits && (i == line.len() || line[i] == 59) {
        Some(acc)
    } else {
        None
    }
}

impl View for Read {
    type V = (int, Seq<u8>, ReadStatus);

    open spec fn view(&self) -> (int, Seq<u8>, ReadStatus) {
        (self.consumed as int, self.data@, self.status)
    }
}

/// How `r` and the reader `after` the call stand to what `read` owes.
pub open spec fn read_matches(
    owed: Result<ReadView, BodyError>,
    before: BodyReader,
    r: Result<Read, BodyError>,
    after: BodyReader,
) -> bool {
    match owed {
        Ok(v) => r matches Ok(out) && out@ == (v.consumed, v.data, v.status) && after == v.reader,
        Err(e) => r matches Err(f) && f == e && after == before,
    }
}

fn take_bytes(input: &[u8], limit: u64, want: usize) -> (r: Vec<u8>)
    ensures
        r@ == input@.take(min3(limit as int, input@.len() as int, want as int)),
        r@.len() == min3(limit as int, input@.len() as int, want as int),
{
    let mut k: usize = if input.len() < want {
        input.len()
    } else {
        want
    };
    if k as u64 > limit {
        k = limit as usize;
    }
    let out = slice_to_vec(slice_subrange(input, 0, k));
    proof {
        assert(out@ =~= input@.take(k as int));
    }
    out
}

impl BodyReader {
    /// Makes one move on `input`, the bytes that the transport has delivered
    /// and that no earlier call used up, yielding at most `want` bytes.
    ///
    /// A fixed-length reader yields what the input holds, up to the bytes
    /// still due and to `want`. A chunked reader passes one element of the
    /// framing or yields data of the current chunk. No call uses or yields a
    /// byte beyond the body's end. After an error the reader is unchanged.
    pub fn read(&mut self, input: &[u8], want: usize) -> (r: Result<Read, BodyError>)
        ensures
            read_matches(read_spec(*old(self), input@, want), *old(self), r, *final(self)),
    {
        let stay_end = Read { consumed: 0, data: Vec::new(), status: ReadStatus::End };
        let stay_need = Read { consumed: 0, data: Vec::new(), status: ReadStatus::NeedInput };
        match *self {
            BodyReader::Empty => Ok(stay_end),
            BodyReader::Fixed(n) => {
                if n == 0 {
                    Ok(stay_end)
                } else if input.len() == 0 {
                    Ok(stay_need)
                } else {
                    let data = take_bytes(input, n, want);
                    let k = data.len();
                    *self = BodyReader::Fixed(n - k as u64);
                    Ok(Read { consumed: k, data, status: ReadStatus::Progress })
                }
            },
            BodyReader::Chunked(ChunkPhase::Size) => match find_line_end(input) {
                None => Ok(stay_need),
                Some(i) => {
                    let line = slice_subrange(input, 0, i);
                    match parse_chunk_size(line) {
                        None => Err(BodyError::BadChunkSize),
                        Some(n) => {
                            if n == 0 {
                                *self = BodyReader::Chunked(ChunkPhase::Trailer);
                            } else {
                                *self = BodyReader::Chunked(ChunkPhase::Data(n));
                            }
                            Ok(Read { consumed: i + 2, data: Vec::new(), status: ReadStatus::Progress })
                        },
                    }
                },
            },
            BodyReader::Chunked(ChunkPhase::Data(n)) => {
                if n == 0 {
                    *self = BodyReader::Chunked(ChunkPhase::DataEnd);
                    Ok(Read { consumed: 0, data: Vec::new(), status: ReadStatus::Progress })
                } else if input.len() == 0 {
                    Ok(stay_need)
                } else {
                    let data = take_bytes(input, n, want);
                    let k = data.len();
                    if n == k as u64 {
                        *self = BodyReader::Chunked(ChunkPhase::DataEnd);
                    } else {
                        *self = BodyReader::Chunked(ChunkPhase::Data(n - k as u64));
                    }
                    Ok(Read { consumed: k, data, status: ReadStatus::Progress })
                }
            },
            BodyReader::Chunked(ChunkPhase::DataEnd) => {
                if input.len() == 0 || (input.len() == 1 && input[0] == 13) {
                    Ok(stay_need)
                } else if input.len() >= 2 && input[0] == 13 && input[1] == 10 {
                    *self = BodyReader::Chunked(ChunkPhase::Size);
                    Ok(Read { consumed: 2, data: Vec::new(), status: ReadStatus::Progress })
                } else {
                    Err(BodyError::BadChunkEnd)
                }
            },
            BodyReader::Chunked(ChunkPhase::Trailer) => match find_line_end(input) {
                None => Ok(stay_need),
                Some(i) => {
                    if i == 0 {
                        *self = BodyReader::Chunked(ChunkPhase::Done);
                    }
                    Ok(Read { consumed: i + 2, data: Vec::new(), status: ReadStatus::Progress })
                },
            },
            BodyReader::Chunked(ChunkPhase::Done) => Ok(stay_end),
        }
    }
}

/// Where `advance` leaves the reader, how much of the input it used, and
/// what it yielded or why it failed.
pub struct AdvanceView {
    pub reader: BodyReader,
    pub consumed: int,
    pub outcome: Result<(Seq<u8>, ReadStatus), BodyError>,
}

/// How far a reader is from yielding data, among readers that use no input.
pub open spec fn phase_rank(reader: BodyReader) -> nat {
    match reader {
        BodyReader::Chunked(ChunkPhase::Data(_)) => 1,
        _ => 0,
    }
}

/// The call made a move in the framing: it yielded nothing and more may
/// follow at once.
pub open spec fn is_framing_move(v: ReadView, want: usize) -> bool {
    v.status == ReadStatus::Progress && v.data.len() == 0 && want > 0
}

/// What `advance` owes: the moves of `read`, one after the other on what
/// the moves before left of `input`, up to the first that yields data,
/// needs input, ends the body or fails. The bounds asked of a move in the
/// framing hold of every such move, as `law_read_within_bounds` shows; they
/// stand here for the recursion to end.
pub open spec fn advance_spec(reader: BodyReader, input: Seq<u8>, want: usize) -> AdvanceView
    decreases input.len(), phase_rank(reader),
{
    match read_spec(reader, input, want) {
        Err(e) => AdvanceView { reader, consumed: 0, outcome: Err(e) },
        Ok(v) => if is_framing_move(v, want) && 0 <= v.consumed <= input.len() && (v.consumed > 0
            || phase_rank(v.reader) < phase_rank(reader)) {
            let rest = advance_spec(v.reader, input.skip(v.consumed), want);
            AdvanceView { consumed: v.consumed + rest.consumed, ..rest }
        } else {
            AdvanceView { reader: v.reader, consumed: v.consumed, outcome: Ok((v.data, v.status)) }
        },
    }
}

/// No call of `read` uses more than the input holds or yields more than was
/// asked for, and what it yields it has used; a move in the framing either
/// uses input or leaves the data phase of an empty chunk.
pub proof fn law_read_within_bounds(reader: BodyReader, input: Seq<u8>, want: usize)
    ensures
        read_spec(reader, input, want) matches Ok(v) ==> 0 <= v.consumed <= input.len()
            && v.data.len() <= want && v.data.len() <= v.consumed && (is_framing_move(v, want)
            ==> v.consumed > 0 || phase_rank(v.reader) < phase_rank(reader)),
{
    match reader {
        BodyReader::Chunked(ChunkPhase::Size) | BodyReader::Chunked(ChunkPhase::Trailer) => {
            if line_end(input).is_some() {
                let i = choose|i: int| is_line_end(input, i);
                assert(is_line_end(input, i));
            }
        },
        _ => {},
    }
}

/// `r` and the reader `after` the call are what `advance` owes.
pub open spec fn advance_matches(owed: AdvanceView, r: Result<Read, BodyError>, after: BodyReader) -> bool {
    &&& after == owed.reader
    &&& match owed.outcome {
        Ok(o) => r matches Ok(out) && out@ == (owed.consumed, o.0, o.1),
        Err(e) => r matches Err(f) && f == e,
    }
}

impl BodyReader {
    /// Reads on through the framing: makes the moves of `read` until one
    /// yields data, needs input that is not there yet, ends the body or
    /// fails. On an error the reader stands where the failing move found
    /// it.
    pub fn advance(&mut self, input: &[u8], want: usize) -> (r: Result<Read, BodyError>)
        ensures
            advance_matches(advance_spec(*old(self), input@, want), r, *final(self)),
    {
        let mut used: usize = 0;
        proof {
            assert(input@.skip(0) =~= input@);
            law_read_within_bounds(*self, input@, want);
        }
        loop
            invariant
                used <= input@.len(),
                advance_spec(*old(self), input@, want).reader == advance_spec(
                    *self,
                    input@.skip(used as int),
                    want,
                ).reader,
                advance_spec(*old(self), input@, want).outcome == advance_spec(
                    *self,
                    input@.skip(used as int),
                    want,
                ).outcome,
                advance_spec(*old(self), input@, want).consumed == used + advance_spec(
                    *self,
                    input@.skip(used as int),
                    want,
                ).consumed,
            decreases input@.len() - used, phase_rank(*self),
        {
            let rest = slice_subrange(input, used, input.len());
            let ghost before = *self;
            proof {
                assert(rest@ == input@.skip(used as int));
                law_read_within_bounds(before, rest@, want);
            }
            match self.read(rest, want) {
                Err(e) => {
                    return Err(e);
                },
                Ok(got) => {
                    if got.status == ReadStatus::Progress && got.data.len() == 0 && want > 0 {
                        proof {
                            assert(rest@.skip(got.consumed as int) =~= input@.skip(
                                used + got.consumed,
                            ));
                        }
                        used += got.consumed;
                    } else {
                        return Ok(
                            Read { consumed: used + got.consumed, data: got.data, status: got.status },
                        );
                    }
                },
            }
        }
    }
}

} // verus!
