//! Runs of reads: what a sequence of calls of `read` yields of a body of
//! fixed length and of a chunked body, and the encoding of chunks that the
//! chunked reader undoes.

use vstd::prelude::*;
use crate::body::{
    chunk_size, crlf_at, hex_run, hex_value, is_hex, is_hex_run, is_line_end, lemma_hex_run_unique,
    line_end, min3, pass, read_spec, stay, BodyError, BodyReader, ChunkPhase, ReadStatus, ReadView,
};

verus! {

/// A run of calls of `read` on one stream: the call for `wants[i]` bytes
/// sees what the calls before it left of `stream`. The result is what the
/// calls yielded, one after the other, the reader after the last of them,
/// and how much of the stream they used; `None` where a call fails.
pub open spec fn reads(reader: BodyReader, stream: Seq<u8>, wants: Seq<usize>) -> Option<
    (Seq<u8>, BodyReader, int),
>
    decreases wants.len(),
{
    if wants.len() == 0 {
        Some((Seq::empty(), reader, 0))
    } else {
        match read_spec(reader, stream, wants[0]) {
            Err(_) => None,
            Ok(v) => match reads(v.reader, stream.skip(v.consumed), wants.skip(1)) {
                None => None,
                Some(rest) => Some((v.data + rest.0, rest.1, v.consumed + rest.2)),
            },
        }
    }
}

/// Whatever lengths a run of reads asks for, a reader of `n` bytes yields
/// the front of the stream and nothing beyond byte `n`: what was yielded and
/// what is still due add up to `n`, and the rest of the stream is not used.
pub proof fn law_fixed_yields_its_length(n: u64, stream: Seq<u8>, wants: Seq<usize>)
    ensures
        reads(BodyReader::Fixed(n), stream, wants) matches Some(run) && run.1 matches BodyReader::Fixed(
            due,
        ) && run.0.len() + due == n && run.2 == run.0.len() && run.2 <= stream.len() && run.0
            == stream.take(run.2),
    decreases wants.len(),
{
    if wants.len() == 0 {
        assert(stream.take(0) =~= Seq::<u8>::empty());
    } else {
        let v = read_spec(BodyReader::Fixed(n), stream, wants[0])->Ok_0;
        let due = v.reader->Fixed_0;
        law_fixed_yields_its_length(due, stream.skip(v.consumed), wants.skip(1));
        let rest = reads(v.reader, stream.skip(v.consumed), wants.skip(1))->Some_0;
        assert(v.data + rest.0 =~= stream.take(v.consumed + rest.2));
    }
}

/// Once a reader of fixed length has yielded its bytes, every further call
/// reports the end and uses nothing, whatever the stream holds.
pub proof fn law_fixed_ends(stream: Seq<u8>, want: usize)
    ensures
        read_spec(BodyReader::Fixed(0), stream, want) == Ok::<ReadView, BodyError>(
            stay(BodyReader::Fixed(0), ReadStatus::End),
        ),
{
}

/// The lower-case hexadecimal digit of value `d`.
pub open spec fn hex_char(d: nat) -> u8 {
    if d < 10 {
        (48 + d) as u8
    } else {
        (87 + d) as u8
    }
}

/// `n` in hexadecimal digits, lower case, without leading zeros.
pub open spec fn hex_digits(n: nat) -> Seq<u8>
    decreases n,
{
    if n < 16 {
        seq![hex_char(n)]
    } else {
        hex_digits(n / 16).push(hex_char(n % 16))
    }
}

/// The line end.
pub open spec fn crlf() -> Seq<u8> {
    seq![13u8, 10u8]
}

/// One chunk on the wire: its size line, its data, CRLF.
pub open spec fn encode_chunk(data: Seq<u8>) -> Seq<u8> {
    hex_digits(data.len()) + crlf() + data + crlf()
}

/// A body on the wire: its chunks, then the terminal chunk and the blank
/// line that ends an empty trailer.
pub open spec fn encode_chunks(chunks: Seq<Seq<u8>>) -> Seq<u8>
    decreases chunks.len(),
{
    if chunks.len() == 0 {
        seq![48u8] + crlf() + crlf()
    } else {
        encode_chunk(chunks[0]) + encode_chunks(chunks.skip(1))
    }
}

/// The chunks' data, one after the other.
pub open spec fn joined(chunks: Seq<Seq<u8>>) -> Seq<u8>
    decreases chunks.len(),
{
    if chunks.len() == 0 {
        Seq::empty()
    } else {
        chunks[0] + joined(chunks.skip(1))
    }
}

proof fn lemma_hex_digits(n: nat)
    ensures
        hex_digits(n).len() > 0,
        forall|i: int| 0 <= i < hex_digits(n).len() ==> is_hex(#[trigger] hex_digits(n)[i]),
        hex_value(hex_digits(n)) == n,
    decreases n,
{
    if n < 16 {
        let s = seq![hex_char(n)];
        assert(s.drop_last() =~= Seq::<u8>::empty());
        assert(hex_value(s.drop_last()) == 0);
        assert(s.last() == hex_char(n));
    } else {
        lemma_hex_digits(n / 16);
        let s = hex_digits(n / 16).push(hex_char(n % 16));
        assert(s.drop_last() =~= hex_digits(n / 16));
        assert(s.last() == hex_char(n % 16));
    }
}

proof fn lemma_first_line(line: Seq<u8>, tail: Seq<u8>)
    requires
        forall|i: int| 0 <= i < line.len() ==> #[trigger] line[i] != 13,
    ensures
        line_end(line + crlf() + tail) == Some(line.len() as int),
        (line + crlf() + tail).take(line.len() as int) == line,
        (line + crlf() + tail).skip(line.len() as int + 2) == tail,
{
    let s = line + crlf() + tail;
    let n = line.len() as int;
    assert(s[n] == 13 && s[n + 1] == 10);
    assert forall|j: int| 0 <= j < n implies !crlf_at(s, j) by {
        assert(s[j] == line[j]);
    }
    assert(is_line_end(s, n));
    let c = choose|c: int| is_line_end(s, c);
    if c < n {
        assert(s[c] == line[c]);
    }
    assert(c == n);
    assert(s.take(n) =~= line);
    assert(s.skip(n + 2) =~= tail);
}

proof fn lemma_size_of_digits(digits: Seq<u8>)
    requires
        digits.len() > 0,
        forall|i: int| 0 <= i < digits.len() ==> is_hex(#[trigger] digits[i]),
        hex_value(digits) <= u64::MAX,
    ensures
        chunk_size(digits) == Some(hex_value(digits) as u64),
{
    assert(is_hex_run(digits, digits.len() as int));
    assert(exists|k: int| is_hex_run(digits, k));
    lemma_hex_run_unique(digits, digits.len() as int, hex_run(digits));
    assert(digits.take(digits.len() as int) =~= digits);
}

proof fn lemma_reads_step(reader: BodyReader, stream: Seq<u8>, wants: Seq<usize>, v: ReadView)
    requires
        wants.len() > 0,
        read_spec(reader, stream, wants[0]) == Ok::<ReadView, BodyError>(v),
        reads(v.reader, stream.skip(v.consumed), wants.skip(1)).is_some(),
    ensures
        reads(reader, stream, wants) == Some(
            (
                v.data + reads(v.reader, stream.skip(v.consumed), wants.skip(1)).unwrap().0,
                reads(v.reader, stream.skip(v.consumed), wants.skip(1)).unwrap().1,
                v.consumed + reads(v.reader, stream.skip(v.consumed), wants.skip(1)).unwrap().2,
            ),
        ),
{
}

proof fn lemma_read_size(digits: Seq<u8>, tail: Seq<u8>, want: usize)
    requires
        digits.len() > 0,
        forall|i: int| 0 <= i < digits.len() ==> is_hex(#[trigger] digits[i]),
        hex_value(digits) <= u64::MAX,
    ensures
        read_spec(BodyReader::Chunked(ChunkPhase::Size), digits + crlf() + tail, want) == Ok::<
            ReadView,
            BodyError,
        >(
            pass(
                if hex_value(digits) == 0 {
                    BodyReader::Chunked(ChunkPhase::Trailer)
                } else {
                    BodyReader::Chunked(ChunkPhase::Data(hex_value(digits) as u64))
                },
                digits.len() as int + 2,
            ),
        ),
        (digits + crlf() + tail).skip(digits.len() as int + 2) == tail,
{
    lemma_first_line(digits, tail);
    lemma_size_of_digits(digits);
}

proof fn lemma_read_data(c: Seq<u8>, tail: Seq<u8>, want: usize)
    requires
        0 < c.len() <= want,
    ensures
        read_spec(BodyReader::Chunked(ChunkPhase::Data(c.len() as u64)), c + tail, want) == Ok::<
            ReadView,
            BodyError,
        >(
            ReadView {
                reader: BodyReader::Chunked(ChunkPhase::DataEnd),
                consumed: c.len() as int,
                data: c,
                status: ReadStatus::Progress,
            },
        ),
        (c + tail).skip(c.len() as int) == tail,
{
    assert((c + tail).take(c.len() as int) =~= c);
    assert((c + tail).skip(c.len() as int) =~= tail);
}

proof fn lemma_read_data_end(tail: Seq<u8>, want: usize)
    ensures
        read_spec(BodyReader::Chunked(ChunkPhase::DataEnd), crlf() + tail, want) == Ok::<
            ReadView,
            BodyError,
        >(pass(BodyReader::Chunked(ChunkPhase::Size), 2)),
        (crlf() + tail).skip(2) == tail,
{
    assert(crlf_at(crlf() + tail, 0));
    assert((crlf() + tail).skip(2) =~= tail);
}

proof fn lemma_read_blank(tail: Seq<u8>, want: usize)
    ensures
        read_spec(BodyReader::Chunked(ChunkPhase::Trailer), crlf() + tail, want) == Ok::<
            ReadView,
            BodyError,
        >(pass(BodyReader::Chunked(ChunkPhase::Done), 2)),
        (crlf() + tail).skip(2) == tail,
{
    let none = Seq::<u8>::empty();
    assert(crlf() + tail =~= none + crlf() + tail);
    lemma_first_line(none, tail);
}

proof fn lemma_round_trip_end(rest: Seq<u8>, wants: Seq<usize>)
    requires
        wants.len() == 2,
    ensures
        reads(
            BodyReader::Chunked(ChunkPhase::Size),
            encode_chunks(Seq::<Seq<u8>>::empty()) + rest,
            wants,
        ) == Some((Seq::<u8>::empty(), BodyReader::Chunked(ChunkPhase::Done), 5int)),
        encode_chunks(Seq::<Seq<u8>>::empty()).len() == 5,
{
    let size = BodyReader::Chunked(ChunkPhase::Size);
    let trailer = BodyReader::Chunked(ChunkPhase::Trailer);
    let done = BodyReader::Chunked(ChunkPhase::Done);
    let stream = encode_chunks(Seq::<Seq<u8>>::empty()) + rest;
    let w1 = wants.skip(1);
    let w2 = w1.skip(1);
    let zero = seq![48u8];
    let none = Seq::<u8>::empty();
    let s1 = crlf() + rest;
    assert(stream =~= zero + crlf() + s1);
    assert(zero.drop_last() =~= none);
    assert(hex_value(zero.drop_last()) == 0);
    assert(hex_value(zero) == 0);
    lemma_read_size(zero, s1, wants[0]);
    lemma_read_blank(rest, w1[0]);
    assert(reads(done, rest, w2) == Some((none, done, 0int)));
    lemma_reads_step(trailer, s1, w1, pass(done, 2));
    lemma_reads_step(size, stream, wants, pass(trailer, 3));
    assert(none + (none + none) =~= none);
}

/// What a chunked body still holds: the data left of the current chunk and
/// the chunks after it.
pub struct Pending {
    pub data: Seq<u8>,
    pub chunks: Seq<Seq<u8>>,
}

/// `p` can be what is pending for a chunked reader in this phase: data is
/// left of a chunk exactly while the reader is inside one, no chunk is
/// empty or beyond 64 bits, and nothing is left once the terminal chunk was
/// seen.
pub open spec fn pending_ok(reader: BodyReader, p: Pending) -> bool {
    &&& forall|i: int| 0 <= i < p.chunks.len() ==> 0 < (#[trigger] p.chunks[i]).len() <= u64::MAX
    &&& match reader {
        BodyReader::Chunked(ChunkPhase::Data(n)) => p.data.len() == n && n > 0,
        BodyReader::Chunked(ChunkPhase::Size) => p.data.len() == 0,
        BodyReader::Chunked(ChunkPhase::DataEnd) => p.data.len() == 0,
        BodyReader::Chunked(ChunkPhase::Trailer) => p.data.len() == 0 && p.chunks.len() == 0,
        BodyReader::Chunked(ChunkPhase::Done) => p.data.len() == 0 && p.chunks.len() == 0,
        _ => false,
    }
}

/// The bytes that are still to come on the wire for what is pending.
pub open spec fn pending_wire(reader: BodyReader, p: Pending) -> Seq<u8> {
    match reader {
        BodyReader::Chunked(ChunkPhase::Size) => encode_chunks(p.chunks),
        BodyReader::Chunked(ChunkPhase::Data(_)) => p.data + crlf() + encode_chunks(p.chunks),
        BodyReader::Chunked(ChunkPhase::DataEnd) => crlf() + encode_chunks(p.chunks),
        BodyReader::Chunked(ChunkPhase::Trailer) => crlf(),
        _ => Seq::empty(),
    }
}

/// The bytes of the body that are still to be yielded.
pub open spec fn pending_body(p: Pending) -> Seq<u8> {
    p.data + joined(p.chunks)
}

/// How a call or a run of calls stands to what was pending before it and
/// what is pending after it: it used the front of the wire and nothing of
/// what follows the body, and what it yielded is the front of the body.
pub open spec fn carries_on(
    reader: BodyReader,
    p: Pending,
    after: BodyReader,
    q: Pending,
    used: int,
    yielded: Seq<u8>,
    rest: Seq<u8>,
) -> bool {
    &&& pending_ok(after, q)
    &&& 0 <= used
    &&& used + pending_wire(after, q).len() == pending_wire(reader, p).len()
    &&& (pending_wire(reader, p) + rest).skip(used) == pending_wire(after, q) + rest
    &&& pending_body(p) == yielded + pending_body(q)
}

proof fn lemma_step_size(p: Pending, rest: Seq<u8>, want: usize) -> (q: Pending)
    requires
        pending_ok(BodyReader::Chunked(ChunkPhase::Size), p),
    ensures
        read_spec(BodyReader::Chunked(ChunkPhase::Size), encode_chunks(p.chunks) + rest, want)
            matches Ok(v) && v.status == ReadStatus::Progress && carries_on(
            BodyReader::Chunked(ChunkPhase::Size),
            p,
            v.reader,
            q,
            v.consumed,
            v.data,
            rest,
        ),
{
    let stream = encode_chunks(p.chunks) + rest;
    let none = Seq::<u8>::empty();
    assert(p.data =~= none);
    if p.chunks.len() == 0 {
        let zero = seq![48u8];
        let tail = crlf() + rest;
        assert(stream =~= zero + crlf() + tail);
        assert(zero.drop_last() =~= none);
        assert(hex_value(zero.drop_last()) == 0);
        assert(hex_value(zero) == 0);
        lemma_read_size(zero, tail, want);
        assert(none + joined(p.chunks) =~= none + (none + joined(p.chunks)));
        p
    } else {
        let c = p.chunks[0];
        let cs = p.chunks.skip(1);
        let digits = hex_digits(c.len());
        let q = Pending { data: c, chunks: cs };
        let tail = c + crlf() + encode_chunks(cs) + rest;
        lemma_hex_digits(c.len());
        assert(stream =~= digits + crlf() + tail);
        lemma_read_size(digits, tail, want);
        assert forall|i: int| 0 <= i < cs.len() implies 0 < (#[trigger] cs[i]).len() <= u64::MAX by {
            assert(cs[i] == p.chunks[i + 1]);
        }
        assert(p.data + joined(p.chunks) =~= none + (c + joined(cs)));
        q
    }
}

proof fn lemma_step_data(n: u64, p: Pending, rest: Seq<u8>, want: usize) -> (q: Pending)
    requires
        pending_ok(BodyReader::Chunked(ChunkPhase::Data(n)), p),
        want > 0,
    ensures
        read_spec(
            BodyReader::Chunked(ChunkPhase::Data(n)),
            p.data + crlf() + encode_chunks(p.chunks) + rest,
            want,
        ) matches Ok(v) && v.status == ReadStatus::Progress && carries_on(
            BodyReader::Chunked(ChunkPhase::Data(n)),
            p,
            v.reader,
            q,
            v.consumed,
            v.data,
            rest,
        ),
{
    let wire = p.data + crlf() + encode_chunks(p.chunks);
    let stream = wire + rest;
    let k = min3(n as int, stream.len() as int, want as int);
    let q = Pending { data: p.data.skip(k), chunks: p.chunks };
    assert(stream.take(k) =~= p.data.take(k));
    assert(p.data =~= p.data.take(k) + p.data.skip(k));
    assert(p.data + joined(p.chunks) =~= p.data.take(k) + (p.data.skip(k) + joined(p.chunks)));
    if k == n {
        assert(stream.skip(k) =~= crlf() + encode_chunks(p.chunks) + rest);
    } else {
        assert(stream.skip(k) =~= p.data.skip(k) + crlf() + encode_chunks(p.chunks) + rest);
    }
    q
}

/// One call of `read` on the wire of a chunked body, for any length asked
/// for: it never waits and never fails, it uses wire of the body only, what
/// it yields is the next part of the body, and it reports the end exactly
/// once the blank line after the terminal chunk was passed. The result is
/// what is pending after the call.
pub proof fn law_chunked_step(reader: BodyReader, p: Pending, rest: Seq<u8>, want: usize) -> (q:
    Pending)
    requires
        pending_ok(reader, p),
        want > 0,
    ensures
        read_spec(reader, pending_wire(reader, p) + rest, want) matches Ok(v) && v.status
            != ReadStatus::NeedInput && (v.status == ReadStatus::End <==> reader
            == BodyReader::Chunked(ChunkPhase::Done)) && carries_on(
            reader,
            p,
            v.reader,
            q,
            v.consumed,
            v.data,
            rest,
        ),
{
    let stream = pending_wire(reader, p) + rest;
    let none = Seq::<u8>::empty();
    match reader {
        BodyReader::Chunked(ChunkPhase::Size) => lemma_step_size(p, rest, want),
        BodyReader::Chunked(ChunkPhase::Data(n)) => lemma_step_data(n, p, rest, want),
        BodyReader::Chunked(ChunkPhase::DataEnd) => {
            let tail = encode_chunks(p.chunks) + rest;
            assert(stream =~= crlf() + tail);
            lemma_read_data_end(tail, want);
            assert(p.data + joined(p.chunks) =~= none + (p.data + joined(p.chunks)));
            p
        },
        BodyReader::Chunked(ChunkPhase::Trailer) => {
            lemma_read_blank(rest, want);
            assert(rest =~= none + rest);
            assert(p.data + joined(p.chunks) =~= none + (p.data + joined(p.chunks)));
            p
        },
        _ => {
            assert(stream.skip(0) =~= stream);
            assert(p.data + joined(p.chunks) =~= none + (p.data + joined(p.chunks)));
            p
        },
    }
}

/// Any run of calls of `read` on the wire of a chunked body, whatever
/// lengths it asks for: it yields the front of the body, byte for byte, and
/// uses the wire of what it yielded and passed, nothing beyond. The result
/// is what is pending after the run; once the reader is done that is
/// nothing, so that the run has yielded the whole body and used the whole
/// wire.
pub proof fn law_chunked_reads(reader: BodyReader, p: Pending, rest: Seq<u8>, wants: Seq<usize>) -> (q:
    Pending)
    requires
        pending_ok(reader, p),
        forall|i: int| 0 <= i < wants.len() ==> #[trigger] wants[i] > 0,
    ensures
        reads(reader, pending_wire(reader, p) + rest, wants) matches Some(run) && carries_on(
            reader,
            p,
            run.1,
            q,
            run.2,
            run.0,
            rest,
        ),
        reads(reader, pending_wire(reader, p) + rest, wants) matches Some(run) && (run.1
            == BodyReader::Chunked(ChunkPhase::Done) ==> run.0 == pending_body(p) && run.2
            == pending_wire(reader, p).len()),
    decreases wants.len(),
{
    let stream = pending_wire(reader, p) + rest;
    let none = Seq::<u8>::empty();
    if wants.len() == 0 {
        assert(stream.skip(0) =~= stream);
        assert(pending_body(p) =~= none + pending_body(p));
        if reader == BodyReader::Chunked(ChunkPhase::Done) {
            assert(joined(p.chunks) =~= none);
            assert(pending_body(p) =~= none);
        }
        p
    } else {
        let m = law_chunked_step(reader, p, rest, wants[0]);
        let v = read_spec(reader, stream, wants[0])->Ok_0;
        assert(wants.skip(1).len() < wants.len());
        let q = law_chunked_reads(v.reader, m, rest, wants.skip(1));
        let run = reads(v.reader, pending_wire(v.reader, m) + rest, wants.skip(1))->Some_0;
        assert(stream.skip(v.consumed) == pending_wire(v.reader, m) + rest);
        assert(stream.skip(v.consumed).skip(run.2) =~= stream.skip(v.consumed + run.2));
        assert(pending_body(p) =~= (v.data + run.0) + pending_body(q));
        if run.1 == BodyReader::Chunked(ChunkPhase::Done) {
            assert(joined(q.chunks) =~= none);
            assert(pending_body(q) =~= none);
            assert(pending_body(p) =~= v.data + run.0);
        }
        q
    }
}

/// The three calls that pass one chunk, before a run on what follows it.
proof fn lemma_round_trip_chunk(
    c: Seq<u8>,
    tail: Seq<u8>,
    wants: Seq<usize>,
    after: (Seq<u8>, BodyReader, int),
)
    requires
        wants.len() >= 3,
        0 < c.len() <= wants[0],
        c.len() <= wants[1],
        reads(BodyReader::Chunked(ChunkPhase::Size), tail, wants.skip(3)) == Some(after),
    ensures
        reads(BodyReader::Chunked(ChunkPhase::Size), encode_chunk(c) + tail, wants) == Some(
            (c + after.0, after.1, encode_chunk(c).len() + after.2),
        ),
{
    let stream = encode_chunk(c) + tail;
    let size = BodyReader::Chunked(ChunkPhase::Size);
    let w1 = wants.skip(1);
    let w2 = w1.skip(1);
    let w3 = w2.skip(1);
    let n = c.len();
    let digits = hex_digits(n);
    let s2 = crlf() + tail;
    let s1 = c + s2;
    let data = BodyReader::Chunked(ChunkPhase::Data(n as u64));
    let data_end = BodyReader::Chunked(ChunkPhase::DataEnd);
    assert(w1[0] == wants[1]);
    assert(w3 =~= wants.skip(3));
    lemma_hex_digits(n);
    assert(stream =~= digits + crlf() + s1);
    lemma_read_size(digits, s1, wants[0]);
    lemma_read_data(c, s2, w1[0]);
    lemma_read_data_end(tail, w2[0]);
    let v1 = pass(data, digits.len() as int + 2);
    let v2 = ReadView { reader: data_end, consumed: n as int, data: c, status: ReadStatus::Progress };
    let v3 = pass(size, 2);
    lemma_reads_step(data_end, s2, w2, v3);
    lemma_reads_step(data, s1, w1, v2);
    lemma_reads_step(size, stream, wants, v1);
    let e = Seq::<u8>::empty();
    assert(e + (c + (e + after.0)) =~= c + after.0);
}

/// Decoding undoes encoding: a chunked reader that is given an encoded body,
/// followed by whatever else the stream holds, and is asked each time for
/// at least a whole chunk, yields the chunks' data in order, uses exactly
/// the encoded body and ends; for no chunk, for one and for more. Three
/// calls pass each chunk, two the terminal chunk and the blank line.
pub proof fn law_chunked_round_trip(chunks: Seq<Seq<u8>>, rest: Seq<u8>, wants: Seq<usize>)
    requires
        wants.len() == 3 * chunks.len() + 2,
        forall|i: int| 0 <= i < chunks.len() ==> (#[trigger] chunks[i]).len() > 0,
        forall|i: int, j: int|
            0 <= i < chunks.len() && 0 <= j < wants.len() ==> (#[trigger] chunks[i]).len()
                <= #[trigger] wants[j],
    ensures
        reads(BodyReader::Chunked(ChunkPhase::Size), encode_chunks(chunks) + rest, wants) == Some(
            (joined(chunks), BodyReader::Chunked(ChunkPhase::Done), encode_chunks(chunks).len() as int),
        ),
    decreases chunks.len(),
{
    if chunks.len() == 0 {
        assert(chunks =~= Seq::<Seq<u8>>::empty());
        lemma_round_trip_end(rest, wants);
    } else {
        let c = chunks[0];
        let cs = chunks.skip(1);
        let w3 = wants.skip(3);
        assert forall|i: int, j: int| 0 <= i < cs.len() && 0 <= j < w3.len() implies (
        #[trigger] cs[i]).len() <= #[trigger] w3[j] by {
            assert(cs[i] == chunks[i + 1]);
            assert(w3[j] == wants[j + 3]);
        }
        assert forall|i: int| 0 <= i < cs.len() implies (#[trigger] cs[i]).len() > 0 by {
            assert(cs[i] == chunks[i + 1]);
        }
        law_chunked_round_trip(cs, rest, w3);
        let done = BodyReader::Chunked(ChunkPhase::Done);
        let after = (joined(cs), done, encode_chunks(cs).len() as int);
        assert(c.len() <= wants[0]);
        assert(c.len() <= wants[1]);
        lemma_round_trip_chunk(c, encode_chunks(cs) + rest, wants, after);
        assert(encode_chunks(chunks) + rest =~= encode_chunk(c) + (encode_chunks(cs) + rest));
    }
}

} // verus!
