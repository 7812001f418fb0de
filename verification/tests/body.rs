use http_conn::body::{parse_chunk_size, BodyError, BodyReader, ChunkPhase, ReadStatus};

fn drain(reader: &mut BodyReader, stream: &[u8], want: usize) -> (Vec<u8>, usize) {
    let mut out = Vec::new();
    let mut used = 0;
    loop {
        let got = reader.read(&stream[used..], want).expect("sound framing");
        used += got.consumed;
        out.extend_from_slice(&got.data);
        match got.status {
            ReadStatus::Progress => {}
            ReadStatus::End | ReadStatus::NeedInput => return (out, used),
        }
    }
}

fn encode(chunks: &[&[u8]]) -> Vec<u8> {
    let mut out = Vec::new();
    for c in chunks {
        out.extend_from_slice(format!("{:x}\r\n", c.len()).as_bytes());
        out.extend_from_slice(c);
        out.extend_from_slice(b"\r\n");
    }
    out.extend_from_slice(b"0\r\n\r\n");
    out
}

#[test]
fn empty_reader_yields_nothing() {
    let mut r = BodyReader::Empty;
    let got = r.read(b"GET / HTTP/1.1\r\n", 10).unwrap();
    assert_eq!(got.consumed, 0);
    assert!(got.data.is_empty());
    assert_eq!(got.status, ReadStatus::End);
    assert_eq!(r, BodyReader::Empty);
}

#[test]
fn fixed_reader_stops_at_its_length() {
    let stream = b"asdfasdfasfGET /next HTTP/1.1\r\n\r\n";
    for want in 1..20 {
        let mut r = BodyReader::Fixed(11);
        let (body, used) = drain(&mut r, stream, want);
        assert_eq!(body, b"asdfasdfasf".to_vec());
        assert_eq!(used, 11);
        assert_eq!(r, BodyReader::Fixed(0));
        let again = r.read(&stream[used..], want).unwrap();
        assert_eq!(again.status, ReadStatus::End);
        assert_eq!(again.consumed, 0);
        assert!(again.data.is_empty());
    }
}

#[test]
fn fixed_reader_read_by_read() {
    let mut r = BodyReader::Fixed(5);
    let got = r.read(b"hello world", 3).unwrap();
    assert_eq!((got.consumed, got.data, got.status), (3, b"hel".to_vec(), ReadStatus::Progress));
    assert_eq!(r, BodyReader::Fixed(2));
    let got = r.read(b"", 3).unwrap();
    assert_eq!((got.consumed, got.data, got.status), (0, vec![], ReadStatus::NeedInput));
    assert_eq!(r, BodyReader::Fixed(2));
    let got = r.read(b"lo world", 3).unwrap();
    assert_eq!((got.consumed, got.data, got.status), (2, b"lo".to_vec(), ReadStatus::Progress));
    assert_eq!(r, BodyReader::Fixed(0));
}

#[test]
fn fixed_reader_waits_for_a_short_stream() {
    let mut r = BodyReader::Fixed(10);
    let (body, used) = drain(&mut r, b"abc", 8);
    assert_eq!(body, b"abc".to_vec());
    assert_eq!(used, 3);
    assert_eq!(r, BodyReader::Fixed(7));
}

#[test]
fn chunked_round_trip() {
    let cases: Vec<Vec<&[u8]>> = vec![
        vec![],
        vec![b"hello"],
        vec![b"hello", b" ", b"world, this is a longer chunk of data"],
        vec![b"0123456789abcdefXYZ\r\n", b"\r\n0\r\n\r\n"],
    ];
    for chunks in cases {
        let mut wire = encode(&chunks);
        let wire_len = wire.len();
        wire.extend_from_slice(b"GET /next HTTP/1.1\r\n\r\n");
        let body: Vec<u8> = chunks.concat();
        for want in [1, 2, 7, 4096] {
            let mut r = BodyReader::Chunked(ChunkPhase::Size);
            let (got, used) = drain(&mut r, &wire, want);
            assert_eq!(got, body);
            assert_eq!(used, wire_len);
            assert_eq!(r, BodyReader::Chunked(ChunkPhase::Done));
        }
    }
}

#[test]
fn chunked_move_by_move() {
    let mut r = BodyReader::Chunked(ChunkPhase::Size);
    let wire = b"1A;name=value\r\nabcdefghijklmnopqrstuvwxyz\r\n0\r\nTrailer: x\r\n\r\nrest";
    let got = r.read(wire, 100).unwrap();
    assert_eq!((got.consumed, got.data.len()), (15, 0));
    assert_eq!(r, BodyReader::Chunked(ChunkPhase::Data(26)));
    let got = r.read(&wire[15..], 20).unwrap();
    assert_eq!((got.consumed, got.data), (20, b"abcdefghijklmnopqrst".to_vec()));
    assert_eq!(r, BodyReader::Chunked(ChunkPhase::Data(6)));
    let got = r.read(&wire[35..], 20).unwrap();
    assert_eq!((got.consumed, got.data), (6, b"uvwxyz".to_vec()));
    assert_eq!(r, BodyReader::Chunked(ChunkPhase::DataEnd));
    let got = r.read(&wire[41..], 20).unwrap();
    assert_eq!((got.consumed, got.data.len()), (2, 0));
    assert_eq!(r, BodyReader::Chunked(ChunkPhase::Size));
    let got = r.read(&wire[43..], 20).unwrap();
    assert_eq!(got.consumed, 3);
    assert_eq!(r, BodyReader::Chunked(ChunkPhase::Trailer));
    let got = r.read(&wire[46..], 20).unwrap();
    assert_eq!(got.consumed, 12);
    assert_eq!(r, BodyReader::Chunked(ChunkPhase::Trailer));
    let got = r.read(&wire[58..], 20).unwrap();
    assert_eq!((got.consumed, got.status), (2, ReadStatus::Progress));
    assert_eq!(r, BodyReader::Chunked(ChunkPhase::Done));
    let got = r.read(&wire[60..], 20).unwrap();
    assert_eq!((got.consumed, got.status), (0, ReadStatus::End));
    assert_eq!(&wire[60..], b"rest");
}

#[test]
fn chunked_waits_for_whole_framing() {
    let mut r = BodyReader::Chunked(ChunkPhase::Size);
    let got = r.read(b"1f", 10).unwrap();
    assert_eq!((got.consumed, got.status), (0, ReadStatus::NeedInput));
    let got = r.read(b"1f\r", 10).unwrap();
    assert_eq!((got.consumed, got.status), (0, ReadStatus::NeedInput));
    assert_eq!(r, BodyReader::Chunked(ChunkPhase::Size));

    let mut r = BodyReader::Chunked(ChunkPhase::DataEnd);
    assert_eq!(r.read(b"", 10).unwrap().status, ReadStatus::NeedInput);
    assert_eq!(r.read(b"\r", 10).unwrap().status, ReadStatus::NeedInput);
    assert_eq!(r, BodyReader::Chunked(ChunkPhase::DataEnd));

    let mut r = BodyReader::Chunked(ChunkPhase::Data(4));
    assert_eq!(r.read(b"", 10).unwrap().status, ReadStatus::NeedInput);
    assert_eq!(r, BodyReader::Chunked(ChunkPhase::Data(4)));
}

#[test]
fn broken_chunk_framing_is_an_error() {
    for line in [&b"xyz\r\n"[..], b"\r\n", b" 5\r\n", b"5 \r\n", b"11111111111111111\r\n"] {
        let mut r = BodyReader::Chunked(ChunkPhase::Size);
        assert_eq!(r.read(line, 10).err(), Some(BodyError::BadChunkSize));
        assert_eq!(r, BodyReader::Chunked(ChunkPhase::Size));
    }
    for tail in [&b"ab"[..], b"a", b"\rb", b"\n\r"] {
        let mut r = BodyReader::Chunked(ChunkPhase::DataEnd);
        assert_eq!(r.read(tail, 10).err(), Some(BodyError::BadChunkEnd));
        assert_eq!(r, BodyReader::Chunked(ChunkPhase::DataEnd));
    }
}

#[test]
fn chunk_size_lines() {
    assert_eq!(parse_chunk_size(b"0"), Some(0));
    assert_eq!(parse_chunk_size(b"a"), Some(10));
    assert_eq!(parse_chunk_size(b"1A"), Some(26));
    assert_eq!(parse_chunk_size(b"ff;ext=1"), Some(255));
    assert_eq!(parse_chunk_size(b"ffffffffffffffff"), Some(u64::MAX));
    assert_eq!(parse_chunk_size(b"0000000000000000001"), Some(1));
    assert_eq!(parse_chunk_size(b"10000000000000000"), None);
    assert_eq!(parse_chunk_size(b""), None);
    assert_eq!(parse_chunk_size(b";ext"), None);
    assert_eq!(parse_chunk_size(b"1g"), None);
}

#[test]
fn advance_reads_through_the_framing() {
    let wire = b"5\r\nhello\r\n0\r\n\r\nrest";
    let mut r = BodyReader::Chunked(ChunkPhase::Size);
    let got = r.advance(wire, 3).unwrap();
    assert_eq!((got.consumed, got.data, got.status), (6, b"hel".to_vec(), ReadStatus::Progress));
    assert_eq!(r, BodyReader::Chunked(ChunkPhase::Data(2)));
    let got = r.advance(&wire[6..], 3).unwrap();
    assert_eq!((got.consumed, got.data, got.status), (2, b"lo".to_vec(), ReadStatus::Progress));
    assert_eq!(r, BodyReader::Chunked(ChunkPhase::DataEnd));
    let got = r.advance(&wire[8..], 3).unwrap();
    assert_eq!((got.consumed, got.data, got.status), (7, vec![], ReadStatus::End));
    assert_eq!(r, BodyReader::Chunked(ChunkPhase::Done));
    assert_eq!(&wire[15..], b"rest");
    let got = r.advance(&wire[15..], 3).unwrap();
    assert_eq!((got.consumed, got.data, got.status), (0, vec![], ReadStatus::End));
}

#[test]
fn advance_stops_where_input_runs_out() {
    let mut r = BodyReader::Chunked(ChunkPhase::Size);
    let got = r.advance(b"5\r\nhe", 10).unwrap();
    assert_eq!((got.consumed, got.data, got.status), (5, b"he".to_vec(), ReadStatus::Progress));
    let got = r.advance(b"", 10).unwrap();
    assert_eq!((got.consumed, got.data, got.status), (0, vec![], ReadStatus::NeedInput));
    assert_eq!(r, BodyReader::Chunked(ChunkPhase::Data(3)));

    let mut r = BodyReader::Chunked(ChunkPhase::DataEnd);
    let got = r.advance(b"\r\n1", 10).unwrap();
    assert_eq!((got.consumed, got.data, got.status), (2, vec![], ReadStatus::NeedInput));
    assert_eq!(r, BodyReader::Chunked(ChunkPhase::Size));
}

#[test]
fn advance_fails_where_the_framing_breaks() {
    let wire = b"5\r\nhelloXX";
    let mut r = BodyReader::Chunked(ChunkPhase::Size);
    let got = r.advance(wire, 10).unwrap();
    assert_eq!((got.consumed, got.data), (8, b"hello".to_vec()));
    assert_eq!(r.advance(&wire[8..], 10).err(), Some(BodyError::BadChunkEnd));
    assert_eq!(r, BodyReader::Chunked(ChunkPhase::DataEnd));

    let mut r = BodyReader::Chunked(ChunkPhase::DataEnd);
    assert_eq!(r.advance(b"\r\nzz\r\n", 10).err(), Some(BodyError::BadChunkSize));
    assert_eq!(r, BodyReader::Chunked(ChunkPhase::Size));
}

#[test]
fn advance_on_plain_readers() {
    let mut r = BodyReader::Fixed(4);
    let got = r.advance(b"abcdef", 3).unwrap();
    assert_eq!((got.consumed, got.data, got.status), (3, b"abc".to_vec(), ReadStatus::Progress));
    let got = r.advance(b"def", 3).unwrap();
    assert_eq!((got.consumed, got.data, got.status), (1, b"d".to_vec(), ReadStatus::Progress));
    let got = r.advance(b"ef", 3).unwrap();
    assert_eq!((got.consumed, got.data, got.status), (0, vec![], ReadStatus::End));
    let mut r = BodyReader::Empty;
    assert_eq!(r.advance(b"ef", 3).unwrap().status, ReadStatus::End);
}
