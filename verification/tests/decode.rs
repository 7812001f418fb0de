use bytes::BytesMut;
use http_conn::body::{BodyReader, ChunkPhase};
use http_conn::conn::{handle_expect, keep_alive};
use http_conn::request::{
    assemble, bytes_eq, bytes_eq_ignore_case, decode, parse_length, Request, RequestError,
    Version, MAX_HEADERS,
};
use http_conn::scan::Head;

fn request_of(text: &[u8]) -> (Request, BytesMut) {
    let mut buf = BytesMut::from(text);
    let req = decode(&mut buf).expect("well-formed head").expect("complete head");
    (req, buf)
}

#[test]
fn post_with_content_length_gets_a_fixed_reader() {
    let (mut req, mut buf) =
        request_of(b"POST / HTTP/1.1\r\nContent-Length: 11\r\n\r\nasdfasdfasf");
    assert_eq!(req.method(), b"POST");
    assert_eq!(req.path(), b"/");
    assert_eq!(req.version(), Version::Http11);
    assert_eq!(*req.body(), BodyReader::Empty);
    assert_eq!(req.set_reader(), Ok(()));
    assert_eq!(*req.body(), BodyReader::Fixed(11));
    assert_eq!(&buf[..], b"asdfasdfasf");

    let mut reader = *req.body();
    let got = reader.read(&buf[..], 64).unwrap();
    assert_eq!(got.data, b"asdfasdfasf".to_vec());
    assert_eq!(got.consumed, 11);
    let _ = buf.split_to(got.consumed);
    assert_eq!(reader, BodyReader::Fixed(0));
}

#[test]
fn get_has_no_body_whatever_the_headers_say() {
    let (mut req, buf) = request_of(b"GET /x HTTP/1.0\r\n\r\n");
    assert_eq!(req.method(), b"GET");
    assert_eq!(req.path(), b"/x");
    assert_eq!(req.version(), Version::Http10);
    assert_eq!(req.set_reader(), Ok(()));
    assert_eq!(*req.body(), BodyReader::Empty);
    assert!(buf.is_empty());

    let (mut req, _) = request_of(b"GET /x HTTP/1.0\r\nContent-Length: 5\r\n\r\nhello");
    assert_eq!(req.set_reader(), Ok(()));
    assert_eq!(*req.body(), BodyReader::Empty);

    let (mut req, _) = request_of(b"HEAD /x HTTP/1.1\r\nTransfer-Encoding: chunked\r\n\r\n");
    assert_eq!(req.set_reader(), Ok(()));
    assert_eq!(*req.body(), BodyReader::Empty);
}

#[test]
fn content_length_with_chunked_is_refused() {
    let (mut req, _) = request_of(
        b"POST /u HTTP/1.1\r\nContent-Length: 3\r\nTransfer-Encoding: chunked\r\n\r\n",
    );
    assert_eq!(req.set_reader(), Err(RequestError::AmbiguousFraming));
    assert_eq!(*req.body(), BodyReader::Empty);
}

#[test]
fn chunked_alone_gets_a_chunked_reader() {
    let (mut req, _) = request_of(b"PUT /u HTTP/1.1\r\ntransfer-encoding: Chunked\r\n\r\n");
    assert_eq!(req.set_reader(), Ok(()));
    assert_eq!(*req.body(), BodyReader::Chunked(ChunkPhase::Size));
}

#[test]
fn no_length_header_means_no_body() {
    let (mut req, _) = request_of(b"POST /u HTTP/1.1\r\nHost: a\r\n\r\n");
    assert_eq!(req.set_reader(), Ok(()));
    assert_eq!(*req.body(), BodyReader::Empty);
}

#[test]
fn unreadable_content_length_is_refused() {
    for value in ["abc", "", "-1", "12x", "+5", "18446744073709551616"] {
        let text = format!("POST / HTTP/1.1\r\nContent-Length: {}\r\n\r\n", value);
        let (mut req, _) = request_of(text.as_bytes());
        assert_eq!(req.set_reader(), Err(RequestError::BadContentLength));
    }
}

#[test]
fn missing_blank_line_is_incomplete() {
    let mut buf = BytesMut::from(&b"GET / HTTP/1.1\r\nHost: example\r\n"[..]);
    assert!(matches!(decode(&mut buf), Ok(None)));
    assert_eq!(&buf[..], b"GET / HTTP/1.1\r\nHost: example\r\n");
    buf.extend_from_slice(b"\r\n");
    let req = decode(&mut buf).unwrap().unwrap();
    assert_eq!(req.path(), b"/");
    assert!(buf.is_empty());
}

#[test]
fn decode_does_not_depend_on_how_the_bytes_arrive() {
    let whole: &[u8] = b"POST /a/b?c=d HTTP/1.1\r\nHost: h\r\nX-One: 1\r\nx-one: 2\r\n\r\n";
    let (full, _) = request_of(whole);
    for cut in 0..whole.len() {
        let mut buf = BytesMut::from(&whole[..cut]);
        assert!(matches!(decode(&mut buf), Ok(None)), "cut at {}", cut);
        assert_eq!(&buf[..], &whole[..cut]);
        buf.extend_from_slice(&whole[cut..]);
        let req = decode(&mut buf).unwrap().unwrap();
        assert_eq!(req.method(), full.method());
        assert_eq!(req.path(), full.path());
        assert_eq!(req.version(), full.version());
        let mut a = req.headers();
        let mut b = full.headers();
        loop {
            let (x, y) = (a.next(), b.next());
            assert_eq!(x, y);
            if x.is_none() {
                break;
            }
        }
    }
}

#[test]
fn decode_takes_the_head_and_leaves_the_rest() {
    let mut buf = BytesMut::from(&b"GET /1 HTTP/1.1\r\n\r\nGET /2 HTTP/1.1\r\n\r\n"[..]);
    let first = decode(&mut buf).unwrap().unwrap();
    assert_eq!(first.path(), b"/1");
    assert_eq!(&buf[..], b"GET /2 HTTP/1.1\r\n\r\n");
    let second = decode(&mut buf).unwrap().unwrap();
    assert_eq!(second.path(), b"/2");
    assert!(buf.is_empty());
    assert!(matches!(decode(&mut buf), Ok(None)));
}

#[test]
fn malformed_head_is_an_error() {
    let mut buf = BytesMut::from(&b"GET / HTTP/3.0\r\n\r\n"[..]);
    assert_eq!(decode(&mut buf).err(), Some(RequestError::Malformed(httparse::Error::Version)));
    assert_eq!(&buf[..], b"GET / HTTP/3.0\r\n\r\n");

    let mut buf = BytesMut::from(&b"GET / HTTP/1.1\r\nBad Header: x\r\n\r\n"[..]);
    assert_eq!(
        decode(&mut buf).err(),
        Some(RequestError::Malformed(httparse::Error::HeaderName))
    );
}

#[test]
fn header_count_is_capped() {
    assert_eq!(MAX_HEADERS, 64);
    let mut text = String::from("GET / HTTP/1.1\r\n");
    for i in 0..64 {
        text.push_str(&format!("X-{}: v\r\n", i));
    }
    let mut at_cap = BytesMut::from(format!("{}\r\n", text).as_bytes());
    let req = decode(&mut at_cap).unwrap().unwrap();
    let mut headers = req.headers();
    let mut count = 0;
    while headers.next().is_some() {
        count += 1;
    }
    assert_eq!(count, 64);

    text.push_str("X-64: v\r\n\r\n");
    let mut over = BytesMut::from(text.as_bytes());
    assert_eq!(
        decode(&mut over).err(),
        Some(RequestError::Malformed(httparse::Error::TooManyHeaders))
    );
}

#[test]
fn lookup_ignores_case_and_takes_the_first() {
    let (req, _) = request_of(
        b"GET / HTTP/1.1\r\nAccept: a\r\nX-Dup: first\r\nx-dup: second\r\nEmpty:\r\n\r\n",
    );
    let headers = req.headers();
    assert_eq!(headers.get(b"x-dup"), Some(&b"first"[..]));
    assert_eq!(headers.get(b"X-DUP"), Some(&b"first"[..]));
    assert_eq!(headers.get(b"accept"), Some(&b"a"[..]));
    assert_eq!(headers.get(b"empty"), Some(&b""[..]));
    assert_eq!(headers.get(b"x-du"), None);
    assert_eq!(headers.get(b"missing"), None);
    assert!(headers.contains_key(b"ACCEPT"));
    assert!(!headers.contains_key(b"accepts"));
}

#[test]
fn iteration_keeps_order_and_duplicates() {
    let (req, _) = request_of(b"GET / HTTP/1.1\r\nB: 1\r\nA: 2\r\nb: 3\r\n\r\n");
    let mut headers = req.headers();
    assert_eq!(headers.next(), Some((&b"B"[..], &b"1"[..])));
    assert_eq!(headers.next(), Some((&b"A"[..], &b"2"[..])));
    assert_eq!(headers.next(), Some((&b"b"[..], &b"3"[..])));
    assert_eq!(headers.next(), None);
    assert_eq!(headers.next(), None);
    assert_eq!(headers.get(b"b"), Some(&b"1"[..]));
}

#[test]
fn continue_is_sent_only_for_http11_and_the_exact_token() {
    let (req, _) = request_of(b"POST / HTTP/1.1\r\nExpect: 100-continue\r\n\r\n");
    assert_eq!(handle_expect(&req), Some(b"HTTP/1.1 100 Continue\r\n\r\n".to_vec()));
    let (req, _) = request_of(b"POST / HTTP/1.1\r\nexpect: 100-continue\r\n\r\n");
    assert_eq!(handle_expect(&req), Some(b"HTTP/1.1 100 Continue\r\n\r\n".to_vec()));
    let (req, _) = request_of(b"POST / HTTP/1.0\r\nExpect: 100-continue\r\n\r\n");
    assert_eq!(handle_expect(&req), None);
    let (req, _) = request_of(b"POST / HTTP/1.1\r\nExpect: 100-Continue\r\n\r\n");
    assert_eq!(handle_expect(&req), None);
    let (req, _) = request_of(b"POST / HTTP/1.1\r\nExpect: something\r\n\r\n");
    assert_eq!(handle_expect(&req), None);
    let (req, _) = request_of(b"POST / HTTP/1.1\r\nHost: a\r\n\r\n");
    assert_eq!(handle_expect(&req), None);
}

#[test]
fn keep_alive_needs_http11_and_no_close() {
    let (req, _) = request_of(b"GET / HTTP/1.1\r\nHost: a\r\n\r\n");
    assert!(keep_alive(&req, false));
    assert!(!keep_alive(&req, true));
    let (req, _) = request_of(b"GET / HTTP/1.1\r\nConnection: Close\r\n\r\n");
    assert!(!keep_alive(&req, false));
    let (req, _) = request_of(b"GET / HTTP/1.1\r\nConnection: keep-alive\r\n\r\n");
    assert!(keep_alive(&req, false));
    let (req, _) = request_of(b"GET / HTTP/1.0\r\nConnection: keep-alive\r\n\r\n");
    assert!(!keep_alive(&req, false));
}

#[test]
fn content_length_values() {
    assert_eq!(parse_length(b"0"), Some(0));
    assert_eq!(parse_length(b"11"), Some(11));
    assert_eq!(parse_length(b"007"), Some(7));
    assert_eq!(parse_length(b"18446744073709551615"), Some(u64::MAX));
    assert_eq!(parse_length(b"18446744073709551616"), None);
    assert_eq!(parse_length(b"99999999999999999999999"), None);
    assert_eq!(parse_length(b""), None);
    assert_eq!(parse_length(b" 1"), None);
    assert_eq!(parse_length(b"1a"), None);
}

#[test]
fn byte_string_comparisons() {
    assert!(bytes_eq(b"abc", b"abc"));
    assert!(!bytes_eq(b"abc", b"abC"));
    assert!(!bytes_eq(b"abc", b"ab"));
    assert!(bytes_eq_ignore_case(b"Content-Length", b"content-length"));
    assert!(bytes_eq_ignore_case(b"", b""));
    assert!(!bytes_eq_ignore_case(b"a[", b"a{"));
    assert!(!bytes_eq_ignore_case(b"@", b"`"));
    assert!(!bytes_eq_ignore_case(b"ab", b"abc"));
}

#[test]
fn assemble_turns_offsets_into_ranges() {
    let mut buf = BytesMut::from(&b"PUT /p HTTP/1.1\r\nK: v\r\n\r\nbody"[..]);
    let head = Head {
        method: (0, 3),
        path: (4, 2),
        version: 1,
        headers: vec![((17, 1), (20, 1))],
        consumed: 25,
    };
    let req = assemble(head, &mut buf);
    assert_eq!(req.method(), b"PUT");
    assert_eq!(req.path(), b"/p");
    assert_eq!(req.version(), Version::Http11);
    assert_eq!(req.headers().next(), Some((&b"K"[..], &b"v"[..])));
    assert_eq!(*req.body(), BodyReader::Empty);
    assert_eq!(&buf[..], b"body");
}

#[test]
fn description_names_method_and_path() {
    let (req, _) = request_of(b"DELETE /a/b HTTP/1.1\r\n\r\n");
    assert_eq!(req.describe(), b"<HTTP Request DELETE /a/b>".to_vec());
}
