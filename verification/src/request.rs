//! The decoded request: method, path, version and headers as byte ranges
//! into the bytes of the request head, which the request owns.

use vstd::prelude::*;
use vstd::slice::slice_subrange;
use bytes::BytesMut;
use crate::body::{BodyReader, ChunkPhase};
use crate::buffer::{buffer_as_slice, buffer_bytes, buffer_split_to};
use crate::names;
use crate::scan::{
    head_sound, scan_head, scanned_head, span_within, Head, HeadView, ScanView, Scanned, Span,
};

verus! {

/// The most header lines that a request may carry.
pub const MAX_HEADERS: usize = 64;

/// Start and end offset of a token in the request's bytes.
pub type Slice = (usize, usize);

/// The protocol version of a request.
#[derive(Clone, Copy, Debug, PartialEq, Eq, Structural)]
pub enum Version {
    Http10,
    Http11,
}

/// Why a request was refused.
#[derive(Debug, PartialEq, Eq)]
pub enum RequestError {
    /// The tokenizer rejected the request line or a header line, or found
    /// more header lines than allowed.
    Malformed(httparse::Error),
    /// The Content-Length value is not a decimal number that fits in 64 bits.
    BadContentLength,
    /// Both Content-Length and chunked Transfer-Encoding are declared.
    AmbiguousFraming,
}

/// An ASCII letter in lower case; any other byte as it is.
pub open spec fn lower(b: u8) -> u8 {
    if 65 <= b <= 90 {
        (b + 32) as u8
    } else {
        b
    }
}

/// Equality of two byte strings up to the case of ASCII letters.
pub open spec fn eq_ignore_case(a: Seq<u8>, b: Seq<u8>) -> bool {
    &&& a.len() == b.len()
    &&& forall|i: int| 0 <= i < a.len() ==> lower(#[trigger] a[i]) == lower(b[i])
}

/// The value of the first header whose name is `key` up to case.
pub open spec fn lookup(headers: Seq<(Seq<u8>, Seq<u8>)>, key: Seq<u8>) -> Option<Seq<u8>>
    decreases headers.len(),
{
    if headers.len() == 0 {
        None
    } else if eq_ignore_case(headers[0].0, key) {
        Some(headers[0].1)
    } else {
        lookup(headers.skip(1), key)
    }
}

/// Offset and length as start and end.
pub open spec fn to_range(s: Span) -> Slice {
    (s.0, (s.0 + s.1) as usize)
}

/// The range lies inside `len` bytes.
pub open spec fn range_ok(r: Slice, len: int) -> bool {
    r.0 <= r.1 <= len
}

/// The bytes of `data` that the range covers.
pub open spec fn cut(data: Seq<u8>, r: Slice) -> Seq<u8> {
    data.subrange(r.0 as int, r.1 as int)
}

/// The version that a minor version number stands for.
pub open spec fn version_of(minor: u8) -> Version {
    if minor == 0 {
        Version::Http10
    } else {
        Version::Http11
    }
}

fn byte_lower(b: u8) -> (r: u8)
    ensures
        r == lower(b),
{
    if 65 <= b && b <= 90 {
        b + 32
    } else {
        b
    }
}

/// Compares two byte strings up to the case of ASCII letters.
pub fn bytes_eq_ignore_case(a: &[u8], b: &[u8]) -> (r: bool)
    ensures
        r == eq_ignore_case(a@, b@),
{
    if a.len() != b.len() {
        return false;
    }
    let mut i: usize = 0;
    while i < a.len()
        invariant
            a@.len() == b@.len(),
            i <= a@.len(),
            forall|j: int| 0 <= j < i ==> lower(#[trigger] a@[j]) == lower(b@[j]),
        decreases a@.len() - i,
    {
        if byte_lower(a[i]) != byte_lower(b[i]) {
            return false;
        }
        i += 1;
    }
    true
}

/// Compares two byte strings byte for byte.
pub fn bytes_eq(a: &[u8], b: &[u8]) -> (r: bool)
    ensures
        r == (a@ == b@),
{
    if a.len() != b.len() {
        return false;
    }
    let mut i: usize = 0;
    while i < a.len()
        invariant
            a@.len() == b@.len(),
            i <= a@.len(),
            forall|j: int| 0 <= j < i ==> a@[j] == b@[j],
        decreases a@.len() - i,
    {
        if a[i] != b[i] {
            return false;
        }
        i += 1;
    }
    proof {
        assert(a@ =~= b@);
    }
    true
}

/// A decimal digit.
pub open spec fn is_digit(b: u8) -> bool {
    48 <= b <= 57
}

/// Decimal digits only.
pub open spec fn all_digits(s: Seq<u8>) -> bool {
    forall|i: int| 0 <= i < s.len() ==> is_digit(#[trigger] s[i])
}

/// The number that a string of decimal digits writes.
pub open spec fn digits_value(s: Seq<u8>) -> nat
    decreases s.len(),
{
    if s.len() == 0 {
        0
    } else {
        (digits_value(s.drop_last()) * 10 + (s.last() - 48)) as nat
    }
}

/// The length that a Content-Length value declares: one or more decimal
/// digits and nothing else, the number within 64 bits.
pub open spec fn declared_length(s: Seq<u8>) -> Option<u64> {
    if s.len() > 0 && all_digits(s) && digits_value(s) <= u64::MAX {
        Some(digits_value(s) as u64)
    } else {
        None
    }
}

proof fn lemma_prefix_value(s: Seq<u8>, k: int)
    requires
        all_digits(s),
        0 <= k <= s.len(),
    ensures
        digits_value(s.take(k)) <= digits_value(s),
    decreases s.len(),
{
    if k == s.len() {
        assert(s.take(k) =~= s);
    } else {
        lemma_prefix_value(s.drop_last(), k);
        assert(s.drop_last().take(k) =~= s.take(k));
    }
}

/// Reads a Content-Length value.
pub fn parse_length(s: &[u8]) -> (r: Option<u64>)
    ensures
        r == declared_length(s@),
{
    if s.len() == 0 {
        return None;
    }
    let mut acc: u64 = 0;
    let mut i: usize = 0;
    while i < s.len()
        invariant
            i <= s@.len(),
            all_digits(s@.take(i as int)),
            acc == digits_value(s@.take(i as int)),
        decreases s@.len() - i,
    {
        let b = s[i];
        if b < 48 || b > 57 {
            return None;
        }
        let d: u64 = (b - 48) as u64;
        proof {
            assert(s@.take(i + 1).drop_last() =~= s@.take(i as int));
            assert(s@.take(i + 1).last() == b);
            if all_digits(s@) {
                lemma_prefix_value(s@, i + 1);
            }
        }
        if acc > 1844674407370955161 || acc * 10 > u64::MAX - d {
            return None;
        }
        acc = acc * 10 + d;
        i += 1;
    }
    proof {
        assert(s@.take(i as int) =~= s@);
    }
    Some(acc)
}

/// The first Transfer-Encoding header names the coding `chunked`, in any
/// case.
pub open spec fn is_chunked(headers: Seq<(Seq<u8>, Seq<u8>)>) -> bool {
    match lookup(headers, names::transfer_encoding_bytes()) {
        Some(v) => eq_ignore_case(v, names::chunked_bytes()),
        None => false,
    }
}

/// The body reader that a request with this method and these headers gets.
///
/// GET and HEAD have no body, whatever the headers say. Otherwise chunked
/// Transfer-Encoding gives a chunked reader, a Content-Length a reader of
/// that many bytes; both together are refused, as is a Content-Length that
/// declares no length. With neither there is no body.
pub open spec fn select_reader(method: Seq<u8>, headers: Seq<(Seq<u8>, Seq<u8>)>) -> Result<
    BodyReader,
    RequestError,
> {
    let length = lookup(headers, names::content_length_bytes());
    if method == names::get_bytes() || method == names::head_bytes() {
        Ok(BodyReader::Empty)
    } else if is_chunked(headers) {
        if length.is_some() {
            Err(RequestError::AmbiguousFraming)
        } else {
            Ok(BodyReader::Chunked(ChunkPhase::Size))
        }
    } else {
        match length {
            Some(v) => match declared_length(v) {
                Some(n) => Ok(BodyReader::Fixed(n)),
                None => Err(RequestError::BadContentLength),
            },
            None => Ok(BodyReader::Empty),
        }
    }
}

/// `i` is the first position of `headers` whose name is `key` up to case.
pub open spec fn is_first_match(headers: Seq<(Seq<u8>, Seq<u8>)>, key: Seq<u8>, i: int) -> bool {
    &&& 0 <= i < headers.len()
    &&& eq_ignore_case(headers[i].0, key)
    &&& forall|j: int| 0 <= j < i ==> !eq_ignore_case(#[trigger] headers[j].0, key)
}

/// Lookup gives the value of the first header whose name matches up to
/// case, duplicates after it notwithstanding, and nothing exactly where no
/// name matches.
pub proof fn law_lookup_first_match(headers: Seq<(Seq<u8>, Seq<u8>)>, key: Seq<u8>)
    ensures
        match lookup(headers, key) {
            Some(v) => exists|i: int| is_first_match(headers, key, i) && v == headers[i].1,
            None => forall|j: int|
                0 <= j < headers.len() ==> !eq_ignore_case(#[trigger] headers[j].0, key),
        },
    decreases headers.len(),
{
    if headers.len() == 0 {
    } else if eq_ignore_case(headers[0].0, key) {
        assert(is_first_match(headers, key, 0));
    } else {
        let rest = headers.skip(1);
        law_lookup_first_match(rest, key);
        match lookup(rest, key) {
            Some(v) => {
                let i = choose|i: int| is_first_match(rest, key, i) && v == rest[i].1;
                assert forall|j: int| 0 <= j < i + 1 implies !eq_ignore_case(
                    #[trigger] headers[j].0,
                    key,
                ) by {
                    if j > 0 {
                        assert(headers[j] == rest[j - 1]);
                    }
                }
                assert(headers[i + 1] == rest[i]);
                assert(is_first_match(headers, key, i + 1));
            },
            None => {
                assert forall|j: int| 0 <= j < headers.len() implies !eq_ignore_case(
                    #[trigger] headers[j].0,
                    key,
                ) by {
                    if j > 0 {
                        assert(headers[j] == rest[j - 1]);
                    }
                }
            },
        }
    }
}

/// Comparison up to case does not depend on the case of the key.
pub proof fn law_lookup_ignores_case(headers: Seq<(Seq<u8>, Seq<u8>)>, a: Seq<u8>, b: Seq<u8>)
    requires
        eq_ignore_case(a, b),
    ensures
        lookup(headers, a) == lookup(headers, b),
    decreases headers.len(),
{
    if headers.len() > 0 {
        let name = headers[0].0;
        if name.len() == a.len() {
            assert forall|i: int| 0 <= i < name.len() implies (lower(#[trigger] name[i]) == lower(a[i]))
                == (lower(name[i]) == lower(b[i])) by {
                assert(lower(a[i]) == lower(b[i]));
            }
        }
        assert(eq_ignore_case(name, a) == eq_ignore_case(name, b));
        law_lookup_ignores_case(headers.skip(1), a, b);
    }
}

/// A decoded request: a read-only view of the bytes of its head.
pub struct Request {
    method: Slice,
    path: Slice,
    version: u8,
    headers: Vec<(Slice, Slice)>,
    data: BytesMut,
    body: BodyReader,
}

impl Request {
    /// Every range lies inside the request's bytes.
    pub closed spec fn wf(&self) -> bool {
        let n = buffer_bytes(self.data).len() as int;
        &&& range_ok(self.method, n)
        &&& range_ok(self.path, n)
        &&& self.version <= 1
        &&& forall|i: int|
            0 <= i < self.headers@.len() ==> range_ok(#[trigger] self.headers@[i].0, n) && range_ok(
                self.headers@[i].1,
                n,
            )
    }

    /// The bytes of the request head.
    pub closed spec fn data(&self) -> Seq<u8> {
        buffer_bytes(self.data)
    }

    /// Where the method stands in the request's bytes.
    pub closed spec fn method_range(&self) -> Slice {
        self.method
    }

    /// Where the path stands in the request's bytes.
    pub closed spec fn path_range(&self) -> Slice {
        self.path
    }

    /// Where each header's name and value stand, in arrival order.
    pub closed spec fn header_ranges(&self) -> Seq<(Slice, Slice)> {
        self.headers@
    }

    /// The request's version.
    pub closed spec fn version_spec(&self) -> Version {
        version_of(self.version)
    }

    /// The request's body reader.
    pub closed spec fn body_spec(&self) -> BodyReader {
        self.body
    }

    /// The method token.
    pub open spec fn method_bytes(&self) -> Seq<u8> {
        cut(self.data(), self.method_range())
    }

    /// The request target.
    pub open spec fn path_bytes(&self) -> Seq<u8> {
        cut(self.data(), self.path_range())
    }

    /// Name and value of each header, in arrival order.
    pub open spec fn header_list(&self) -> Seq<(Seq<u8>, Seq<u8>)> {
        Seq::new(
            self.header_ranges().len(),
            |i: int| (cut(self.data(), self.header_ranges()[i].0), cut(self.data(), self.header_ranges()[i].1)),
        )
    }

    fn slice(&self, slice: &Slice) -> (s: &[u8])
        requires
            range_ok(*slice, self.data().len() as int),
        ensures
            s@ == cut(self.data(), *slice),
    {
        slice_subrange(buffer_as_slice(&self.data), slice.0, slice.1)
    }

    /// Chooses the body reader that the method and the headers call for.
    ///
    /// On an error the request keeps the reader it had.
    pub fn set_reader(&mut self) -> (r: Result<(), RequestError>)
        requires
            old(self).wf(),
        ensures
            final(self).wf(),
            final(self).data() == old(self).data(),
            final(self).method_range() == old(self).method_range(),
            final(self).path_range() == old(self).path_range(),
            final(self).version_spec() == old(self).version_spec(),
            final(self).header_ranges() == old(self).header_ranges(),
            match select_reader(old(self).method_bytes(), old(self).header_list()) {
                Ok(b) => r.is_ok() && final(self).body_spec() == b,
                Err(e) => r == Err::<(), RequestError>(e) && final(self).body_spec() == old(self).body_spec(),
            },
    {
        let method = self.method();
        let bodyless = bytes_eq(method, names::get().as_slice()) || bytes_eq(
            method,
            names::head().as_slice(),
        );
        let length = self.headers().get(names::content_length().as_slice());
        let coding = self.headers().get(names::transfer_encoding().as_slice());
        let chunked = match coding {
            Some(v) => bytes_eq_ignore_case(v, names::chunked().as_slice()),
            None => false,
        };
        let reader = if bodyless {
            BodyReader::Empty
        } else if chunked {
            if length.is_some() {
                return Err(RequestError::AmbiguousFraming);
            }
            BodyReader::Chunked(ChunkPhase::Size)
        } else {
            match length {
                Some(v) => match parse_length(v) {
                    Some(n) => BodyReader::Fixed(n),
                    None => {
                        return Err(RequestError::BadContentLength);
                    },
                },
                None => BodyReader::Empty,
            }
        };
        self.body = reader;
        Ok(())
    }

    /// The reader of this request's body.
    pub fn body(&self) -> (b: &BodyReader)
        ensures
            *b == self.body_spec(),
    {
        &self.body
    }

    /// The method token, as it stands in the request line.
    pub fn method(&self) -> (m: &[u8])
        requires
            self.wf(),
        ensures
            m@ == self.method_bytes(),
    {
        self.slice(&self.method)
    }

    /// The request target, raw.
    pub fn path(&self) -> (p: &[u8])
        requires
            self.wf(),
        ensures
            p@ == self.path_bytes(),
    {
        self.slice(&self.path)
    }

    /// The request's version.
    pub fn version(&self) -> (v: Version)
        ensures
            v == self.version_spec(),
    {
        if self.version == 0 {
            Version::Http10
        } else {
            Version::Http11
        }
    }

    /// `<HTTP Request `, the method, a space, the path and `>`.
    pub open spec fn description(&self) -> Seq<u8> {
        names::request_label_bytes() + self.method_bytes() + seq![32u8] + self.path_bytes() + seq![
            62u8,
        ]
    }

    /// A short description of the request for logs.
    pub fn describe(&self) -> (r: Vec<u8>)
        requires
            self.wf(),
        ensures
            r@ == self.description(),
    {
        let mut out = names::request_label();
        let method = self.method();
        let mut i: usize = 0;
        while i < method.len()
            invariant
                i <= method@.len(),
                out@ == names::request_label_bytes() + method@.take(i as int),
            decreases method@.len() - i,
        {
            out.push(method[i]);
            proof {
                assert(method@.take(i + 1) =~= method@.take(i as int).push(method@[i as int]));
                assert(out@ =~= names::request_label_bytes() + method@.take(i + 1));
            }
            i += 1;
        }
        out.push(32);
        let path = self.path();
        let ghost head = out@;
        let mut j: usize = 0;
        while j < path.len()
            invariant
                j <= path@.len(),
                out@ == head + path@.take(j as int),
            decreases path@.len() - j,
        {
            out.push(path[j]);
            proof {
                assert(path@.take(j + 1) =~= path@.take(j as int).push(path@[j as int]));
                assert(out@ =~= head + path@.take(j + 1));
            }
            j += 1;
        }
        out.push(62);
        proof {
            assert(method@.take(i as int) =~= method@);
            assert(path@.take(j as int) =~= path@);
            assert(out@ =~= self.description());
        }
        out
    }

    /// A cursor over the headers, at the first of them.
    pub fn headers(&self) -> (h: RequestHeaders<'_>)
        ensures
            h.request() == self,
            h.position() == 0,
    {
        RequestHeaders { pos: 0, req: self }
    }
}

/// The headers of a request: lookup by name, and a cursor that walks them in
/// arrival order.
pub struct RequestHeaders<'req> {
    pos: usize,
    req: &'req Request,
}

impl<'req> RequestHeaders<'req> {
    /// The request whose headers these are.
    pub closed spec fn request(&self) -> &'req Request {
        self.req
    }

    /// How many headers the cursor has passed.
    pub closed spec fn position(&self) -> int {
        self.pos as int
    }

    /// The value of the first header whose name is `key` up to the case of
    /// ASCII letters, or `None` where no header has that name.
    pub fn get(&self, key: &[u8]) -> (r: Option<&'req [u8]>)
        requires
            self.request().wf(),
        ensures
            r.is_some() == lookup(self.request().header_list(), key@).is_some(),
            r.is_some() ==> r.unwrap()@ == lookup(self.request().header_list(), key@).unwrap(),
    {
        let req = self.req;
        let ghost all = req.header_list();
        let mut i: usize = 0;
        proof {
            assert(all.skip(0) =~= all);
        }
        while i < req.headers.len()
            invariant
                req.wf(),
                req == self.request(),
                all == req.header_list(),
                i <= req.headers@.len(),
                lookup(all, key@) == lookup(all.skip(i as int), key@),
            decreases req.headers@.len() - i,
        {
            let name = req.slice(&req.headers[i].0);
            proof {
                assert(all.skip(i as int).len() > 0);
                assert(all.skip(i as int)[0] == all[i as int]);
                assert(all.skip(i as int).skip(1) =~= all.skip(i + 1));
                assert(name@ == all[i as int].0);
            }
            if bytes_eq_ignore_case(name, key) {
                return Some(req.slice(&req.headers[i].1));
            }
            i += 1;
        }
        proof {
            assert(all.skip(i as int).len() == 0);
        }
        None
    }

    /// Whether some header has the name `key`, up to case.
    pub fn contains_key(&self, key: &[u8]) -> (r: bool)
        requires
            self.request().wf(),
        ensures
            r == lookup(self.request().header_list(), key@).is_some(),
    {
        self.get(key).is_some()
    }

    /// The header at the cursor, which then moves on; `None` past the last.
    pub fn next(&mut self) -> (r: Option<(&'req [u8], &'req [u8])>)
        requires
            old(self).request().wf(),
        ensures
            final(self).request() == old(self).request(),
            old(self).position() < old(self).request().header_list().len() ==> r.is_some()
                && r.unwrap().0@ == old(self).request().header_list()[old(self).position()].0
                && r.unwrap().1@ == old(self).request().header_list()[old(self).position()].1
                && final(self).position() == old(self).position() + 1,
            old(self).position() >= old(self).request().header_list().len() ==> r.is_none()
                && final(self).position() == old(self).position(),
    {
        let req = self.req;
        if self.pos < req.headers.len() {
            let name = req.slice(&req.headers[self.pos].0);
            let value = req.slice(&req.headers[self.pos].1);
            self.pos += 1;
            Some((name, value))
        } else {
            None
        }
    }
}

/// The ranges of the headers' names and values.
pub open spec fn ranges_of(spans: Seq<(Span, Span)>) -> Seq<(Slice, Slice)> {
    Seq::new(spans.len(), |i: int| (to_range(spans[i].0), to_range(spans[i].1)))
}

/// What `assemble` owes for the head `h` and a buffer that held `before`:
/// the request `req` and the bytes `after` that the buffer is left with.
pub open spec fn assembled(h: HeadView, before: Seq<u8>, req: Request, after: Seq<u8>) -> bool {
    &&& req.wf()
    &&& req.data() == before.subrange(0, h.consumed as int)
    &&& after == before.subrange(h.consumed as int, before.len() as int)
    &&& req.method_range() == to_range(h.method)
    &&& req.path_range() == to_range(h.path)
    &&& req.version_spec() == version_of(h.version)
    &&& req.header_ranges() == ranges_of(h.headers)
    &&& req.body_spec() == BodyReader::Empty
}

/// What `decode` owes for a buffer that held `before`: the result `r` and
/// the bytes `after` that the buffer is left with.
pub open spec fn decoded(
    before: Seq<u8>,
    r: Result<Option<Request>, RequestError>,
    after: Seq<u8>,
) -> bool {
    match scanned_head(before, MAX_HEADERS) {
        ScanView::Partial => r matches Ok(None) && after == before,
        ScanView::Malformed(e) => r matches Err(RequestError::Malformed(f)) && f == e && after == before,
        ScanView::Complete(h) => r matches Ok(Some(req)) && assembled(h, before, req, after),
    }
}

/// A call that finds the head incomplete discards nothing: the buffer is
/// as it was, so that the bytes which arrive next extend the bytes received
/// so far and the next call decodes the whole of them. `Ok(None)` is
/// returned for an incomplete head and for nothing else.
pub proof fn law_incomplete_keeps_bytes(
    before: Seq<u8>,
    r: Result<Option<Request>, RequestError>,
    after: Seq<u8>,
    more: Seq<u8>,
)
    requires
        decoded(before, r, after),
    ensures
        (r matches Ok(None)) <==> scanned_head(before, MAX_HEADERS) == ScanView::Partial,
        (r matches Ok(None)) ==> after + more == before + more,
{
}

/// Builds the request for a head that the tokenizer reported at the front of
/// `buf`: the head's bytes are split off the buffer and become the
/// request's, and each token's offset and length become a range into them.
pub fn assemble(head: Head, buf: &mut BytesMut) -> (req: Request)
    requires
        head_sound(head@, buffer_bytes(*old(buf))),
    ensures
        assembled(head@, buffer_bytes(*old(buf)), req, buffer_bytes(*final(buf))),
{
    let mut headers: Vec<(Slice, Slice)> = Vec::new();
    let mut i: usize = 0;
    while i < head.headers.len()
        invariant
            i <= head.headers@.len(),
            head_sound(head@, buffer_bytes(*buf)),
            headers@ == ranges_of(head.headers@.take(i as int)),
        decreases head.headers@.len() - i,
    {
        assert(span_within(head@.headers[i as int].0, head@.consumed as int));
        let (name, value) = head.headers[i];
        assert(name == head@.headers[i as int].0);
        headers.push(((name.0, name.0 + name.1), (value.0, value.0 + value.1)));
        proof {
            assert(head.headers@.take(i + 1) =~= head.headers@.take(i as int).push(
                head.headers@[i as int],
            ));
            assert(headers@ =~= ranges_of(head.headers@.take(i + 1)));
        }
        i += 1;
    }
    proof {
        assert(head.headers@.take(i as int) =~= head.headers@);
    }
    let data = buffer_split_to(buf, head.consumed);
    let req = Request {
        method: (head.method.0, head.method.0 + head.method.1),
        path: (head.path.0, head.path.0 + head.path.1),
        version: head.version,
        headers,
        data,
        body: BodyReader::Empty,
    };
    proof {
        let h = head@;
        assert(req.data().len() == h.consumed);
        assert(req.header_ranges() == ranges_of(h.headers));
        assert forall|j: int| 0 <= j < req.headers@.len() implies range_ok(
            #[trigger] req.headers@[j].0,
            h.consumed as int,
        ) && range_ok(req.headers@[j].1, h.consumed as int) by {
            assert(span_within(h.headers[j].0, h.consumed as int));
        }
        assert(req.wf());
    }
    req
}

/// Decodes the request head at the front of `buf`.
///
/// While the head is incomplete the buffer is left as it is and `Ok(None)`
/// is returned; a malformed head is an error, the buffer again untouched. A
/// complete head is split off the buffer and becomes the request's bytes;
/// the request's ranges are those that the tokenizer reported, and its body
/// reader is `Empty` until `set_reader` chooses one.
pub fn decode(buf: &mut BytesMut) -> (r: Result<Option<Request>, RequestError>)
    ensures
        decoded(buffer_bytes(*old(buf)), r, buffer_bytes(*final(buf))),
{
    match scan_head(buffer_as_slice(buf), MAX_HEADERS) {
        Scanned::Partial => Ok(None),
        Scanned::Malformed(e) => Err(RequestError::Malformed(e)),
        Scanned::Complete(head) => Ok(Some(assemble(head, buf))),
    }
}

} // verus!
