//! The request-head tokenizer: `httparse`, called on the receive buffer's
//! bytes and answered in offsets into them.

use vstd::prelude::*;
use httparse::{Status, EMPTY_HEADER};

verus! {

/// `httparse::Error`, opaque to the verifier.
#[verifier::external_type_specification]
#[verifier::external_body]
pub struct ExScanError(httparse::Error);

/// Where a token starts in the scanned bytes, and how long it is.
pub type Span = (usize, usize);

/// A complete request head, as offsets into the scanned bytes.
pub struct Head {
    pub method: Span,
    pub path: Span,
    /// The minor version: 0 for HTTP/1.0, 1 for HTTP/1.1.
    pub version: u8,
    /// Name and value of each header line, in arrival order.
    pub headers: Vec<(Span, Span)>,
    /// Length of the head, blank line included.
    pub consumed: usize,
}

/// A head as the contracts see it.
pub struct HeadView {
    pub method: Span,
    pub path: Span,
    pub version: u8,
    pub headers: Seq<(Span, Span)>,
    pub consumed: usize,
}

impl View for Head {
    type V = HeadView;

    open spec fn view(&self) -> HeadView {
        HeadView {
            method: self.method,
            path: self.path,
            version: self.version,
            headers: self.headers@,
            consumed: self.consumed,
        }
    }
}

/// What the tokenizer found in a buffer.
pub enum Scanned {
    /// The head is not complete yet.
    Partial,
    Complete(Head),
    Malformed(httparse::Error),
}

/// A scan as the contracts see it.
pub enum ScanView {
    Partial,
    Complete(HeadView),
    Malformed(httparse::Error),
}

impl View for Scanned {
    type V = ScanView;

    open spec fn view(&self) -> ScanView {
        match *self {
            Scanned::Partial => ScanView::Partial,
            Scanned::Complete(h) => ScanView::Complete(h@),
            Scanned::Malformed(e) => ScanView::Malformed(e),
        }
    }
}

/// What `httparse` makes of `bytes` when it may record up to `cap` headers.
pub uninterp spec fn scanned_head(bytes: Seq<u8>, cap: usize) -> ScanView;

/// The token ends within `limit` bytes.
pub open spec fn span_within(s: Span, limit: int) -> bool {
    s.0 + s.1 <= limit
}

/// Every token of the head lies inside the head, and the head inside
/// `bytes`.
pub open spec fn head_sound(h: HeadView, bytes: Seq<u8>) -> bool {
    &&& h.consumed <= bytes.len()
    &&& h.version <= 1
    &&& span_within(h.method, h.consumed as int)
    &&& span_within(h.path, h.consumed as int)
    &&& forall|i: int|
        0 <= i < h.headers.len() ==> span_within(#[trigger] h.headers[i].0, h.consumed as int)
            && span_within(h.headers[i].1, h.consumed as int)
}

/// A complete head is sound for the scanned bytes.
pub open spec fn scan_sound(v: ScanView, bytes: Seq<u8>) -> bool {
    match v {
        ScanView::Complete(h) => head_sound(h, bytes),
        _ => true,
    }
}

/// `httparse::Request::parse` on `buf`, with room for `cap` headers. The
/// result is the one that the tokenizer gives for these bytes. Method, path,
/// header names and header values come back from it as sub-slices of `buf`
/// that end before the reported head length; each is handed on as its
/// offset in `buf`, which is the distance between the two slices' starts,
/// and its length.
#[verifier::external_body]
pub(crate) fn scan_head(buf: &[u8], cap: usize) -> (r: Scanned)
    ensures
        r@ == scanned_head(buf@, cap),
        scan_sound(r@, buf@),
{
    let mut slots = vec![EMPTY_HEADER; cap];
    let mut req = httparse::Request::new(&mut slots);
    let at = |s: &[u8]| (s.as_ptr() as usize - buf.as_ptr() as usize, s.len());
    match req.parse(buf) {
        Err(e) => Scanned::Malformed(e),
        Ok(Status::Partial) => Scanned::Partial,
        Ok(Status::Complete(n)) => Scanned::Complete(Head {
            method: at(req.method.unwrap().as_bytes()),
            path: at(req.path.unwrap().as_bytes()),
            version: req.version.unwrap(),
            headers: req.headers.iter().map(|h| (at(h.name.as_bytes()), at(h.value))).collect(),
            consumed: n
        })
    }
}

} // verus!
