//! The decisions that the connection loop takes around each exchange: the
//! interim response to `Expect: 100-continue`, whether the connection stays
//! open, and the order of the steps of an exchange.
//!
//! The loop itself reads and writes the transport and runs the handler; it
//! reports what happened as an `Event` and is told by `step` what to do next.

use vstd::prelude::*;
use crate::names;
use crate::request::{bytes_eq, bytes_eq_ignore_case, eq_ignore_case, lookup, Request, Version};

verus! {

/// An interim response is due: the request is HTTP/1.1 and the value of its
/// first Expect header is `100-continue`, byte for byte.
pub open spec fn wants_continue(version: Version, headers: Seq<(Seq<u8>, Seq<u8>)>) -> bool {
    version == Version::Http11 && lookup(headers, names::expect_bytes()) == Some(
        names::continue_token_bytes(),
    )
}

/// The request asks for the connection to be closed.
pub open spec fn asks_close(headers: Seq<(Seq<u8>, Seq<u8>)>) -> bool {
    match lookup(headers, names::connection_bytes()) {
        Some(v) => eq_ignore_case(v, names::close_bytes()),
        None => false,
    }
}

/// The connection persists: HTTP/1.1, and neither side declared
/// `Connection: close`.
pub open spec fn persists(
    version: Version,
    headers: Seq<(Seq<u8>, Seq<u8>)>,
    response_closes: bool,
) -> bool {
    version == Version::Http11 && !asks_close(headers) && !response_closes
}

/// `http`'s own rendering of the interim response: `Version::HTTP_11` by its
/// `Debug`, which writes `HTTP/1.1`, and `StatusCode::CONTINUE` by its
/// `Display`, which writes the code and its reason phrase, `100 Continue`;
/// then the blank line of an empty header block.
#[verifier::external_body]
fn continue_line() -> (r: Vec<u8>)
    ensures
        r@ == names::continue_line_bytes(),
{
    format!("{:?} {}\r\n\r\n", http::Version::HTTP_11, http::StatusCode::CONTINUE).into_bytes()
}

/// The bytes to write and flush before the handler runs: the interim
/// response where the request expects one, else nothing.
pub fn handle_expect(req: &Request) -> (r: Option<Vec<u8>>)
    requires
        req.wf(),
    ensures
        wants_continue(req.version_spec(), req.header_list()) ==> r.is_some()
            && r.unwrap()@ == names::continue_line_bytes(),
        !wants_continue(req.version_spec(), req.header_list()) ==> r.is_none(),
{
    let expect = match req.headers().get(names::expect().as_slice()) {
        Some(v) => v,
        None => {
            return None;
        },
    };
    if req.version() == Version::Http11 && bytes_eq(expect, names::continue_token().as_slice()) {
        Some(continue_line())
    } else {
        None
    }
}

/// Whether the connection stays open after this exchange;
/// `response_closes` says that the response declared `Connection: close`.
pub fn keep_alive(req: &Request, response_closes: bool) -> (r: bool)
    requires
        req.wf(),
    ensures
        r == persists(req.version_spec(), req.header_list(), response_closes),
{
    if response_closes || req.version() != Version::Http11 {
        return false;
    }
    match req.headers().get(names::connection().as_slice()) {
        Some(v) => !bytes_eq_ignore_case(v, names::close().as_slice()),
        None => true,
    }
}

/// Where the connection stands in an exchange.
#[derive(Clone, Copy, Debug, PartialEq, Eq, Structural)]
pub enum ConnState {
    /// Bytes are gathered until a request head decodes.
    AwaitRequest,
    /// A request was decoded; the expectation check is due.
    HaveRequest,
    /// The handler runs.
    Dispatched,
    /// What the handler left of the body is read and discarded.
    BodyDrained,
    /// The response is flushed.
    ResponseSent,
    /// The transport is shut down; the loop is over.
    Close,
}

/// What the loop reports back.
#[derive(Clone, Copy, Debug, PartialEq, Eq, Structural)]
pub enum Event {
    /// The buffer does not hold a whole request head yet.
    Incomplete,
    /// A request head was decoded and its body reader chosen.
    Complete,
    /// The head is malformed, or declares a body that cannot be framed.
    Malformed,
    /// The work of the current state is done.
    Done,
    /// The response went out; `keep_alive` is the outcome of the keep-alive
    /// decision.
    Sent { keep_alive: bool },
    /// The handler failed.
    HandlerFailed,
    /// The body's framing is broken.
    BadFraming,
    /// Reading or writing the transport failed, or the peer went away.
    TransportError,
}

/// What the loop is to do next.
#[derive(Clone, Copy, Debug, PartialEq, Eq, Structural)]
pub enum Action {
    /// Read more bytes and decode again.
    ReadMore,
    /// Send the interim response if the request expects it.
    CheckExpect,
    /// Invoke the handler.
    RunHandler,
    /// Read and discard the rest of the body.
    DrainBody,
    /// Flush the response and take the keep-alive decision.
    FlushResponse,
    /// Answer 400 if no byte of a response went out yet, then shut down.
    RejectAndClose,
    /// Send an error response if none went out yet, then shut down.
    FailAndClose,
    /// Shut the transport down.
    Shutdown,
    /// Nothing: the loop is over.
    Stop,
}

/// The state that follows `state` on `event`, and the action to take.
///
/// An exchange runs decode, expectation check, handler, body drain,
/// response, in this order. Any failure closes the connection, and so does
/// an event that the state does not await.
pub open spec fn transition(state: ConnState, event: Event) -> (ConnState, Action) {
    match (state, event) {
        (ConnState::Close, _) => (ConnState::Close, Action::Stop),
        (_, Event::TransportError) => (ConnState::Close, Action::Shutdown),
        (ConnState::AwaitRequest, Event::Incomplete) => (ConnState::AwaitRequest, Action::ReadMore),
        (ConnState::AwaitRequest, Event::Complete) => (ConnState::HaveRequest, Action::CheckExpect),
        (ConnState::AwaitRequest, Event::Malformed) => (ConnState::Close, Action::RejectAndClose),
        (ConnState::HaveRequest, Event::Done) => (ConnState::Dispatched, Action::RunHandler),
        (ConnState::Dispatched, Event::Done) => (ConnState::BodyDrained, Action::DrainBody),
        (ConnState::Dispatched, Event::HandlerFailed) => (ConnState::Close, Action::FailAndClose),
        (ConnState::Dispatched, Event::BadFraming) => (ConnState::Close, Action::RejectAndClose),
        (ConnState::BodyDrained, Event::Done) => (ConnState::ResponseSent, Action::FlushResponse),
        (ConnState::BodyDrained, Event::BadFraming) => (ConnState::Close, Action::RejectAndClose),
        (ConnState::ResponseSent, Event::Sent { keep_alive }) => if keep_alive {
            (ConnState::AwaitRequest, Action::ReadMore)
        } else {
            (ConnState::Close, Action::Shutdown)
        },
        _ => (ConnState::Close, Action::Shutdown),
    }
}

/// One step of the connection loop.
pub fn step(state: ConnState, event: Event) -> (r: (ConnState, Action))
    ensures
        r == transition(state, event),
{
    match state {
        ConnState::Close => (ConnState::Close, Action::Stop),
        ConnState::AwaitRequest => match event {
            Event::Incomplete => (ConnState::AwaitRequest, Action::ReadMore),
            Event::Complete => (ConnState::HaveRequest, Action::CheckExpect),
            Event::Malformed => (ConnState::Close, Action::RejectAndClose),
            _ => (ConnState::Close, Action::Shutdown),
        },
        ConnState::HaveRequest => match event {
            Event::Done => (ConnState::Dispatched, Action::RunHandler),
            _ => (ConnState::Close, Action::Shutdown),
        },
        ConnState::Dispatched => match event {
            Event::Done => (ConnState::BodyDrained, Action::DrainBody),
            Event::HandlerFailed => (ConnState::Close, Action::FailAndClose),
            Event::BadFraming => (ConnState::Close, Action::RejectAndClose),
            _ => (ConnState::Close, Action::Shutdown),
        },
        ConnState::BodyDrained => match event {
            Event::Done => (ConnState::ResponseSent, Action::FlushResponse),
            Event::BadFraming => (ConnState::Close, Action::RejectAndClose),
            _ => (ConnState::Close, Action::Shutdown),
        },
        ConnState::ResponseSent => match event {
            Event::Sent { keep_alive: true } => (ConnState::AwaitRequest, Action::ReadMore),
            _ => (ConnState::Close, Action::Shutdown),
        },
    }
}

/// The next request is awaited only while its head is still incomplete, or
/// once the response of the exchange before it has gone out and the
/// connection is kept: no exchange starts inside another.
pub proof fn law_one_exchange_at_a_time(state: ConnState, event: Event)
    requires
        transition(state, event).0 == ConnState::AwaitRequest,
    ensures
        (state == ConnState::AwaitRequest && event == Event::Incomplete) || (state
            == ConnState::ResponseSent && event == (Event::Sent { keep_alive: true })),
{
}

/// The handler runs only after the expectation check, the response goes out
/// only after the body was drained, and a closed connection stays closed.
pub proof fn law_steps_in_order(state: ConnState, event: Event)
    ensures
        transition(state, event).1 == Action::RunHandler ==> state == ConnState::HaveRequest,
        transition(state, event).1 == Action::DrainBody ==> state == ConnState::Dispatched,
        transition(state, event).1 == Action::FlushResponse ==> state == ConnState::BodyDrained,
        transition(state, event).1 == Action::CheckExpect ==> state == ConnState::AwaitRequest,
        state == ConnState::Close ==> transition(state, event) == (ConnState::Close, Action::Stop),
{
}

} // verus!
