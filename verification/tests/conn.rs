use http_conn::conn::{step, Action, ConnState, Event};

#[test]
fn an_exchange_runs_its_steps_in_order() {
    let mut state = ConnState::AwaitRequest;
    let script = [
        (Event::Incomplete, ConnState::AwaitRequest, Action::ReadMore),
        (Event::Complete, ConnState::HaveRequest, Action::CheckExpect),
        (Event::Done, ConnState::Dispatched, Action::RunHandler),
        (Event::Done, ConnState::BodyDrained, Action::DrainBody),
        (Event::Done, ConnState::ResponseSent, Action::FlushResponse),
        (Event::Sent { keep_alive: true }, ConnState::AwaitRequest, Action::ReadMore),
        (Event::Complete, ConnState::HaveRequest, Action::CheckExpect),
        (Event::Done, ConnState::Dispatched, Action::RunHandler),
        (Event::Done, ConnState::BodyDrained, Action::DrainBody),
        (Event::Done, ConnState::ResponseSent, Action::FlushResponse),
        (Event::Sent { keep_alive: false }, ConnState::Close, Action::Shutdown),
        (Event::Incomplete, ConnState::Close, Action::Stop),
    ];
    for (event, expected_state, expected_action) in script {
        let (next, action) = step(state, event);
        assert_eq!((next, action), (expected_state, expected_action));
        state = next;
    }
}

#[test]
fn failures_close_the_connection() {
    assert_eq!(
        step(ConnState::AwaitRequest, Event::Malformed),
        (ConnState::Close, Action::RejectAndClose)
    );
    assert_eq!(
        step(ConnState::Dispatched, Event::HandlerFailed),
        (ConnState::Close, Action::FailAndClose)
    );
    assert_eq!(
        step(ConnState::BodyDrained, Event::BadFraming),
        (ConnState::Close, Action::RejectAndClose)
    );
    for state in [
        ConnState::AwaitRequest,
        ConnState::HaveRequest,
        ConnState::Dispatched,
        ConnState::BodyDrained,
        ConnState::ResponseSent,
    ] {
        assert_eq!(step(state, Event::TransportError), (ConnState::Close, Action::Shutdown));
    }
    assert_eq!(step(ConnState::HaveRequest, Event::Complete), (ConnState::Close, Action::Shutdown));
    assert_eq!(step(ConnState::Close, Event::TransportError), (ConnState::Close, Action::Stop));
}

#[test]
fn names_are_the_bytes_they_stand_for() {
    assert_eq!(http_conn::names::content_length(), b"content-length".to_vec());
    assert_eq!(http_conn::names::transfer_encoding(), b"transfer-encoding".to_vec());
    assert_eq!(http_conn::names::expect(), b"expect".to_vec());
    assert_eq!(http_conn::names::connection(), b"connection".to_vec());
    assert_eq!(http_conn::names::chunked(), b"chunked".to_vec());
    assert_eq!(http_conn::names::close(), b"close".to_vec());
    assert_eq!(http_conn::names::continue_token(), b"100-continue".to_vec());
    assert_eq!(http_conn::names::get(), b"GET".to_vec());
    assert_eq!(http_conn::names::head(), b"HEAD".to_vec());
    assert_eq!(http_conn::names::request_label(), b"<HTTP Request ".to_vec());
}
