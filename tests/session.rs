use chat_relay::session::{Session, SessionAction, SessionEvent, SessionState};

fn active(id: u64) -> Session {
    let mut s = Session::new(id);
    let a = s.step(SessionEvent::Begin);
    assert_eq!(a, SessionAction::Publish(format!(">>> Client #{} has joined the chat!", id)));
    s
}

#[test]
fn new_session_is_joining() {
    let s = Session::new(5);
    assert_eq!(s.id(), 5);
    assert_eq!(s.state(), SessionState::Joining);
}

#[test]
fn begin_announces_join() {
    let s = active(4);
    assert_eq!(s.state(), SessionState::Active);
}

#[test]
fn nothing_published_before_join() {
    let mut s = Session::new(4);
    assert_eq!(s.step(SessionEvent::LineRead("early\n".to_string())), SessionAction::Nothing);
    assert_eq!(s.step(SessionEvent::Incoming("x".to_string())), SessionAction::Nothing);
    assert_eq!(s.state(), SessionState::Joining);
}

#[test]
fn line_becomes_chat_line() {
    let mut s = active(3);
    assert_eq!(
        s.step(SessionEvent::LineRead("hello\n".to_string())),
        SessionAction::Publish("Client #3: hello".to_string())
    );
    assert_eq!(s.state(), SessionState::Active);
}

#[test]
fn incoming_line_is_framed_for_writing() {
    let mut s = active(3);
    assert_eq!(
        s.step(SessionEvent::Incoming("Client #1: hi".to_string())),
        SessionAction::Write("Client #1: hi\n".to_string())
    );
}

#[test]
fn own_lines_are_not_written_back() {
    let mut s = active(3);
    assert_eq!(
        s.step(SessionEvent::Incoming(">>> Client #3 has joined the chat!".to_string())),
        SessionAction::Nothing
    );
    assert_eq!(s.step(SessionEvent::Incoming("Client #3: me".to_string())), SessionAction::Nothing);
}

#[test]
fn lag_is_noted_and_session_goes_on() {
    let mut s = active(3);
    assert_eq!(s.step(SessionEvent::Lagged(7)), SessionAction::NoteLag(7));
    assert_eq!(s.state(), SessionState::Active);
}

#[test]
fn end_of_stream_closes_with_one_leave() {
    let mut s = active(2);
    assert_eq!(s.step(SessionEvent::EndOfStream), SessionAction::Shutdown);
    assert_eq!(s.state(), SessionState::Closing);
    assert_eq!(s.step(SessionEvent::LineRead("late\n".to_string())), SessionAction::Nothing);
    assert_eq!(s.step(SessionEvent::Incoming("Client #1: x".to_string())), SessionAction::Nothing);
    assert_eq!(
        s.step(SessionEvent::Stopped),
        SessionAction::Leave("<<< Client #2 has left the chat.".to_string())
    );
    assert_eq!(s.state(), SessionState::Closed);
    assert_eq!(s.step(SessionEvent::Stopped), SessionAction::Nothing);
    assert_eq!(s.step(SessionEvent::LineRead("after\n".to_string())), SessionAction::Nothing);
}

#[test]
fn read_failure_closes() {
    let mut s = active(2);
    assert_eq!(s.step(SessionEvent::ReadFailed), SessionAction::Shutdown);
    assert_eq!(s.step(SessionEvent::WriteFailed), SessionAction::Nothing);
    assert_eq!(
        s.step(SessionEvent::Stopped),
        SessionAction::Leave("<<< Client #2 has left the chat.".to_string())
    );
}

#[test]
fn write_failure_closes() {
    let mut s = active(2);
    assert_eq!(s.step(SessionEvent::WriteFailed), SessionAction::Shutdown);
    assert_eq!(s.state(), SessionState::Closing);
}

#[test]
fn bus_closed_closes() {
    let mut s = active(2);
    assert_eq!(s.step(SessionEvent::BusClosed), SessionAction::Shutdown);
    assert_eq!(s.state(), SessionState::Closing);
}

#[test]
fn second_begin_is_ignored() {
    let mut s = active(2);
    assert_eq!(s.step(SessionEvent::Begin), SessionAction::Nothing);
    assert_eq!(s.state(), SessionState::Active);
}
