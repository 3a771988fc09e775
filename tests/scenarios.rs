use chat_relay::bus::{Bus, Received, Subscription};
use chat_relay::identity::IdentityCounter;
use chat_relay::session::{Session, SessionAction, SessionEvent};
use chat_relay::CHANNEL_CAPACITY;

struct Client {
    session: Session,
    sub: Subscription,
    lags: Vec<u64>,
}

fn perform(bus: &mut Bus, action: SessionAction) {
    match action {
        SessionAction::Publish(line) | SessionAction::Leave(line) => bus.publish(line),
        _ => {}
    }
}

fn connect(bus: &mut Bus, ids: &mut IdentityCounter) -> Client {
    let id = ids.assign().unwrap();
    let sub = bus.subscribe();
    let mut session = Session::new(id);
    let a = session.step(SessionEvent::Begin);
    perform(bus, a);
    Client { session, sub, lags: Vec::new() }
}

fn send(bus: &mut Bus, c: &mut Client, line: &str) {
    let a = c.session.step(SessionEvent::LineRead(format!("{}\n", line)));
    perform(bus, a);
}

fn disconnect(bus: &mut Bus, c: &mut Client) {
    assert_eq!(c.session.step(SessionEvent::EndOfStream), SessionAction::Shutdown);
    let a = c.session.step(SessionEvent::Stopped);
    assert!(matches!(a, SessionAction::Leave(_)));
    perform(bus, a);
}

fn drain(bus: &Bus, c: &mut Client) -> Vec<String> {
    let mut written = Vec::new();
    loop {
        let event = match bus.receive(&mut c.sub) {
            Received::Message(m) => SessionEvent::Incoming(m),
            Received::Lagged(n) => SessionEvent::Lagged(n),
            Received::Empty => break,
            Received::Closed => SessionEvent::BusClosed,
        };
        match c.session.step(event) {
            SessionAction::Write(s) => written.push(s),
            SessionAction::NoteLag(n) => c.lags.push(n),
            _ => {}
        }
    }
    written
}

#[test]
fn join_chat_and_leave_between_two_clients() {
    let mut bus = Bus::new(CHANNEL_CAPACITY);
    let mut ids = IdentityCounter::new();
    let mut a = connect(&mut bus, &mut ids);
    assert_eq!(a.session.id(), 1);
    assert!(drain(&bus, &mut a).is_empty());

    let mut b = connect(&mut bus, &mut ids);
    assert_eq!(b.session.id(), 2);
    assert_eq!(drain(&bus, &mut a), vec![">>> Client #2 has joined the chat!\n".to_string()]);
    assert!(drain(&bus, &mut b).is_empty());

    send(&mut bus, &mut a, "hi");
    assert_eq!(drain(&bus, &mut b), vec!["Client #1: hi\n".to_string()]);

    disconnect(&mut bus, &mut b);
    assert_eq!(drain(&bus, &mut a), vec!["<<< Client #2 has left the chat.\n".to_string()]);
}

#[test]
fn paused_client_sees_lag_then_recent_lines() {
    let mut bus = Bus::new(CHANNEL_CAPACITY);
    let mut ids = IdentityCounter::new();
    let mut paused = connect(&mut bus, &mut ids);
    let mut b = connect(&mut bus, &mut ids);
    let mut c = connect(&mut bus, &mut ids);
    drain(&bus, &mut paused);
    drain(&bus, &mut b);
    drain(&bus, &mut c);

    let total = CHANNEL_CAPACITY + 5;
    let mut sent = Vec::new();
    for i in 0..total {
        if i % 2 == 0 {
            send(&mut bus, &mut b, &format!("line {}", i));
            sent.push(format!("Client #2: line {}\n", i));
        } else {
            send(&mut bus, &mut c, &format!("line {}", i));
            sent.push(format!("Client #3: line {}\n", i));
        }
        drain(&bus, &mut b);
        drain(&bus, &mut c);
    }

    let written = drain(&bus, &mut paused);
    assert_eq!(paused.lags, vec![5]);
    assert_eq!(written.len(), CHANNEL_CAPACITY);
    assert_eq!(written, sent[5..].to_vec());
    assert!(b.lags.is_empty());
    assert!(c.lags.is_empty());
}

#[test]
fn every_other_client_sees_join_before_chat() {
    let mut bus = Bus::new(CHANNEL_CAPACITY);
    let mut ids = IdentityCounter::new();
    let mut a = connect(&mut bus, &mut ids);
    let mut b = connect(&mut bus, &mut ids);
    send(&mut bus, &mut b, "first words");
    assert_eq!(
        drain(&bus, &mut a),
        vec![
            ">>> Client #2 has joined the chat!\n".to_string(),
            "Client #2: first words\n".to_string()
        ]
    );
}

#[test]
fn leave_is_published_once_even_after_late_events() {
    let mut bus = Bus::new(CHANNEL_CAPACITY);
    let mut ids = IdentityCounter::new();
    let mut a = connect(&mut bus, &mut ids);
    let mut b = connect(&mut bus, &mut ids);
    drain(&bus, &mut a);
    assert_eq!(b.session.step(SessionEvent::ReadFailed), SessionAction::Shutdown);
    let late = b.session.step(SessionEvent::WriteFailed);
    perform(&mut bus, late);
    let leave = b.session.step(SessionEvent::Stopped);
    perform(&mut bus, leave);
    let again = b.session.step(SessionEvent::Stopped);
    perform(&mut bus, again);
    let chat = b.session.step(SessionEvent::LineRead("ghost\n".to_string()));
    perform(&mut bus, chat);
    assert_eq!(drain(&bus, &mut a), vec!["<<< Client #2 has left the chat.\n".to_string()]);
}

#[test]
fn identities_are_not_reused_after_disconnect() {
    let mut bus = Bus::new(CHANNEL_CAPACITY);
    let mut ids = IdentityCounter::new();
    let mut a = connect(&mut bus, &mut ids);
    disconnect(&mut bus, &mut a);
    let b = connect(&mut bus, &mut ids);
    assert_eq!(b.session.id(), 2);
}
