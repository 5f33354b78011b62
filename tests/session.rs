use chatroom::session::{rejection_notice, Action, ChatServer, Event, Inbound, SessionState, DEFAULT_CAPACITY};

fn text(s: &str) -> Event {
    Event::Received(Inbound::Text(s.to_string()))
}

fn join(server: &mut ChatServer, name: &str) -> (SessionState, Action) {
    server.step(SessionState::AwaitingName, text(name))
}

fn deliver_all(server: &mut ChatServer, mut state: SessionState) -> (SessionState, Vec<String>) {
    let mut out = Vec::new();
    loop {
        let (next, action) = server.step(state, Event::Deliver);
        state = next;
        match action {
            Action::Send(m) => out.push(m),
            Action::Idle => return (state, out),
            other => panic!("unexpected action {:?}", other),
        }
    }
}

fn strings(v: &[&str]) -> Vec<String> {
    v.iter().map(|s| s.to_string()).collect()
}

#[test]
fn taken_name_is_rejected_without_announcement() {
    let mut server = ChatServer::new(100);
    let (a, act) = join(&mut server, "alice");
    assert_eq!(act, Action::Idle);
    assert!(matches!(a, SessionState::Active(_)));
    let (b, act) = join(&mut server, "alice");
    assert!(matches!(b, SessionState::Terminated));
    assert_eq!(act, Action::Reject("Username already exists".to_string()));
    let (_, seen) = deliver_all(&mut server, a);
    assert_eq!(seen, strings(&["alice joined."]));
    assert!(server.is_taken("alice"));
}

#[test]
fn join_chat_and_leave_are_broadcast() {
    let mut server = ChatServer::new(100);
    let (a, _) = join(&mut server, "alice");
    let (b, _) = join(&mut server, "bob");
    let (a, seen_a) = deliver_all(&mut server, a);
    let (b, seen_b) = deliver_all(&mut server, b);
    assert_eq!(seen_a, strings(&["alice joined.", "bob joined."]));
    assert_eq!(seen_b, strings(&["bob joined."]));

    let (a, act) = server.step(a, text("hi"));
    assert_eq!(act, Action::Idle);
    let (a, seen_a) = deliver_all(&mut server, a);
    let (b, seen_b) = deliver_all(&mut server, b);
    assert_eq!(seen_a, strings(&["alice: hi"]));
    assert_eq!(seen_b, strings(&["alice: hi"]));

    let (a, act) = server.step(a, Event::Received(Inbound::Ended));
    assert_eq!(act, Action::Close);
    assert!(matches!(a, SessionState::Terminated));
    let (_, seen_b) = deliver_all(&mut server, b);
    assert_eq!(seen_b, strings(&["alice left."]));
    assert!(!server.is_taken("alice"));
    let (again, act) = join(&mut server, "alice");
    assert_eq!(act, Action::Idle);
    assert!(matches!(again, SessionState::Active(_)));
}

#[test]
fn all_subscribers_see_joins_in_order() {
    let mut server = ChatServer::new(100);
    let (watcher, _) = join(&mut server, "carol");
    let (watcher, _) = deliver_all(&mut server, watcher);
    let (_a, _) = join(&mut server, "alice");
    let (_b, _) = join(&mut server, "bob");
    let (_, seen) = deliver_all(&mut server, watcher);
    assert_eq!(seen, strings(&["alice joined.", "bob joined."]));
}

#[test]
fn empty_name_is_rejected() {
    let mut server = ChatServer::new(100);
    let (s, act) = join(&mut server, "");
    assert!(matches!(s, SessionState::Terminated));
    assert_eq!(act, Action::Reject(rejection_notice()));
    assert!(!server.is_taken(""));
}

#[test]
fn input_ending_before_a_name_binds_nothing() {
    let mut server = ChatServer::new(100);
    let (w, _) = join(&mut server, "watcher");
    let (w, _) = deliver_all(&mut server, w);
    let (s, act) = server.step(SessionState::AwaitingName, Event::Received(Inbound::Ended));
    assert!(matches!(s, SessionState::Terminated));
    assert_eq!(act, Action::Reject("Username already exists".to_string()));
    let (_, seen) = deliver_all(&mut server, w);
    assert!(seen.is_empty());
}

#[test]
fn write_failure_ends_session_with_departure() {
    let mut server = ChatServer::new(100);
    let (w, _) = join(&mut server, "watcher");
    let (a, _) = join(&mut server, "alice");
    let (w, _) = deliver_all(&mut server, w);
    let (a, act) = server.step(a, Event::SendFailed);
    assert_eq!(act, Action::Close);
    assert!(matches!(a, SessionState::Terminated));
    let (_, seen) = deliver_all(&mut server, w);
    assert_eq!(seen, strings(&["alice left."]));
    assert!(!server.is_taken("alice"));
}

#[test]
fn terminated_session_only_closes() {
    let mut server = ChatServer::new(100);
    let (s, act) = server.step(SessionState::Terminated, text("hello"));
    assert!(matches!(s, SessionState::Terminated));
    assert_eq!(act, Action::Close);
    let (s, act) = server.step(SessionState::AwaitingName, Event::Deliver);
    assert!(matches!(s, SessionState::AwaitingName));
    assert_eq!(act, Action::Idle);
    let (s, act) = server.step(SessionState::AwaitingName, Event::SendFailed);
    assert!(matches!(s, SessionState::Terminated));
    assert_eq!(act, Action::Close);
}

#[test]
fn session_accessors_report_name_and_subscription() {
    let mut server = ChatServer::with_default_capacity();
    assert_eq!(DEFAULT_CAPACITY, 100);
    let (s, _) = join(&mut server, "dave");
    match s {
        SessionState::Active(ref session) => {
            assert_eq!(session.name(), "dave");
            assert_eq!(session.subscriber(), 0);
        }
        _ => panic!("not active"),
    }
}

#[test]
fn lagging_session_misses_oldest_messages() {
    let mut server = ChatServer::new(2);
    let (slow, _) = join(&mut server, "slow");
    let (talker, _) = join(&mut server, "talker");
    let (talker, _) = deliver_all(&mut server, talker);
    let (talker, _) = server.step(talker, text("one"));
    let (talker, _) = server.step(talker, text("two"));
    let (_talker, seen_t) = deliver_all(&mut server, talker);
    assert_eq!(seen_t, strings(&["talker: one", "talker: two"]));
    let (_, seen) = deliver_all(&mut server, slow);
    assert_eq!(seen, strings(&["talker: one", "talker: two"]));
}
