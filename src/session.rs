use vstd::prelude::*;
use crate::hub::{Hub, HubView};
use crate::registry::NameRegistry;

verus! {

/// The text broadcast when `name` joins.
pub open spec fn joined_text(name: Seq<char>) -> Seq<char> {
    name + " joined."@
}

/// The text broadcast when `name` says `text`.
pub open spec fn chat_text(name: Seq<char>, text: Seq<char>) -> Seq<char> {
    name + ": "@ + text
}

/// The text broadcast when `name` leaves.
pub open spec fn left_text(name: Seq<char>) -> Seq<char> {
    name + " left."@
}

/// The text sent to a client whose name was not accepted.
pub open spec fn rejection_text() -> Seq<char> {
    "Username already exists"@
}

/// A first message is accepted as a name when it is not empty and no live
/// session holds it.
pub open spec fn accepts(names: Set<Seq<char>>, candidate: Seq<char>) -> bool {
    candidate.len() > 0 && !names.contains(candidate)
}

/// The shared state: names in use, the hub, and which subscription belongs
/// to which named session.
pub struct ServerView {
    pub names: Set<Seq<char>>,
    pub hub: HubView,
    pub members: Map<usize, Seq<char>>,
}

/// Where a session stands.
pub enum Phase {
    AwaitingName,
    Active { name: Seq<char>, subscriber: usize },
    Terminated,
}

/// What happened on a session's connection or in the hub.
pub enum Happening {
    Text(Seq<char>),
    Ended,
    Deliver,
    SendFailed,
}

/// What the connection must do next.
pub enum Reply {
    Idle,
    Send(Seq<char>),
    Reject(Seq<char>),
    Close,
}

impl ServerView {
    pub open spec fn wf(self) -> bool {
        &&& self.hub.wf()
        &&& self.members.dom() == self.hub.subscribers.dom()
        &&& forall|n: Seq<char>| #[trigger] self.names.contains(n)
            <==> exists|id: usize| self.members.dom().contains(id) && self.members[id] == n
        &&& forall|a: usize, b: usize|
            #[trigger] self.members.dom().contains(a) && #[trigger] self.members.dom().contains(b)
                && a != b ==> self.members[a] != self.members[b]
    }

    /// The session at `phase` is one this server issued and still serves.
    pub open spec fn issued(self, phase: Phase) -> bool {
        match phase {
            Phase::Active { name, subscriber } =>
                self.members.dom().contains(subscriber) && self.members[subscriber] == name,
            _ => true,
        }
    }

    /// The session with `name` at `subscriber` has gone: its subscription is
    /// closed, its departure announced, its name given back.
    pub open spec fn depart(self, name: Seq<char>, subscriber: usize) -> ServerView {
        ServerView {
            names: self.names.remove(name),
            hub: self.hub.unsubscribe(subscriber).publish(left_text(name)),
            members: self.members.remove(subscriber),
        }
    }

    /// A session named `name` has joined under the new subscription `fresh`.
    pub open spec fn welcome(self, name: Seq<char>, fresh: usize) -> ServerView {
        ServerView {
            names: self.names.insert(name),
            hub: self.hub.subscribe(fresh).publish(joined_text(name)),
            members: self.members.insert(fresh, name),
        }
    }
}

/// One step of a session: from the shared state, the session's phase and
/// what happened, to the next shared state, phase and reply. `fresh` is the
/// subscription a newly admitted session gets.
pub open spec fn transition(v: ServerView, p: Phase, e: Happening, fresh: usize) -> (ServerView, Phase, Reply) {
    match p {
        Phase::AwaitingName => match e {
            Happening::Text(t) => if accepts(v.names, t) {
                (v.welcome(t, fresh), Phase::Active { name: t, subscriber: fresh }, Reply::Idle)
            } else {
                (v, Phase::Terminated, Reply::Reject(rejection_text()))
            },
            Happening::Ended => (v, Phase::Terminated, Reply::Reject(rejection_text())),
            Happening::Deliver => (v, Phase::AwaitingName, Reply::Idle),
            Happening::SendFailed => (v, Phase::Terminated, Reply::Close),
        },
        Phase::Active { name, subscriber } => match e {
            Happening::Text(t) => (
                ServerView { hub: v.hub.publish(chat_text(name, t)), ..v },
                p,
                Reply::Idle,
            ),
            Happening::Deliver => if v.hub.subscribers[subscriber].pending.len() > 0 {
                (
                    ServerView { hub: v.hub.take(subscriber), ..v },
                    p,
                    Reply::Send(v.hub.subscribers[subscriber].pending[0]),
                )
            } else {
                (v, p, Reply::Idle)
            },
            _ => (v.depart(name, subscriber), Phase::Terminated, Reply::Close),
        },
        Phase::Terminated => (v, Phase::Terminated, Reply::Close),
    }
}

/// Every name in use is held by exactly one live session.
pub proof fn lemma_names_held_once(v: ServerView, name: Seq<char>)
    requires
        v.wf(),
        v.names.contains(name),
    ensures
        exists|id: usize| #[trigger] v.members.dom().contains(id) && v.members[id] == name,
        forall|a: usize, b: usize|
            #[trigger] v.members.dom().contains(a) && #[trigger] v.members.dom().contains(b)
                && v.members[a] == name && v.members[b] == name ==> a == b,
{
}

/// While a session holds a name, another session that asks for it is turned
/// away, and nothing changes.
pub proof fn lemma_held_name_rejected(v: ServerView, name: Seq<char>, fresh: usize)
    requires
        v.names.contains(name),
    ensures
        transition(v, Phase::AwaitingName, Happening::Text(name), fresh)
            == (v, Phase::Terminated, Reply::Reject(rejection_text())),
{
}

/// When a session departs, its name is released exactly once: the name
/// becomes free, every other name stays as it was, and the departed session
/// no longer counts as one the server serves, so it cannot release again.
pub proof fn lemma_departure_releases_once(v: ServerView, name: Seq<char>, subscriber: usize)
    requires
        v.wf(),
        v.issued(Phase::Active { name, subscriber }),
    ensures
        !v.depart(name, subscriber).names.contains(name),
        name.len() > 0 ==> accepts(v.depart(name, subscriber).names, name),
        forall|other: Seq<char>| other != name
            ==> (#[trigger] v.depart(name, subscriber).names.contains(other) == v.names.contains(other)),
        !v.depart(name, subscriber).issued(Phase::Active { name, subscriber }),
{
}

/// What a read from the client produced: a text frame, or the end of input
/// (a close frame, a read error, or a frame that is not text).
#[derive(Debug, Clone, PartialEq, Eq)]
pub enum Inbound {
    Text(String),
    Ended,
}

/// What a session reacts to.
#[derive(Debug, Clone, PartialEq, Eq)]
pub enum Event {
    /// The client sent something, or its input ended.
    Received(Inbound),
    /// The hub may hold messages for this session.
    Deliver,
    /// Writing to the client failed.
    SendFailed,
}

/// What the connection must do after a step.
#[derive(Debug, Clone, PartialEq, Eq)]
pub enum Action {
    /// Nothing until the next event.
    Idle,
    /// Write this text to the client, then ask for the next delivery.
    Send(String),
    /// Write this text to the client, then close the connection.
    Reject(String),
    /// Close the connection.
    Close,
}

/// A session that holds a name and a subscription.
#[derive(Debug)]
pub struct Session {
    name: String,
    subscriber: usize,
}

/// Where a session stands.
#[derive(Debug)]
pub enum SessionState {
    AwaitingName,
    Active(Session),
    Terminated,
}

impl Event {
    pub open spec fn view(&self) -> Happening {
        match self {
            Event::Received(Inbound::Text(t)) => Happening::Text(t@),
            Event::Received(Inbound::Ended) => Happening::Ended,
            Event::Deliver => Happening::Deliver,
            Event::SendFailed => Happening::SendFailed,
        }
    }
}

impl Action {
    pub open spec fn view(&self) -> Reply {
        match self {
            Action::Idle => Reply::Idle,
            Action::Send(m) => Reply::Send(m@),
            Action::Reject(m) => Reply::Reject(m@),
            Action::Close => Reply::Close,
        }
    }
}

impl Session {
    /// The name this session holds.
    pub fn name(&self) -> (r: &str)
        ensures
            r@ == self.spec_name(),
    {
        self.name.as_str()
    }

    /// The id of this session's subscription.
    pub fn subscriber(&self) -> (r: usize)
        ensures
            r == self.spec_subscriber(),
    {
        self.subscriber
    }

    pub closed spec fn spec_name(&self) -> Seq<char> {
        self.name@
    }

    pub closed spec fn spec_subscriber(&self) -> usize {
        self.subscriber
    }
}

impl SessionState {
    pub open spec fn view(&self) -> Phase {
        match self {
            SessionState::AwaitingName => Phase::AwaitingName,
            SessionState::Active(s) => Phase::Active { name: s.spec_name(), subscriber: s.spec_subscriber() },
            SessionState::Terminated => Phase::Terminated,
        }
    }
}

/// Queue length of each subscriber when the server is built with
/// [`ChatServer::with_default_capacity`].
pub const DEFAULT_CAPACITY: usize = 100;

/// The state shared by all sessions: the names in use and the hub.
pub struct ChatServer {
    registry: NameRegistry,
    hub: Hub,
    members: Ghost<Map<usize, Seq<char>>>,
}

fn joined_message(name: &String) -> (r: String)
    ensures
        r@ == joined_text(name@),
{
    let mut m = name.clone();
    m.append(" joined.");
    m
}

fn chat_message(name: &String, text: &String) -> (r: String)
    ensures
        r@ == chat_text(name@, text@),
{
    let mut m = name.clone();
    m.append(": ");
    m.append(text.as_str());
    m
}

fn left_message(name: &String) -> (r: String)
    ensures
        r@ == left_text(name@),
{
    let mut m = name.clone();
    m.append(" left.");
    m
}

/// The notice sent to a client whose name was not accepted.
pub fn rejection_notice() -> (r: String)
    ensures
        r@ == rejection_text(),
{
    "Username already exists".to_owned()
}

impl ChatServer {
    pub closed spec fn view(&self) -> ServerView {
        ServerView { names: self.registry@, hub: self.hub@, members: self.members@ }
    }

    pub closed spec fn wf(&self) -> bool {
        &&& self.registry.wf()
        &&& self.hub.wf()
        &&& self@.wf()
    }

    /// A server with no sessions, whose subscriber queues hold at most
    /// `capacity` messages each.
    pub fn new(capacity: usize) -> (r: ChatServer)
        ensures
            r.wf(),
            r@.names == Set::<Seq<char>>::empty(),
            r@.hub.capacity == capacity,
            r@.hub.history == Seq::<Seq<char>>::empty(),
            r@.hub.subscribers == Map::<usize, crate::hub::SubscriberView>::empty(),
            r@.members == Map::<usize, Seq<char>>::empty(),
    {
        let r = ChatServer { registry: NameRegistry::new(), hub: Hub::new(capacity), members: Ghost(Map::empty()) };
        assert(r@.members.dom() =~= r@.hub.subscribers.dom());
        r
    }

    /// A server whose subscriber queues hold [`DEFAULT_CAPACITY`] messages.
    pub fn with_default_capacity() -> (r: ChatServer)
        ensures
            r.wf(),
            r@.names == Set::<Seq<char>>::empty(),
            r@.hub.capacity == DEFAULT_CAPACITY,
            r@.hub.history == Seq::<Seq<char>>::empty(),
            r@.hub.subscribers == Map::<usize, crate::hub::SubscriberView>::empty(),
            r@.members == Map::<usize, Seq<char>>::empty(),
    {
        ChatServer::new(DEFAULT_CAPACITY)
    }

    /// Whether `name` is held by a live session.
    pub fn is_taken(&self, name: &str) -> (r: bool)
        requires
            self.wf(),
        ensures
            r == self@.names.contains(name@),
    {
        self.registry.contains(name)
    }

    /// The handshake: `candidate` is taken as the session's name when it is
    /// not empty and free; the session then subscribes and its arrival is
    /// announced. Otherwise nothing changes and the client is turned away.
    fn join(&mut self, candidate: String) -> (r: (SessionState, Action))
        requires
            old(self).wf(),
        ensures
            final(self).wf(),
            final(self)@.issued(r.0@),
            r.0@ is Active ==> !old(self)@.hub.subscribers.dom().contains(subscriber_of(r.0@)),
            (final(self)@, r.0@, r.1@)
                == transition(old(self)@, Phase::AwaitingName, Happening::Text(candidate@), subscriber_of(r.0@)),
    {
        if candidate.as_str().is_empty() || !self.registry.claim(candidate.as_str()) {
            return (SessionState::Terminated, Action::Reject(rejection_notice()));
        }
        let ghost v = old(self)@;
        let id = self.hub.subscribe();
        self.hub.publish(joined_message(&candidate));
        self.members = Ghost(self.members@.insert(id, candidate@));
        proof {
            let w = v.welcome(candidate@, id);
            assert(self@.hub == w.hub);
            assert(self@.members.dom() =~= self@.hub.subscribers.dom());
            assert forall|n: Seq<char>| #[trigger] self@.names.contains(n)
                <==> exists|i: usize| self@.members.dom().contains(i) && self@.members[i] == n by {
                if n == candidate@ {
                    assert(self@.members.dom().contains(id) && self@.members[id] == n);
                } else if v.names.contains(n) {
                    let i = choose|i: usize| v.members.dom().contains(i) && v.members[i] == n;
                    assert(self@.members.dom().contains(i) && self@.members[i] == n);
                }
            }
            assert forall|a: usize, b: usize|
                #[trigger] self@.members.dom().contains(a) && #[trigger] self@.members.dom().contains(b)
                    && a != b implies self@.members[a] != self@.members[b] by {
                if a == id {
                    assert(!v.names.contains(candidate@));
                    assert(v.members.dom().contains(b));
                } else if b == id {
                    assert(!v.names.contains(candidate@));
                    assert(v.members.dom().contains(a));
                }
            }
        }
        (SessionState::Active(Session { name: candidate, subscriber: id }), Action::Idle)
    }

    /// The session ends: its subscription is closed, its departure announced
    /// to those still subscribed, and its name given back.
    fn depart(&mut self, session: Session)
        requires
            old(self).wf(),
            old(self)@.issued(SessionState::Active(session)@),
        ensures
            final(self).wf(),
            final(self)@ == old(self)@.depart(session.spec_name(), session.spec_subscriber()),
    {
        let ghost v = old(self)@;
        let ghost name = session.name@;
        let ghost sid = session.subscriber;
        self.hub.unsubscribe(session.subscriber);
        self.hub.publish(left_message(&session.name));
        self.registry.release(session.name.as_str());
        self.members = Ghost(self.members@.remove(session.subscriber));
        proof {
            assert(self@.members.dom() =~= self@.hub.subscribers.dom());
            assert forall|n: Seq<char>| #[trigger] self@.names.contains(n)
                <==> exists|i: usize| self@.members.dom().contains(i) && self@.members[i] == n by {
                if self@.names.contains(n) {
                    assert(v.names.contains(n) && n != name);
                    let i = choose|i: usize| v.members.dom().contains(i) && v.members[i] == n;
                    assert(i != sid);
                    assert(self@.members.dom().contains(i) && self@.members[i] == n);
                }
                if exists|i: usize| self@.members.dom().contains(i) && self@.members[i] == n {
                    let i = choose|i: usize| self@.members.dom().contains(i) && self@.members[i] == n;
                    assert(v.members.dom().contains(i) && v.members.dom().contains(sid) && i != sid);
                    assert(v.members[i] == n);
                    assert(v.names.contains(n));
                    assert(n != name);
                }
            }
        }
    }

    /// Reacts to one event of a session: returns the session's next state
    /// and what its connection must do.
    pub fn step(&mut self, state: SessionState, event: Event) -> (r: (SessionState, Action))
        requires
            old(self).wf(),
            old(self)@.issued(state@),
        ensures
            final(self).wf(),
            final(self)@.issued(r.0@),
            r.0@ is Active && !(state@ is Active)
                ==> !old(self)@.hub.subscribers.dom().contains(subscriber_of(r.0@)),
            (final(self)@, r.0@, r.1@) == transition(old(self)@, state@, event@, subscriber_of(r.0@)),
    {
        match state {
            SessionState::AwaitingName => match event {
                Event::Received(Inbound::Text(t)) => self.join(t),
                Event::Received(Inbound::Ended) => (SessionState::Terminated, Action::Reject(rejection_notice())),
                Event::Deliver => (SessionState::AwaitingName, Action::Idle),
                Event::SendFailed => (SessionState::Terminated, Action::Close),
            },
            SessionState::Active(session) => match event {
                Event::Received(Inbound::Text(t)) => {
                    let ghost v = old(self)@;
                    self.hub.publish(chat_message(&session.name, &t));
                    proof {
                        assert(self@.hub.subscribers.dom() =~= v.hub.subscribers.dom());
                        assert(self@.names == v.names && self@.members == v.members);
                        assert(self.wf());
                    }
                    (SessionState::Active(session), Action::Idle)
                },
                Event::Deliver => {
                    match self.hub.next_message(session.subscriber) {
                        Some(m) => {
                            proof {
                                assert(self@.hub.subscribers.dom() =~= old(self)@.hub.subscribers.dom());
                                assert(self@.names == old(self)@.names && self@.members == old(self)@.members);
                                assert(self.wf());
                            }
                            (SessionState::Active(session), Action::Send(m))
                        },
                        None => (SessionState::Active(session), Action::Idle),
                    }
                },
                _ => {
                    self.depart(session);
                    (SessionState::Terminated, Action::Close)
                },
            },
            SessionState::Terminated => (SessionState::Terminated, Action::Close),
        }
    }
}

/// The subscription a phase holds, if any.
pub open spec fn subscriber_of(p: Phase) -> usize {
    match p {
        Phase::Active { subscriber, .. } => subscriber,
        _ => 0,
    }
}

} // verus!
