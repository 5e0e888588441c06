//! One session per connection: passphrase intake, role assignment, the two
//! relay directions, the handshake on the notification topic, and teardown.
//!
//! The session holds no connection itself. Whoever drives the connection
//! hands each session step what arrived (a decoded frame, a receive outcome)
//! and performs the action that the step returns.

use crate::protocol::{
    channel_name, notification_channel_name, notification_topic, opposite_role, role_topic,
    Event, Role,
};
use crate::store::{
    claim_spec, published, receiver_channel, receiver_next, touched, Store, StoreView,
};
use tokio::sync::broadcast::Receiver;
use vstd::prelude::*;

verus! {

/// A text frame from the client: the text as it arrived, and the envelope it
/// decodes to, or `None` where it does not decode.
pub struct Inbound {
    pub raw: String,
    pub event: Option<Event>,
}

/// What to do with a frame that the client sent while relaying.
pub enum OutboundAction {
    /// Publish this text, unchanged, to the counterpart.
    Publish(String),
    /// Drop the frame and go on.
    Ignore,
    /// Send this envelope to the client, then end the session.
    Reject(Event),
    /// End the session.
    Stop,
}

/// What a receive on a subscription gave.
pub enum RecvOutcome {
    /// A message.
    Message(String),
    /// This many messages were dropped from the buffer before being read.
    Lagged(u64),
    /// The topic is gone and everything it buffered has been read.
    Closed,
}

/// What to do with what a subscription gave.
pub enum InboundAction {
    /// Send this text to the client.
    Deliver(String),
    /// Receive again.
    Skip,
    /// End the session.
    Stop,
}

/// The step of the handshake that a session takes.
pub enum HandshakeAction {
    /// Send this envelope to the client: the handshake is over.
    Emit(Event),
    /// Wait for a message on the notification topic.
    Wait,
    /// End the session.
    Stop,
}

/// The reply to a first frame that is not a passphrase.
pub open spec fn not_a_passphrase() -> Seq<char> {
    "Expected a passphrase."@
}

/// The reply to an empty passphrase.
pub open spec fn empty_passphrase() -> Seq<char> {
    "Empty passphrase."@
}

/// The reply to a frame that does not decode.
pub open spec fn malformed_message() -> Seq<char> {
    "Malformed message."@
}

/// The role that the outcome of a claim gives.
pub open spec fn role_of_claim(claimed: bool) -> Role {
    if claimed {
        Role::Initiator
    } else {
        Role::Responder
    }
}

/// The three topics of a session, in the order they are registered: its
/// own, its counterpart's, and the notification topic.
pub open spec fn session_topics(passphrase: Seq<char>, role: Role) -> Seq<Seq<char>> {
    seq![
        role_topic(passphrase, role),
        role_topic(passphrase, opposite_role(role)),
        notification_topic(passphrase),
    ]
}

/// The abstract state of a session.
pub struct SessionView {
    /// The passphrase, once the client has given one.
    pub passphrase: Option<Seq<char>>,
    /// The role, once the passphrase has been claimed or found claimed.
    pub role: Option<Role>,
    /// The topics to delete at teardown.
    pub channels: Seq<Seq<char>>,
}

/// The store after a session's teardown: the claim on its passphrase is
/// gone if it had a role, and so is each topic it registered.
pub open spec fn teardown_spec(s: StoreView, v: SessionView) -> StoreView {
    StoreView {
        claims: match (v.role, v.passphrase) {
            (Some(_), Some(p)) => s.claims.remove(p),
            _ => s.claims,
        },
        topics: Map::new(
            |t: Seq<char>| s.topics.dom().contains(t) && !v.channels.contains(t),
            |t: Seq<char>| s.topics[t],
        ),
        ..s
    }
}

/// The outcome of role assignment: the role, and for the initiator the
/// subscription to the notification topic on which it awaits the responder.
pub struct RoleAssignment {
    pub role: Role,
    pub notification: Option<Receiver<String>>,
}

/// The server side of one connection.
pub struct Session {
    passphrase: Option<String>,
    role: Option<Role>,
    channels: Vec<String>,
}

impl View for Session {
    type V = SessionView;

    closed spec fn view(&self) -> SessionView {
        SessionView {
            passphrase: match self.passphrase {
                Some(p) => Some(p@),
                None => None,
            },
            role: self.role,
            channels: self.channels@.map_values(|c: String| c@),
        }
    }
}

impl Session {
    /// The session's invariant: topics are registered only once a role is
    /// assigned, and then they are the three topics of that role.
    pub closed spec fn wf(&self) -> bool {
        match self.role {
            Some(r) => match self.passphrase {
                Some(p) => self@.channels == session_topics(p@, r),
                None => false,
            },
            None => self.channels@.len() == 0,
        }
    }

    /// A session that awaits its passphrase.
    pub fn new() -> (r: Session)
        ensures
            r.wf(),
            r@.passphrase is None,
            r@.role is None,
            r@.channels.len() == 0,
    {
        Session { passphrase: None, role: None, channels: Vec::new() }
    }

    /// Takes the client's first frame, `None` where it did not decode. A
    /// non-empty passphrase is recorded and returned; anything else gives the
    /// error envelope to send before the session ends, and records nothing.
    pub fn passphrase(&mut self, first: Option<Event>) -> (r: Result<String, Event>)
        requires
            old(self).wf(),
            old(self)@.passphrase is None,
        ensures
            final(self).wf(),
            match first {
                Some(Event::Passphrase(p)) => if p@.len() > 0 {
                    &&& r matches Ok(q) && q@ == p@
                    &&& final(self)@ == (SessionView { passphrase: Some(p@), ..old(self)@ })
                } else {
                    &&& r matches Err(Event::Error(m)) && m@ == empty_passphrase()
                    &&& final(self)@ == old(self)@
                },
                _ => {
                    &&& r matches Err(Event::Error(m)) && m@ == not_a_passphrase()
                    &&& final(self)@ == old(self)@
                },
            },
    {
        match first {
            Some(Event::Passphrase(p)) => {
                if p.as_str().is_empty() {
                    Err(Event::Error(String::from_str("Empty passphrase.")))
                } else {
                    self.passphrase = Some(p.clone());
                    Ok(p)
                }
            },
            _ => Err(Event::Error(String::from_str("Expected a passphrase."))),
        }
    }

    /// Claims the session's passphrase and so assigns its role: initiator if
    /// this call made the claim, responder if it was held. Registers the
    /// session's three topics for teardown. The initiator subscribes to the
    /// notification topic in the same step as its claim, so that the
    /// responder, which can only find the claim after it, cannot notify
    /// before the initiator listens.
    pub fn role(&mut self, store: &mut Store) -> (r: RoleAssignment)
        requires
            old(self).wf(),
            old(self)@.passphrase is Some,
            old(self)@.role is None,
            old(store).wf(),
        ensures
            final(self).wf(),
            final(store).wf(),
            ({
                let p = old(self)@.passphrase->Some_0;
                let (claimed_store, claimed) = claim_spec(old(store)@, p);
                &&& r.role == role_of_claim(claimed)
                &&& final(self)@ == (SessionView {
                    role: Some(r.role),
                    channels: session_topics(p, r.role),
                    ..old(self)@
                })
                &&& if claimed {
                    touched(claimed_store, final(store)@, notification_topic(p))
                } else {
                    final(store)@ == claimed_store
                }
                &&& (r.notification is Some <==> claimed)
                &&& (r.notification matches Some(rx) ==> {
                    &&& receiver_channel(rx) == final(store)@.topics[notification_topic(p)].channel
                    &&& receiver_next(rx) == final(store)@.topics[notification_topic(p)].sent.len()
                })
            }),
    {
        let p = match &self.passphrase {
            Some(p) => p.clone(),
            None => String::new(),
        };
        let claimed = store.claim_if_absent(p.clone());
        let role = if claimed {
            Role::Initiator
        } else {
            Role::Responder
        };
        let own = channel_name(p.clone(), &role);
        let other = channel_name(p.clone(), &role.opposite());
        let notification = notification_channel_name(&p);
        let notification_rx = if claimed {
            Some(store.subscribe(notification.clone()))
        } else {
            None
        };
        self.channels.push(own);
        self.channels.push(other);
        self.channels.push(notification);
        self.role = Some(role);
        assert(self@.channels =~= session_topics(p@, role));
        RoleAssignment { role, notification: notification_rx }
    }

    proof fn lemma_channels(&self)
        requires
            self.wf(),
            self@.role is Some,
        ensures
            self.channels@.len() == 3,
            self.channels@[0]@ == role_topic(self@.passphrase->Some_0, self@.role->Some_0),
            self.channels@[1]@ == role_topic(
                self@.passphrase->Some_0,
                opposite_role(self@.role->Some_0),
            ),
            self.channels@[2]@ == notification_topic(self@.passphrase->Some_0),
    {
        assert(self@.channels.len() == 3);
        assert(self@.channels[0] == self.channels@[0]@);
        assert(self@.channels[1] == self.channels@[1]@);
        assert(self@.channels[2] == self.channels@[2]@);
    }

    /// Starts the inbound relay: subscribes to the counterpart's topic. The
    /// receiver yields what the counterpart publishes from now on.
    pub fn exchange_messages(&self, store: &mut Store) -> (r: Receiver<String>)
        requires
            self.wf(),
            self@.role is Some,
            old(store).wf(),
        ensures
            final(store).wf(),
            ({
                let t = role_topic(self@.passphrase->Some_0, opposite_role(self@.role->Some_0));
                &&& touched(old(store)@, final(store)@, t)
                &&& receiver_channel(r) == final(store)@.topics[t].channel
                &&& receiver_next(r) == final(store)@.topics[t].sent.len()
            }),
    {
        proof { self.lemma_channels(); }
        store.subscribe(self.channels[1].clone())
    }

    /// Publishes a frame of the outbound relay, unchanged, on the session's
    /// own topic. Returns the number of subscribers that it reached, 0 where
    /// the topic did not exist yet.
    pub fn publish(&self, store: &mut Store, payload: String) -> (r: usize)
        requires
            self.wf(),
            self@.role is Some,
            old(store).wf(),
        ensures
            final(store).wf(),
            ({
                let t = role_topic(self@.passphrase->Some_0, self@.role->Some_0);
                if old(store)@.topics.dom().contains(t) {
                    published(old(store)@, final(store)@, t, payload@, r)
                } else {
                    r == 0 && touched(old(store)@, final(store)@, t)
                }
            }),
    {
        proof { self.lemma_channels(); }
        store.publish(&self.channels[0], payload)
    }

    /// The session's side of the handshake. The responder publishes an empty
    /// message on the notification topic and may announce its role at once;
    /// the initiator waits for that message.
    pub fn notify(&self, store: &mut Store) -> (r: HandshakeAction)
        requires
            self.wf(),
            self@.role is Some,
            old(store).wf(),
        ensures
            final(store).wf(),
            match self@.role->Some_0 {
                Role::Responder => {
                    let t = notification_topic(self@.passphrase->Some_0);
                    &&& r == HandshakeAction::Emit(Event::Role(Role::Responder))
                    &&& if old(store)@.topics.dom().contains(t) {
                        exists|n: usize| published(old(store)@, final(store)@, t, Seq::empty(), n)
                    } else {
                        touched(old(store)@, final(store)@, t)
                    }
                },
                Role::Initiator => {
                    &&& r is Wait
                    &&& final(store)@ == old(store)@
                },
            },
    {
        proof { self.lemma_channels(); }
        match self.role {
            Some(Role::Responder) => {
                let ghost before = store@;
                let n = store.publish(&self.channels[2], String::new());
                proof {
                    if before.topics.dom().contains(self.channels@[2]@) {
                        assert(published(before, store@, self.channels@[2]@, Seq::empty(), n));
                    }
                }
                HandshakeAction::Emit(Event::Role(Role::Responder))
            },
            _ => HandshakeAction::Wait,
        }
    }

    /// Ends the session: removes the claim on its passphrase, if it made or
    /// found one, and every topic it registered. Each removal is idempotent,
    /// so a second teardown leaves the store as the first did.
    pub fn teardown(&self, store: &mut Store)
        requires
            self.wf(),
            old(store).wf(),
        ensures
            final(store).wf(),
            final(store)@ == teardown_spec(old(store)@, self@),
    {
        if let Some(_) = self.role {
            if let Some(p) = &self.passphrase {
                store.delete(p);
            }
        }
        let ghost cleared = store@;
        let mut i: usize = 0;
        while i < self.channels.len()
            invariant
                self.wf(),
                i <= self@.channels.len(),
                store.wf(),
                store@.capacity == cleared.capacity,
                store@.claims == cleared.claims,
                store@.topics == Map::new(
                    |t: Seq<char>| cleared.topics.dom().contains(t) && !self@.channels.subrange(
                        0,
                        i as int,
                    ).contains(t),
                    |t: Seq<char>| cleared.topics[t],
                ),
            decreases self@.channels.len() - i,
        {
            let ghost before = store@;
            store.delete_topic(&self.channels[i]);
            proof {
                let chans = self@.channels;
                let c = chans[i as int];
                assert(chans.subrange(0, i + 1) =~= chans.subrange(0, i as int).push(c));
                assert forall|t: Seq<char>|
                    #![auto]
                    chans.subrange(0, i + 1).contains(t) <==> (chans.subrange(0, i as int).contains(t) || t == c) by {
                    let w = chans.subrange(0, i as int);
                    if w.contains(t) {
                        let k = choose|k: int| 0 <= k < w.len() && w[k] == t;
                        assert(w.push(c)[k] == t);
                    }
                    if t == c {
                        assert(w.push(c)[w.len() as int] == t);
                    }
                    if w.push(c).contains(t) {
                        let k = choose|k: int| 0 <= k < w.push(c).len() && w.push(c)[k] == t;
                        if k < w.len() {
                            assert(w[k] == t);
                        }
                    }
                }
                assert(store@.topics =~= Map::new(
                    |t: Seq<char>| cleared.topics.dom().contains(t) && !chans.subrange(0, i + 1).contains(t),
                    |t: Seq<char>| cleared.topics[t],
                ));
            }
            i = i + 1;
        }
        proof {
            assert(self@.channels.subrange(0, i as int) =~= self@.channels);
            assert(store@.topics =~= teardown_spec(old(store)@, self@).topics);
            assert(store@.claims =~= teardown_spec(old(store)@, self@).claims);
        }
    }

    /// Whether the session still awaits its passphrase.
    pub fn awaits_passphrase(&self) -> (r: bool)
        ensures
            r == (self@.passphrase is None),
    {
        self.passphrase.is_none()
    }

    /// The session's role, once assigned.
    pub fn assigned_role(&self) -> (r: Option<Role>)
        ensures
            r == self@.role,
    {
        self.role
    }
}

/// Decides what to do with what the client sent while relaying, `None` once
/// the connection has closed. Offers, answers and ICE candidates are relayed
/// as they arrived; a `CloseConnection` envelope or a closed connection ends
/// the session; a frame that does not decode is answered with an error, which
/// ends it too; the other envelopes are not relayed.
pub fn outbound_step(frame: Option<Inbound>) -> (r: OutboundAction)
    ensures
        match frame {
            None => r is Stop,
            Some(f) => match f.event {
                Some(Event::Offer(_)) => r == OutboundAction::Publish(f.raw),
                Some(Event::Answer(_)) => r == OutboundAction::Publish(f.raw),
                Some(Event::IceCandidate(_)) => r == OutboundAction::Publish(f.raw),
                Some(Event::CloseConnection) => r is Stop,
                Some(_) => r is Ignore,
                None => r matches OutboundAction::Reject(Event::Error(m)) && m@
                    == malformed_message(),
            },
        },
{
    match frame {
        None => OutboundAction::Stop,
        Some(f) => match f.event {
            Some(Event::Offer(_)) => OutboundAction::Publish(f.raw),
            Some(Event::Answer(_)) => OutboundAction::Publish(f.raw),
            Some(Event::IceCandidate(_)) => OutboundAction::Publish(f.raw),
            Some(Event::CloseConnection) => OutboundAction::Stop,
            Some(_) => OutboundAction::Ignore,
            None => OutboundAction::Reject(Event::Error(String::from_str("Malformed message."))),
        },
    }
}

/// Decides what to do with what the subscription to the counterpart's topic
/// gave: a message goes to the client; after messages were dropped from the
/// buffer the relay goes on with the oldest one kept; a closed topic ends the
/// session.
pub fn inbound_step(outcome: RecvOutcome) -> (r: InboundAction)
    ensures
        match outcome {
            RecvOutcome::Message(m) => r == InboundAction::Deliver(m),
            RecvOutcome::Lagged(_) => r is Skip,
            RecvOutcome::Closed => r is Stop,
        },
{
    match outcome {
        RecvOutcome::Message(m) => InboundAction::Deliver(m),
        RecvOutcome::Lagged(_) => InboundAction::Skip,
        RecvOutcome::Closed => InboundAction::Stop,
    }
}

/// Decides the handshake from what the notification subscription gave: any
/// message, or news that messages were dropped, means that the counterpart
/// has notified, and the role is announced; a closed topic ends the session.
pub fn handshake_step(role: Role, outcome: &RecvOutcome) -> (r: HandshakeAction)
    ensures
        match outcome {
            RecvOutcome::Closed => r is Stop,
            _ => r == HandshakeAction::Emit(Event::Role(role)),
        },
{
    match outcome {
        RecvOutcome::Closed => HandshakeAction::Stop,
        _ => HandshakeAction::Emit(Event::Role(role)),
    }
}

/// Two sessions that bring the same passphrase, which no one holds, get
/// different roles, whichever of them claims it first: one is the initiator
/// and the other the responder.
pub proof fn lemma_single_initiator(s: StoreView, passphrase: Seq<char>)
    requires
        !s.claims.contains(passphrase),
    ensures
        ({
            let (after_first, first) = claim_spec(s, passphrase);
            let (_, second) = claim_spec(after_first, passphrase);
            &&& role_of_claim(first) != role_of_claim(second)
            &&& (role_of_claim(first) == Role::Initiator || role_of_claim(second) == Role::Initiator)
        }),
{
}

/// After the teardown of a session that has a role, the store holds neither
/// the claim on its passphrase nor any of its three topics.
pub proof fn lemma_teardown_clears(s: StoreView, v: SessionView)
    requires
        v.passphrase is Some,
        v.role is Some,
        v.channels == session_topics(v.passphrase->Some_0, v.role->Some_0),
    ensures
        ({
            let p = v.passphrase->Some_0;
            let r = v.role->Some_0;
            let t = teardown_spec(s, v);
            &&& !t.claims.contains(p)
            &&& !t.topics.dom().contains(role_topic(p, r))
            &&& !t.topics.dom().contains(role_topic(p, opposite_role(r)))
            &&& !t.topics.dom().contains(notification_topic(p))
        }),
{
    let p = v.passphrase->Some_0;
    let r = v.role->Some_0;
    assert(v.channels[0] == role_topic(p, r));
    assert(v.channels[1] == role_topic(p, opposite_role(r)));
    assert(v.channels[2] == notification_topic(p));
}

/// Tearing a session down twice leaves the store as tearing it down once.
pub proof fn lemma_teardown_idempotent(s: StoreView, v: SessionView)
    ensures
        teardown_spec(teardown_spec(s, v), v) == teardown_spec(s, v),
{
    let once = teardown_spec(s, v);
    let twice = teardown_spec(once, v);
    assert(twice.claims =~= once.claims);
    assert(twice.topics =~= once.topics);
}

/// What a session publishes on its own topic is appended to the channel of
/// the topic that a session of the opposite role subscribes to for its
/// inbound relay, unchanged.
pub proof fn lemma_relay_reaches_counterpart(
    before: StoreView,
    after: StoreView,
    passphrase: Seq<char>,
    role: Role,
    payload: Seq<char>,
    count: usize,
)
    requires
        before.topics.dom().contains(role_topic(passphrase, role)),
        published(before, after, role_topic(passphrase, role), payload, count),
        count > 0,
    ensures
        ({
            let inbound = role_topic(passphrase, opposite_role(opposite_role(role)));
            &&& after.topics[inbound].channel == before.topics[inbound].channel
            &&& after.topics[inbound].sent == before.topics[inbound].sent.push(payload)
        }),
{
}

} // verus!
