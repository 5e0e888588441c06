//! The rendezvous store: a table of claimed passphrases and a table of
//! publish/subscribe topics, each topic a bounded broadcast channel.
//!
//! Every operation takes the store by reference; a process shares one store
//! between its sessions by guarding it with a mutex, so that each operation
//! is one critical section.

use tokio::sync::broadcast::{Receiver, Sender};
use vstd::prelude::*;

verus! {

#[verifier::external_type_specification]
#[verifier::external_body]
#[verifier::reject_recursive_types(T)]
pub struct ExSender<T>(Sender<T>);

#[verifier::external_type_specification]
#[verifier::external_body]
#[verifier::reject_recursive_types(T)]
pub struct ExReceiver<T>(Receiver<T>);

/// Every value handed to `send` through this sender, in order, whether or
/// not the channel accepted it.
pub uninterp spec fn handed(s: Sender<String>) -> Seq<Seq<char>>;

/// The messages that a broadcast channel has accepted through this sender,
/// in order: one for each `send` that found a receiver.
pub uninterp spec fn accepted(s: Sender<String>) -> Seq<Seq<char>>;

/// The identity of the channel that a sender sends on.
pub uninterp spec fn sender_channel(s: Sender<String>) -> int;

/// The identity of the channel that a receiver reads from.
pub uninterp spec fn receiver_channel(r: Receiver<String>) -> int;

/// The position in its channel's sequence of accepted messages that a
/// receiver reads next.
pub uninterp spec fn receiver_next(r: Receiver<String>) -> nat;

/// The number of messages a channel buffers before it drops the oldest.
pub uninterp spec fn buffer_size(s: Sender<String>) -> nat;

/// `p` doubled until it reaches `n`.
pub open spec fn double_until(n: nat, p: nat) -> nat
    decreases n - p,
{
    if p == 0 || p >= n {
        p
    } else if p * 2 >= n {
        p * 2
    } else {
        double_until(n, p * 2)
    }
}

/// The least power of two that is at least `n`.
pub open spec fn round_up_pow2(n: nat) -> nat {
    double_until(n, 1)
}

/// Relies on tokio's `broadcast::Sender::new`: a channel without receivers
/// that has accepted nothing, and buffers `capacity` rounded up to a power of
/// two (the source rounds with `next_power_of_two`), dropping the oldest. It
/// panics on a capacity of zero or above `usize::MAX / 2`.
#[verifier::external_body]
fn open_channel(capacity: usize) -> (r: Sender<String>)
    requires
        0 < capacity <= usize::MAX / 2,
    ensures
        handed(r) == Seq::<Seq<char>>::empty(),
        accepted(r) == Seq::<Seq<char>>::empty(),
        buffer_size(r) == round_up_pow2(capacity as nat),
{
    Sender::new(capacity)
}

/// Relies on tokio's `broadcast::Sender::subscribe`: a new receiver on the
/// sender's channel, whose read position is the channel's tail, so that it
/// sees the messages accepted after this call. It panics only once a channel
/// holds `usize::MAX >> 2` receivers, more than a process can allocate.
#[verifier::external_body]
fn subscribe_to(sender: &Sender<String>) -> (r: Receiver<String>)
    ensures
        receiver_channel(r) == sender_channel(*sender),
        receiver_next(r) == accepted(*sender).len(),
{
    sender.subscribe()
}

/// Relies on tokio's `broadcast::Sender::send`: with at least one receiver
/// the channel accepts the value and the call returns the number of
/// receivers; with none the value comes back and the channel is unchanged.
#[verifier::external_body]
fn send_to(sender: &mut Sender<String>, value: String) -> (r: Option<usize>)
    ensures
        sender_channel(*final(sender)) == sender_channel(*old(sender)),
        buffer_size(*final(sender)) == buffer_size(*old(sender)),
        handed(*final(sender)) == handed(*old(sender)).push(value@),
        match r {
            Some(n) => n >= 1 && accepted(*final(sender)) == accepted(*old(sender)).push(value@),
            None => accepted(*final(sender)) == accepted(*old(sender)),
        },
{
    sender.send(value).ok()
}

/// The default number of messages a topic buffers.
pub const DEFAULT_CAPACITY: usize = 1024;

/// The abstract state of a topic: its channel, the messages published on it,
/// those of them the channel accepted, and how many it buffers.
pub struct TopicView {
    pub channel: int,
    pub handed: Seq<Seq<char>>,
    pub sent: Seq<Seq<char>>,
    pub buffer: nat,
}

/// The abstract state of a store: the claimed passphrases, the live topics
/// by name, and the buffer size of each new topic.
pub struct StoreView {
    pub capacity: nat,
    pub claims: Set<Seq<char>>,
    pub topics: Map<Seq<char>, TopicView>,
}

/// Claiming `key`: the new state, and whether this call made the claim.
pub open spec fn claim_spec(s: StoreView, key: Seq<char>) -> (StoreView, bool) {
    if s.claims.contains(key) {
        (s, false)
    } else {
        (StoreView { claims: s.claims.insert(key), ..s }, true)
    }
}

/// Deleting the claim on `key`: the new state, and how many claims went.
pub open spec fn delete_spec(s: StoreView, key: Seq<char>) -> (StoreView, usize) {
    (StoreView { claims: s.claims.remove(key), ..s }, if s.claims.contains(key) { 1 } else { 0 })
}

/// Deleting the topic `topic`: the new state, and how many topics went.
pub open spec fn delete_topic_spec(s: StoreView, topic: Seq<char>) -> (StoreView, usize) {
    (
        StoreView { topics: s.topics.remove(topic), ..s },
        if s.topics.dom().contains(topic) { 1 } else { 0 },
    )
}

/// `after` is `before` once `topic` has been referred to: an existing topic
/// is kept as it was; a missing one is created on a new channel that has
/// accepted nothing and buffers the store's capacity.
pub open spec fn touched(before: StoreView, after: StoreView, topic: Seq<char>) -> bool {
    if before.topics.dom().contains(topic) {
        after == before
    } else {
        &&& after.capacity == before.capacity
        &&& after.claims == before.claims
        &&& after.topics == before.topics.insert(topic, after.topics[topic])
        &&& after.topics[topic].handed == Seq::<Seq<char>>::empty()
        &&& after.topics[topic].sent == Seq::<Seq<char>>::empty()
        &&& after.topics[topic].buffer == before.capacity
    }
}

/// `after` is `before` once `message` was published on the existing topic
/// `topic`, and the channel reported `count` receivers: the message is
/// handed to the topic's channel, and with at least one receiver it is
/// appended to what the channel accepted.
pub open spec fn published(before: StoreView, after: StoreView, topic: Seq<char>, message: Seq<char>, count: usize) -> bool {
    let t = before.topics[topic];
    &&& after.capacity == before.capacity
    &&& after.claims == before.claims
    &&& after.topics == before.topics.insert(
        topic,
        TopicView {
            handed: t.handed.push(message),
            sent: if count > 0 { t.sent.push(message) } else { t.sent },
            ..t
        },
    )
}

/// The keys held by a vector of strings.
pub open spec fn keys_of(v: Seq<String>) -> Set<Seq<char>> {
    Set::new(|k: Seq<char>| exists|i: int| 0 <= i < v.len() && v[i]@ == k)
}

/// No two strings of `v` are equal.
pub open spec fn distinct_keys(v: Seq<String>) -> bool {
    forall|i: int, j: int| 0 <= i < v.len() && 0 <= j < v.len() && i != j ==> v[i]@ != v[j]@
}

proof fn lemma_push_key(v: Seq<String>, x: String)
    requires
        distinct_keys(v),
        !keys_of(v).contains(x@),
    ensures
        distinct_keys(v.push(x)),
        keys_of(v.push(x)) == keys_of(v).insert(x@),
{
    let w = v.push(x);
    assert forall|k: Seq<char>| keys_of(w).contains(k) <==> keys_of(v).insert(x@).contains(k) by {
        if keys_of(v).contains(k) {
            let i = choose|i: int| 0 <= i < v.len() && v[i]@ == k;
            assert(w[i]@ == k);
        }
        if k == x@ {
            assert(w[v.len() as int]@ == k);
        }
    }
    assert(keys_of(w) =~= keys_of(v).insert(x@));
    assert forall|i: int, j: int| 0 <= i < w.len() && 0 <= j < w.len() && i != j implies w[i]@ != w[j]@ by {
        if i == v.len() {
            assert(keys_of(v).contains(w[j]@));
        } else if j == v.len() {
            assert(keys_of(v).contains(w[i]@));
        }
    }
}

proof fn lemma_remove_key(v: Seq<String>, i: int)
    requires
        distinct_keys(v),
        0 <= i < v.len(),
    ensures
        distinct_keys(v.remove(i)),
        keys_of(v.remove(i)) == keys_of(v).remove(v[i]@),
{
    let w = v.remove(i);
    assert forall|k: Seq<char>| keys_of(w).contains(k) <==> keys_of(v).remove(v[i]@).contains(k) by {
        if keys_of(w).contains(k) {
            let j = choose|j: int| 0 <= j < w.len() && w[j]@ == k;
            if j < i {
                assert(v[j]@ == k);
            } else {
                assert(v[j + 1]@ == k);
            }
        }
        if keys_of(v).remove(v[i]@).contains(k) {
            let j = choose|j: int| 0 <= j < v.len() && v[j]@ == k;
            assert(j != i);
            if j < i {
                assert(w[j]@ == k);
            } else {
                assert(w[j - 1]@ == k);
            }
        }
    }
    assert(keys_of(w) =~= keys_of(v).remove(v[i]@));
}

/// The index of `key` in `v`, if it is there.
fn position(v: &Vec<String>, key: &String) -> (r: Option<usize>)
    ensures
        match r {
            Some(i) => i < v@.len() && v@[i as int]@ == key@,
            None => !keys_of(v@).contains(key@),
        },
{
    let mut i: usize = 0;
    while i < v.len()
        invariant
            i <= v@.len(),
            forall|j: int| 0 <= j < i ==> v@[j]@ != key@,
        decreases v@.len() - i,
    {
        if v[i] == *key {
            return Some(i);
        }
        i = i + 1;
    }
    None
}

/// A topic: its name and the sending half of its broadcast channel.
pub struct Topic {
    name: String,
    sender: Sender<String>,
}

/// The names of a table of topics.
spec fn topic_names(v: Seq<Topic>) -> Seq<String> {
    v.map_values(|t: Topic| t.name)
}

proof fn lemma_topic_names_push(v: Seq<Topic>, t: Topic)
    ensures
        topic_names(v.push(t)) == topic_names(v).push(t.name),
{
    assert(topic_names(v.push(t)) =~= topic_names(v).push(t.name));
}

proof fn lemma_topic_names_remove(v: Seq<Topic>, i: int)
    requires
        0 <= i < v.len(),
    ensures
        topic_names(v.remove(i)) == topic_names(v).remove(i),
{
    assert(topic_names(v.remove(i)) =~= topic_names(v).remove(i));
}

/// The abstract state of one topic's channel.
spec fn topic_view(t: Topic) -> TopicView {
    TopicView {
        channel: sender_channel(t.sender),
        handed: handed(t.sender),
        sent: accepted(t.sender),
        buffer: buffer_size(t.sender),
    }
}

/// The claim table and the topic table.
pub struct Store {
    requested: usize,
    capacity: usize,
    claims: Vec<String>,
    topics: Vec<Topic>,
    model: Ghost<Map<Seq<char>, TopicView>>,
}

impl View for Store {
    type V = StoreView;

    closed spec fn view(&self) -> StoreView {
        StoreView {
            capacity: self.capacity as nat,
            claims: keys_of(self.claims@),
            topics: self.model@,
        }
    }
}

impl Store {
    /// The store's invariant: the capacity is one that a channel accepts,
    /// rounded up as the channel rounds it; no key or topic name is held
    /// twice; and the model of each topic is the state of its channel.
    pub closed spec fn wf(&self) -> bool {
        &&& 0 < self.requested <= usize::MAX / 2
        &&& self.capacity == round_up_pow2(self.requested as nat)
        &&& distinct_keys(self.claims@)
        &&& distinct_keys(topic_names(self.topics@))
        &&& self.model@.dom() == keys_of(topic_names(self.topics@))
        &&& forall|i: int|
            0 <= i < self.topics@.len() ==> #[trigger] self.model@[self.topics@[i].name@]
                == topic_view(self.topics@[i])
        &&& forall|i: int|
            0 <= i < self.topics@.len() ==> buffer_size(#[trigger] self.topics@[i].sender)
                == self.capacity
    }

    /// A store with no claims and no topics, whose topics buffer
    /// `DEFAULT_CAPACITY` messages.
    pub fn new() -> (r: Store)
        ensures
            r.wf(),
            r@.capacity == DEFAULT_CAPACITY,
            r@.claims == Set::<Seq<char>>::empty(),
            r@.topics == Map::<Seq<char>, TopicView>::empty(),
    {
        let r = Store::with_capacity(DEFAULT_CAPACITY);
        assert(round_up_pow2(DEFAULT_CAPACITY as nat) == DEFAULT_CAPACITY) by {
            reveal_with_fuel(double_until, 12);
        }
        r
    }

    /// A store with no claims and no topics, whose topics buffer `capacity`
    /// messages rounded up to a power of two, as their channels do.
    pub fn with_capacity(capacity: usize) -> (r: Store)
        requires
            0 < capacity <= usize::MAX / 2,
        ensures
            r.wf(),
            r@.capacity == round_up_pow2(capacity as nat),
            r@.claims == Set::<Seq<char>>::empty(),
            r@.topics == Map::<Seq<char>, TopicView>::empty(),
    {
        let mut rounded: usize = 1;
        while rounded < capacity
            invariant
                1 <= rounded,
                0 < capacity <= usize::MAX / 2,
                double_until(capacity as nat, rounded as nat) == round_up_pow2(capacity as nat),
            decreases usize::MAX - rounded,
        {
            rounded = rounded * 2;
        }
        let r = Store {
            requested: capacity,
            capacity: rounded,
            claims: Vec::new(),
            topics: Vec::new(),
            model: Ghost(Map::empty()),
        };
        assert(r@.claims =~= Set::<Seq<char>>::empty());
        assert(keys_of(topic_names(r.topics@)) =~= Set::<Seq<char>>::empty());
        r
    }

    /// Claims `key` if no one holds it, in one step. Returns whether this
    /// call made the claim: the caller that gets `true` is the initiator, one
    /// that gets `false` the responder.
    pub fn claim_if_absent(&mut self, key: String) -> (r: bool)
        requires
            old(self).wf(),
        ensures
            final(self).wf(),
            (final(self)@, r) == claim_spec(old(self)@, key@),
    {
        match position(&self.claims, &key) {
            Some(_) => false,
            None => {
                proof { lemma_push_key(self.claims@, key); }
                self.claims.push(key);
                true
            },
        }
    }

    /// Removes the claim on `key`. Returns the number of claims removed, 1 or
    /// 0.
    pub fn delete(&mut self, key: &String) -> (r: usize)
        requires
            old(self).wf(),
        ensures
            final(self).wf(),
            (final(self)@, r) == delete_spec(old(self)@, key@),
    {
        match position(&self.claims, key) {
            Some(i) => {
                proof {
                    lemma_remove_key(self.claims@, i as int);
                    assert(self.claims@[i as int]@ == key@);
                    assert(keys_of(self.claims@).contains(key@));
                }
                self.claims.remove(i);
                1
            },
            None => {
                assert(self@.claims.remove(key@) =~= self@.claims);
                0
            },
        }
    }

    /// Whether someone holds the claim on `key`.
    pub fn is_claimed(&self, key: &String) -> (r: bool)
        requires
            self.wf(),
        ensures
            r == self@.claims.contains(key@),
    {
        match position(&self.claims, key) {
            Some(i) => {
                assert(keys_of(self.claims@).contains(key@)) by {
                    assert(self.claims@[i as int]@ == key@);
                }
                true
            },
            None => false,
        }
    }

    /// Whether the topic `topic` exists.
    pub fn has_topic(&self, topic: &String) -> (r: bool)
        requires
            self.wf(),
        ensures
            r == self@.topics.dom().contains(topic@),
    {
        match self.topic_position(topic) {
            Some(i) => {
                assert(keys_of(topic_names(self.topics@)).contains(topic@)) by {
                    assert(topic_names(self.topics@)[i as int]@ == topic@);
                }
                true
            },
            None => false,
        }
    }

    /// The number of messages each new topic buffers.
    pub fn capacity(&self) -> (r: usize)
        ensures
            r == self@.capacity,
    {
        self.capacity
    }

    fn topic_position(&self, name: &String) -> (r: Option<usize>)
        requires
            self.wf(),
        ensures
            match r {
                Some(i) => i < self.topics@.len() && self.topics@[i as int].name@ == name@,
                None => !self@.topics.dom().contains(name@),
            },
    {
        let mut i: usize = 0;
        while i < self.topics.len()
            invariant
                i <= self.topics@.len(),
                forall|j: int| 0 <= j < i ==> self.topics@[j].name@ != name@,
            decreases self.topics@.len() - i,
        {
            if self.topics[i].name == *name {
                return Some(i);
            }
            i = i + 1;
        }
        proof {
            if keys_of(topic_names(self.topics@)).contains(name@) {
                let j = choose|j: int| 0 <= j < topic_names(self.topics@).len() && topic_names(self.topics@)[j]@ == name@;
                assert(self.topics@[j].name@ == name@);
            }
        }
        None
    }

    /// The index of the topic `name`, which is created on a new channel
    /// without receivers if it does not exist. Also returns whether it was
    /// created.
    fn touch(&mut self, name: &String) -> (r: (usize, bool))
        requires
            old(self).wf(),
        ensures
            final(self).wf(),
            touched(old(self)@, final(self)@, name@),
            r.0 < final(self).topics@.len(),
            final(self).topics@[r.0 as int].name@ == name@,
            r.1 == !old(self)@.topics.dom().contains(name@),
    {
        match self.topic_position(name) {
            Some(i) => {
                assert(keys_of(topic_names(self.topics@)).contains(name@)) by {
                    assert(topic_names(self.topics@)[i as int]@ == name@);
                }
                (i, false)
            },
            None => {
                let sender = open_channel(self.requested);
                let t = Topic { name: name.clone(), sender };
                let ghost old_topics = self.topics@;
                let ghost old_model = self.model@;
                proof {
                    lemma_topic_names_push(self.topics@, t);
                    lemma_push_key(topic_names(self.topics@), t.name);
                }
                self.topics.push(t);
                self.model = Ghost(old_model.insert(name@, topic_view(t)));
                proof {
                    assert forall|i: int| 0 <= i < self.topics@.len() implies #[trigger] self.model@[self.topics@[i].name@]
                        == topic_view(self.topics@[i]) by {
                        if i < old_topics.len() {
                            assert(topic_names(old_topics)[i] == old_topics[i].name);
                            assert(keys_of(topic_names(old_topics)).contains(old_topics[i].name@));
                            assert(old_topics[i].name@ != name@);
                        }
                    }
                    assert(self.model@.dom() =~= keys_of(topic_names(self.topics@)));
                    assert(self.model@ == old_model.insert(name@, self.model@[name@]));
                }
                (self.topics.len() - 1, true)
            },
        }
    }

    /// Subscribes to `topic`, creating it if it does not exist. The receiver
    /// reads from the topic's channel, starting after every message the
    /// channel has accepted so far: it sees what is published from now on,
    /// of which the channel buffers the newest `capacity` unread.
    pub fn subscribe(&mut self, topic: String) -> (r: Receiver<String>)
        requires
            old(self).wf(),
        ensures
            final(self).wf(),
            touched(old(self)@, final(self)@, topic@),
            receiver_channel(r) == final(self)@.topics[topic@].channel,
            receiver_next(r) == final(self)@.topics[topic@].sent.len(),
    {
        let (i, _) = self.touch(&topic);
        proof {
            assert(self.model@[self.topics@[i as int].name@] == topic_view(self.topics@[i as int]));
        }
        subscribe_to(&self.topics[i].sender)
    }

    /// Publishes `message` to every current subscriber of `topic`, creating
    /// the topic if it does not exist. On an existing topic the message is
    /// handed to its channel, which accepts it where it has a receiver, and
    /// the number of receivers is returned; otherwise the result is 0. A
    /// missing topic has no subscriber: it is created, and 0 returned.
    pub fn publish(&mut self, topic: &String, message: String) -> (r: usize)
        requires
            old(self).wf(),
        ensures
            final(self).wf(),
            old(self)@.topics.dom().contains(topic@) ==> published(
                old(self)@,
                final(self)@,
                topic@,
                message@,
                r,
            ),
            !old(self)@.topics.dom().contains(topic@) ==> r == 0 && touched(
                old(self)@,
                final(self)@,
                topic@,
            ),
    {
        let (i, created) = self.touch(topic);
        if created {
            // A channel that was just opened has no receiver.
            0
        } else {
            let ghost old_topics = self.topics@;
            let ghost old_model = self.model@;
            let ghost m = message@;
            let sent = send_to(&mut self.topics[i].sender, message);
            proof {
                assert(topic_names(self.topics@) =~= topic_names(old_topics));
            }
            self.model = Ghost(old_model.insert(topic@, topic_view(self.topics@[i as int])));
            proof {
                assert(old_model[topic@] == topic_view(old_topics[i as int]));
                assert forall|j: int| 0 <= j < self.topics@.len() implies #[trigger] self.model@[self.topics@[j].name@]
                    == topic_view(self.topics@[j]) by {
                    if j != i {
                        assert(topic_names(old_topics)[j]@ != topic_names(old_topics)[i as int]@);
                    }
                }
                assert forall|j: int| 0 <= j < self.topics@.len() implies buffer_size(#[trigger] self.topics@[j].sender)
                    == self.capacity by {
                    if j != i {
                        assert(self.topics@[j] == old_topics[j]);
                    } else {
                        assert(buffer_size(old_topics[j].sender) == self.capacity);
                    }
                }
                assert(self.model@.dom() =~= old_model.dom());
            }
            subscriber_count(sent)
        }
    }

    /// Removes the topic `topic`. Receivers already handed out keep what is
    /// buffered for them, but no later publish reaches them. Returns the
    /// number of topics removed, 1 or 0.
    pub fn delete_topic(&mut self, topic: &String) -> (r: usize)
        requires
            old(self).wf(),
        ensures
            final(self).wf(),
            (final(self)@, r) == delete_topic_spec(old(self)@, topic@),
    {
        match self.topic_position(topic) {
            Some(i) => {
                let ghost old_topics = self.topics@;
                let ghost old_model = self.model@;
                proof {
                    lemma_topic_names_remove(self.topics@, i as int);
                    lemma_remove_key(topic_names(self.topics@), i as int);
                    assert(topic_names(self.topics@)[i as int]@ == topic@);
                    assert(keys_of(topic_names(self.topics@)).contains(topic@));
                }
                self.topics.remove(i);
                self.model = Ghost(old_model.remove(topic@));
                proof {
                    assert forall|j: int| 0 <= j < self.topics@.len() implies #[trigger] self.model@[self.topics@[j].name@]
                        == topic_view(self.topics@[j]) by {
                        let k = if j < i { j } else { j + 1 };
                        assert(self.topics@[j] == old_topics[k]);
                        assert(topic_names(old_topics)[k]@ != topic_names(old_topics)[i as int]@);
                    }
                    assert forall|j: int| 0 <= j < self.topics@.len() implies buffer_size(#[trigger] self.topics@[j].sender)
                        == self.capacity by {
                        let k = if j < i { j } else { j + 1 };
                        assert(self.topics@[j] == old_topics[k]);
                    }
                    assert(self.model@.dom() =~= keys_of(topic_names(self.topics@)));
                }
                1
            },
            None => {
                assert(self@.topics.remove(topic@) =~= self@.topics);
                0
            },
        }
    }
}

/// The number of subscribers a send reached, from what the channel reported:
/// the count it gave, or 0 where it found no receiver.
pub fn subscriber_count(sent: Option<usize>) -> (r: usize)
    ensures
        r == match sent {
            Some(n) => n,
            None => 0,
        },
{
    match sent {
        Some(n) => n,
        None => 0,
    }
}

/// A claim holds until it is deleted: claiming a key a second time fails,
/// and after the key is deleted claiming it succeeds again.
pub proof fn lemma_claim_until_delete(s: StoreView, key: Seq<char>)
    ensures
        ({
            let (claimed, _) = claim_spec(s, key);
            &&& !claim_spec(claimed, key).1
            &&& claim_spec(delete_spec(claimed, key).0, key).1
        }),
{
}

/// Deleting a claim or a topic a second time removes nothing and changes
/// nothing.
pub proof fn lemma_delete_idempotent(s: StoreView, key: Seq<char>)
    ensures
        delete_spec(delete_spec(s, key).0, key) == (delete_spec(s, key).0, 0usize),
        delete_topic_spec(delete_topic_spec(s, key).0, key) == (delete_topic_spec(s, key).0, 0usize),
{
    assert(delete_spec(s, key).0.claims.remove(key) =~= delete_spec(s, key).0.claims);
    assert(delete_topic_spec(s, key).0.topics.remove(key) =~= delete_topic_spec(s, key).0.topics);
    assert(delete_spec(s, key).0.claims.remove(key) =~= delete_spec(s, key).0.claims);
}

/// A message published on a topic that has a receiver stays on the topic's
/// channel and is appended after everything the channel accepted before, so
/// a subscription taken before the publish, whose read position was the old
/// length, reads it next, and messages keep the order they were published in.
pub proof fn lemma_publish_reaches_subscribers(
    before: StoreView,
    after: StoreView,
    topic: Seq<char>,
    message: Seq<char>,
    count: usize,
)
    requires
        before.topics.dom().contains(topic),
        published(before, after, topic, message, count),
        count > 0,
    ensures
        after.topics[topic].channel == before.topics[topic].channel,
        after.topics[topic].sent.len() == before.topics[topic].sent.len() + 1,
        after.topics[topic].sent.subrange(0, before.topics[topic].sent.len() as int)
            == before.topics[topic].sent,
        after.topics[topic].sent[before.topics[topic].sent.len() as int] == message,
{
    assert(after.topics[topic].sent.subrange(0, before.topics[topic].sent.len() as int)
        =~= before.topics[topic].sent);
}

} // verus!
