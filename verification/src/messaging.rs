//! Publish/subscribe messaging: the broker's bookkeeping of subscriptions
//! and the deliveries a published message gives rise to.
use vstd::prelude::*;
use std::sync::mpsc::Sender;
use crate::env::{bytes_equal, copy_bytes, seqs, lemma_seqs_push};

verus! {

#[verifier::external_type_specification]
#[verifier::external_body]
#[verifier::reject_recursive_types(T)]
pub struct ExSender<T>(std::sync::mpsc::Sender<T>);

/// Sends out a message to all current subscribers of a topic.
pub trait Publisher: Sized {
    fn publish(&self, topic: &[u8], message: &[u8]);
}

/// Manages subscriptions: `subscribe` returns the identifier that
/// `unsubscribe` takes.
pub trait Subscriber: Sized {
    fn subscribe(&self, topic: &[u8], callback: u64) -> Vec<u8>;

    fn unsubscribe(&self, identifier: &[u8]);
}

/// Delivers a published message to a subscriber.
pub trait PublishedMessageCallback: Sized {
    fn call(&self, topic: &[u8], message: &[u8]);

    fn cloned(&self) -> Self;
}

/// Sends a topic and a message down a channel (`Sender::send`); whether
/// the other end still listens is not known here, and a failed send is
/// ignored.
#[verifier::external_body]
fn send_topic_message(sender: &Sender<(Vec<u8>, Vec<u8>)>, topic: &[u8], message: &[u8]) {
    let _ = sender.send((topic.to_vec(), message.to_vec()));
}

/// Another sender for the same channel (`Sender::clone`).
#[verifier::external_body]
fn clone_sender<T>(sender: &Sender<T>) -> Sender<T> {
    sender.clone()
}

impl PublishedMessageCallback for Sender<(Vec<u8>, Vec<u8>)> {
    fn call(&self, topic: &[u8], message: &[u8]) {
        send_topic_message(self, topic, message)
    }

    fn cloned(&self) -> Self {
        clone_sender(self)
    }
}

/// A published message.
pub struct Message {
    pub topic: Vec<u8>,
    pub body: Vec<u8>,
}

/// What the broker is asked to do. A subscriber's callback is named by a
/// number that the owner of the callbacks hands out.
pub enum SimpleControlMessage {
    Publish(Message),
    Subscribe { topic: Vec<u8>, callback: u64, identifier: Vec<u8> },
    Unsubscribe { identifier: Vec<u8> },
    Shutdown,
}

/// A control message with its bytes.
pub enum ControlModel {
    Publish(Seq<u8>, Seq<u8>),
    Subscribe(Seq<u8>, u64, Seq<u8>),
    Unsubscribe(Seq<u8>),
    Shutdown,
}

impl SimpleControlMessage {
    pub open spec fn model(&self) -> ControlModel {
        match self {
            SimpleControlMessage::Publish(m) => ControlModel::Publish(m.topic@, m.body@),
            SimpleControlMessage::Subscribe { topic, callback, identifier } => ControlModel::Subscribe(
                topic@,
                *callback,
                identifier@,
            ),
            SimpleControlMessage::Unsubscribe { identifier } => ControlModel::Unsubscribe(identifier@),
            SimpleControlMessage::Shutdown => ControlModel::Shutdown,
        }
    }
}

/// A message to hand to a subscriber's callback.
pub struct Delivery {
    pub callback: u64,
    pub topic: Vec<u8>,
    pub body: Vec<u8>,
}

impl Delivery {
    pub open spec fn model(&self) -> (u64, Seq<u8>, Seq<u8>) {
        (self.callback, self.topic@, self.body@)
    }
}

/// The broker's state: for each topic the identifiers subscribed to it,
/// in the order they came, and for each identifier its callback.
pub struct Simple {
    subscriptions: Vec<(Vec<u8>, Vec<Vec<u8>>)>,
    identifier_subscription: Vec<(Vec<u8>, u64)>,
}

pub struct SimpleModel {
    pub subscriptions: Seq<(Seq<u8>, Seq<Seq<u8>>)>,
    pub identifiers: Seq<(Seq<u8>, u64)>,
}

impl View for Simple {
    type V = SimpleModel;

    closed spec fn view(&self) -> SimpleModel {
        SimpleModel {
            subscriptions: self.subscriptions@.map_values(
                |p: (Vec<u8>, Vec<Vec<u8>>)| (p.0@, p.1@.map_values(|v: Vec<u8>| v@)),
            ),
            identifiers: self.identifier_subscription@.map_values(|p: (Vec<u8>, u64)| (p.0@, p.1)),
        }
    }
}

/// The index of the last key equal to `key`.
pub open spec fn find_in(keys: Seq<Seq<u8>>, key: Seq<u8>) -> Option<nat>
    decreases keys.len(),
{
    if keys.len() == 0 {
        None
    } else if keys.last() == key {
        Some((keys.len() - 1) as nat)
    } else {
        find_in(keys.drop_last(), key)
    }
}

pub proof fn lemma_find_in(keys: Seq<Seq<u8>>, key: Seq<u8>)
    ensures
        find_in(keys, key) matches Some(i) ==> i < keys.len() && keys[i as int] == key,
        find_in(keys, key) is None ==> forall|j: int| 0 <= j < keys.len() ==> keys[j] != key,
    decreases keys.len(),
{
    if keys.len() > 0 && keys.last() != key {
        lemma_find_in(keys.drop_last(), key);
        if find_in(keys, key) is None {
            assert forall|j: int| 0 <= j < keys.len() implies keys[j] != key by {
                if j < keys.len() - 1 {
                    assert(keys.drop_last()[j] == keys[j]);
                }
            }
        }
    }
}

pub open spec fn topics(s: SimpleModel) -> Seq<Seq<u8>> {
    s.subscriptions.map_values(|p: (Seq<u8>, Seq<Seq<u8>>)| p.0)
}

pub open spec fn identifiers(s: SimpleModel) -> Seq<Seq<u8>> {
    s.identifiers.map_values(|p: (Seq<u8>, u64)| p.0)
}

/// The callback subscribed under an identifier.
pub open spec fn callback_of(s: SimpleModel, identifier: Seq<u8>) -> Option<u64> {
    match find_in(identifiers(s), identifier) {
        Some(i) => Some(s.identifiers[i as int].1),
        None => None,
    }
}

/// The identifiers subscribed to a topic.
pub open spec fn subscribers_of(s: SimpleModel, topic: Seq<u8>) -> Seq<Seq<u8>> {
    match find_in(topics(s), topic) {
        Some(i) => s.subscriptions[i as int].1,
        None => Seq::empty(),
    }
}

/// The deliveries of a message to the identifiers `ids` that still have a
/// callback, in order.
pub open spec fn deliveries(s: SimpleModel, ids: Seq<Seq<u8>>, topic: Seq<u8>, body: Seq<u8>) -> Seq<
    (u64, Seq<u8>, Seq<u8>),
>
    decreases ids.len(),
{
    if ids.len() == 0 {
        Seq::empty()
    } else {
        deliveries(s, ids.drop_last(), topic, body) + match callback_of(s, ids.last()) {
            Some(cb) => seq![(cb, topic, body)],
            None => Seq::empty(),
        }
    }
}

/// The broker after a subscription.
pub open spec fn subscribe_spec(s: SimpleModel, topic: Seq<u8>, callback: u64, identifier: Seq<u8>) -> SimpleModel {
    SimpleModel {
        subscriptions: match find_in(topics(s), topic) {
            Some(i) => s.subscriptions.update(
                i as int,
                (topic, s.subscriptions[i as int].1.push(identifier)),
            ),
            None => s.subscriptions.push((topic, seq![identifier])),
        },
        identifiers: match find_in(identifiers(s), identifier) {
            Some(i) => s.identifiers.update(i as int, (identifier, callback)),
            None => s.identifiers.push((identifier, callback)),
        },
    }
}

/// The broker after an identifier is unsubscribed: its callback is gone.
pub open spec fn unsubscribe_spec(s: SimpleModel, identifier: Seq<u8>) -> SimpleModel {
    SimpleModel {
        identifiers: match find_in(identifiers(s), identifier) {
            Some(i) => s.identifiers.remove(i as int),
            None => s.identifiers,
        },
        ..s
    }
}

/// What the broker does with a control message: its new state and the
/// deliveries to make, or nothing once it is shut down.
pub open spec fn simple_step(s: SimpleModel, msg: ControlModel) -> Option<
    (SimpleModel, Seq<(u64, Seq<u8>, Seq<u8>)>),
> {
    match msg {
        ControlModel::Publish(topic, body) => Some((s, deliveries(s, subscribers_of(s, topic), topic, body))),
        ControlModel::Subscribe(topic, callback, identifier) => Some(
            (subscribe_spec(s, topic, callback, identifier), Seq::empty()),
        ),
        ControlModel::Unsubscribe(identifier) => Some((unsubscribe_spec(s, identifier), Seq::empty())),
        ControlModel::Shutdown => None,
    }
}

/// Finds the last entry of a topic.
fn find_topic(subs: &Vec<(Vec<u8>, Vec<Vec<u8>>)>, key: &[u8]) -> (r: Option<usize>)
    ensures
        match r {
            Some(i) => find_in(subs@.map_values(|p: (Vec<u8>, Vec<Vec<u8>>)| p.0@), key@) == Some(i as nat),
            None => find_in(subs@.map_values(|p: (Vec<u8>, Vec<Vec<u8>>)| p.0@), key@) is None,
        },
{
    let ghost keys = subs@.map_values(|p: (Vec<u8>, Vec<Vec<u8>>)| p.0@);
    let mut i: usize = subs.len();
    assert(keys.subrange(0, i as int) =~= keys);
    while i > 0
        invariant
            i <= subs@.len(),
            keys == subs@.map_values(|p: (Vec<u8>, Vec<Vec<u8>>)| p.0@),
            find_in(keys, key@) == find_in(keys.subrange(0, i as int), key@),
        decreases i,
    {
        let ghost s = keys.subrange(0, i as int);
        assert(s.drop_last() =~= keys.subrange(0, i - 1));
        if bytes_equal(subs[i - 1].0.as_slice(), key) {
            return Some(i - 1);
        }
        i = i - 1;
    }
    None
}

/// Finds the last entry of an identifier.
fn find_identifier(ids: &Vec<(Vec<u8>, u64)>, key: &[u8]) -> (r: Option<usize>)
    ensures
        match r {
            Some(i) => find_in(ids@.map_values(|p: (Vec<u8>, u64)| p.0@), key@) == Some(i as nat),
            None => find_in(ids@.map_values(|p: (Vec<u8>, u64)| p.0@), key@) is None,
        },
{
    let ghost keys = ids@.map_values(|p: (Vec<u8>, u64)| p.0@);
    let mut i: usize = ids.len();
    assert(keys.subrange(0, i as int) =~= keys);
    while i > 0
        invariant
            i <= ids@.len(),
            keys == ids@.map_values(|p: (Vec<u8>, u64)| p.0@),
            find_in(keys, key@) == find_in(keys.subrange(0, i as int), key@),
        decreases i,
    {
        let ghost s = keys.subrange(0, i as int);
        assert(s.drop_last() =~= keys.subrange(0, i - 1));
        if bytes_equal(ids[i - 1].0.as_slice(), key) {
            return Some(i - 1);
        }
        i = i - 1;
    }
    None
}

impl Simple {
    /// A broker with no subscriptions.
    pub fn new() -> (r: Self)
        ensures
            r@.subscriptions.len() == 0,
            r@.identifiers.len() == 0,
    {
        let r = Simple { subscriptions: Vec::new(), identifier_subscription: Vec::new() };
        assert(r@.subscriptions =~= Seq::empty());
        assert(r@.identifiers =~= Seq::empty());
        r
    }
}

/// Copies a list of values.
fn copy_values(v: &Vec<Vec<u8>>) -> (r: Vec<Vec<u8>>)
    ensures
        seqs(r@) == seqs(v@),
{
    let mut r: Vec<Vec<u8>> = Vec::new();
    let mut i: usize = 0;
    while i < v.len()
        invariant
            i <= v@.len(),
            seqs(r@) == seqs(v@).subrange(0, i as int),
        decreases v@.len() - i,
    {
        let c = copy_bytes(v[i].as_slice());
        proof {
            lemma_seqs_push(r@, c);
        }
        r.push(c);
        i = i + 1;
        assert(seqs(r@) =~= seqs(v@).subrange(0, i as int));
    }
    assert(seqs(v@).subrange(0, i as int) =~= seqs(v@));
    r
}

impl Simple {
    /// The callback subscribed under an identifier.
    fn callback(&self, identifier: &[u8]) -> (r: Option<u64>)
        ensures
            r == callback_of(self@, identifier@),
    {
        proof {
            assert(identifiers(self@) =~= self.identifier_subscription@.map_values(|p: (Vec<u8>, u64)| p.0@));
            lemma_find_in(identifiers(self@), identifier@);
        }
        match find_identifier(&self.identifier_subscription, identifier) {
            Some(i) => {
                assert(self@.identifiers[i as int].1 == self.identifier_subscription@[i as int].1);
                Some(self.identifier_subscription[i].1)
            },
            None => None,
        }
    }

    /// The deliveries of a published message.
    fn publish(&self, topic: &[u8], body: &[u8]) -> (r: Vec<Delivery>)
        ensures
            r@.map_values(|d: Delivery| d.model()) == deliveries(self@, subscribers_of(self@, topic@), topic@, body@),
    {
        let mut out: Vec<Delivery> = Vec::new();
        proof {
            assert(topics(self@) =~= self.subscriptions@.map_values(|p: (Vec<u8>, Vec<Vec<u8>>)| p.0@));
            lemma_find_in(topics(self@), topic@);
        }
        let i = match find_topic(&self.subscriptions, topic) {
            Some(i) => i,
            None => {
                assert(out@.map_values(|d: Delivery| d.model()) =~= Seq::empty());
                return out;
            },
        };
        let ids = &self.subscriptions[i].1;
        let ghost idv = seqs(ids@);
        assert(subscribers_of(self@, topic@) =~= idv);
        let mut j: usize = 0;
        assert(out@.map_values(|d: Delivery| d.model()) =~= deliveries(self@, idv.subrange(0, 0), topic@, body@));
        while j < ids.len()
            invariant
                j <= ids@.len(),
                idv == seqs(ids@),
                out@.map_values(|d: Delivery| d.model()) == deliveries(self@, idv.subrange(0, j as int), topic@, body@),
            decreases ids@.len() - j,
        {
            let ghost before = out@.map_values(|d: Delivery| d.model());
            assert(idv.subrange(0, j + 1).drop_last() =~= idv.subrange(0, j as int));
            assert(idv[j as int] == ids@[j as int]@);
            match self.callback(ids[j].as_slice()) {
                Some(cb) => {
                    let d = Delivery { callback: cb, topic: copy_bytes(topic), body: copy_bytes(body) };
                    out.push(d);
                    assert(out@.map_values(|d: Delivery| d.model()) =~= before + seq![(cb, topic@, body@)]);
                },
                None => {},
            }
            j = j + 1;
        }
        assert(idv.subrange(0, j as int) =~= idv);
        out
    }

    /// Handles a control message: returns the deliveries to make, or
    /// nothing once the broker is shut down.
    pub fn handle(&mut self, msg: SimpleControlMessage) -> (r: Option<Vec<Delivery>>)
        ensures
            match simple_step(old(self)@, msg.model()) {
                None => r is None && final(self)@ == old(self)@,
                Some((s, ds)) => r matches Some(v) && final(self)@ == s && v@.map_values(|d: Delivery| d.model()) == ds,
            },
    {
        match msg {
            SimpleControlMessage::Publish(m) => {
                let ds = self.publish(m.topic.as_slice(), m.body.as_slice());
                Some(ds)
            },
            SimpleControlMessage::Subscribe { topic, callback, identifier } => {
                self.subscribe(topic, callback, identifier);
                let v: Vec<Delivery> = Vec::new();
                assert(v@.map_values(|d: Delivery| d.model()) =~= Seq::empty());
                Some(v)
            },
            SimpleControlMessage::Unsubscribe { identifier } => {
                self.unsubscribe(identifier.as_slice());
                let v: Vec<Delivery> = Vec::new();
                assert(v@.map_values(|d: Delivery| d.model()) =~= Seq::empty());
                Some(v)
            },
            SimpleControlMessage::Shutdown => None,
        }
    }

    fn subscribe(&mut self, topic: Vec<u8>, callback: u64, identifier: Vec<u8>)
        ensures
            final(self)@ == subscribe_spec(old(self)@, topic@, callback, identifier@),
    {
        let ghost s0 = self@;
        proof {
            assert(topics(s0) =~= self.subscriptions@.map_values(|p: (Vec<u8>, Vec<Vec<u8>>)| p.0@));
            assert(identifiers(s0) =~= self.identifier_subscription@.map_values(|p: (Vec<u8>, u64)| p.0@));
            lemma_find_in(topics(s0), topic@);
            lemma_find_in(identifiers(s0), identifier@);
        }
        match find_topic(&self.subscriptions, topic.as_slice()) {
            Some(i) => {
                let mut ids = copy_values(&self.subscriptions[i].1);
                let id = copy_bytes(identifier.as_slice());
                proof {
                    lemma_seqs_push(ids@, id);
                }
                ids.push(id);
                self.subscriptions.set(i, (topic, ids));
            },
            None => {
                let mut ids: Vec<Vec<u8>> = Vec::new();
                let id = copy_bytes(identifier.as_slice());
                proof {
                    lemma_seqs_push(ids@, id);
                }
                ids.push(id);
                assert(seqs(ids@) =~= seq![identifier@]);
                self.subscriptions.push((topic, ids));
            },
        }
        assert(self@.subscriptions =~= subscribe_spec(s0, topic@, callback, identifier@).subscriptions);
        match find_identifier(&self.identifier_subscription, identifier.as_slice()) {
            Some(i) => {
                self.identifier_subscription.set(i, (identifier, callback));
            },
            None => {
                self.identifier_subscription.push((identifier, callback));
            },
        }
        assert(self@.identifiers =~= subscribe_spec(s0, topic@, callback, identifier@).identifiers);
    }

    fn unsubscribe(&mut self, identifier: &[u8])
        ensures
            final(self)@ == unsubscribe_spec(old(self)@, identifier@),
    {
        let ghost s0 = self@;
        proof {
            assert(identifiers(s0) =~= self.identifier_subscription@.map_values(|p: (Vec<u8>, u64)| p.0@));
            lemma_find_in(identifiers(s0), identifier@);
        }
        match find_identifier(&self.identifier_subscription, identifier) {
            Some(i) => {
                let _ = self.identifier_subscription.remove(i);
                assert(self@.identifiers =~= s0.identifiers.remove(i as int));
            },
            None => {},
        }
    }
}

} // verus!
