//! The broker: channels, subscriptions and the fan-out of payloads.

use crate::endpoint::{
    accepted, consumer_capacity, duplicate, offer, open_queue, payload_bytes, queue_capacity, Offer,
};
use crate::error::{BrokerError, BrokerErrorView};
use crate::registry::{
    fan_out, ids, lemma_without_single, RegistryState, SubscriptionState, QUEUE_CAPACITY,
};
use bytes::Bytes;
use tokio::sync::mpsc::{Receiver, Sender};
use vstd::prelude::*;

verus! {

/// The record of one offer of a published payload to one subscription.
#[derive(Clone, Copy, Debug, PartialEq, Eq)]
pub struct Delivery {
    /// The id of the subscription.
    pub subscriber: u64,
    /// How the offer ended.
    pub outcome: Offer,
}

/// The ids of the subscriptions that `deliveries` were made to, in order.
pub open spec fn subscribers(deliveries: Seq<Delivery>) -> Seq<u64> {
    deliveries.map_values(|d: Delivery| d.subscriber)
}

/// For each of `deliveries`, whether the subscription's queue took the
/// payload in.
pub open spec fn taken(deliveries: Seq<Delivery>) -> Seq<bool> {
    deliveries.map_values(|d: Delivery| d.outcome is Accepted)
}

/// A subscriber's id together with the producer side of its delivery queue.
struct Subscription {
    id: u64,
    endpoint: Sender<Bytes>,
}

/// A named channel and its subscriptions, oldest first.
struct Channel {
    name: String,
    subscriptions: Vec<Subscription>,
}

/// An in-process publish/subscribe broker.
///
/// The broker owns the registry of channels and the allocator of subscriber
/// ids. Each operation takes the broker exclusively, so no operation ever
/// sees the registry half updated; callers that share a broker put it behind
/// a lock of their choice.
pub struct Broker {
    channels: Vec<Channel>,
    next_id: u64,
}

impl View for Broker {
    type V = RegistryState;

    closed spec fn view(&self) -> RegistryState {
        RegistryState { channels: registry_of(self.channels@), next_id: self.next_id as nat }
    }
}

impl Broker {
    /// What every broker satisfies between two operations.
    #[verifier::type_invariant]
    spec fn inv(&self) -> bool {
        &&& distinct_names(self.channels@)
        &&& sound_subscriptions(self.channels@, self.next_id as nat)
        &&& 1 <= self.next_id
    }

    /// Creates a broker without channels. The first subscription will get the
    /// id 1.
    pub fn new() -> (broker: Broker)
        ensures
            broker@ == RegistryState::empty(),
            broker@.well_formed(),
    {
        let broker = Broker { channels: Vec::new(), next_id: 1 };
        assert(broker@.channels =~= Map::empty());
        broker
    }

    /// Registers a channel named `name`, without subscriptions.
    ///
    /// Fails with `ChannelAlreadyExists` if a channel of that name is
    /// registered; the registry is then left as it was.
    pub fn create_channel(&mut self, name: String) -> (result: Result<(), BrokerError>)
        ensures
            final(self)@ == old(self)@.create_channel(name@),
            final(self)@.well_formed(),
            match result {
                Ok(()) => old(self)@.create_channel_outcome(name@) == Ok::<(), BrokerErrorView>(()),
                Err(e) => old(self)@.create_channel_outcome(name@) == Err::<(), BrokerErrorView>(
                    e@,
                ),
            },
    {
        proof {
            use_type_invariant(&*self);
        }
        let mut channels = self.take_channels();
        let result = match find(&channels, &name) {
            Some(k) => {
                proof {
                    lemma_registry_at(channels@, k as int);
                }
                Err(BrokerError::ChannelAlreadyExists(name))
            },
            None => {
                let ghost before = channels@;
                channels.push(Channel { name, subscriptions: Vec::new() });
                proof {
                    lemma_registry_push(before, channels@);
                    assert(states_of(channels@.last().subscriptions@) =~= Seq::empty());
                }
                Ok(())
            },
        };
        proof {
            lemma_registry_well_formed(channels@, self.next_id as nat);
        }
        self.channels = channels;
        result
    }

    /// The id that the next subscription gets. It is `u64::MAX` once the ids
    /// are used up.
    pub fn next_subscriber_id(&self) -> (id: u64)
        ensures
            id == self@.next_id,
            self@.well_formed(),
    {
        proof {
            use_type_invariant(self);
            lemma_registry_well_formed(self.channels@, self.next_id as nat);
        }
        self.next_id
    }

    /// Subscribes to the channel named `channel`.
    ///
    /// The subscription gets the next id and a new delivery queue that
    /// buffers `QUEUE_CAPACITY` payloads. It is appended to the channel's
    /// subscriptions; its id and the consumer side of its queue are returned.
    ///
    /// Fails with `ChannelNotFound` if the channel is not registered; no id is
    /// used up then. The ids of a broker run out after `u64::MAX - 1`
    /// subscriptions: the caller sees to it that one is left.
    pub fn subscribe(&mut self, channel: &str) -> (result: Result<
        (u64, Receiver<Bytes>),
        BrokerError,
    >)
        requires
            old(self)@.has_channel(channel@) ==> old(self)@.next_id < u64::MAX,
        ensures
            final(self)@ == old(self)@.subscribe(channel@),
            final(self)@.well_formed(),
            match result {
                Ok((id, consumer)) => {
                    &&& old(self)@.subscribe_outcome(channel@) == Ok::<u64, BrokerErrorView>(id)
                    &&& consumer_capacity(consumer) == QUEUE_CAPACITY
                },
                Err(e) => old(self)@.subscribe_outcome(channel@) == Err::<u64, BrokerErrorView>(
                    e@,
                ),
            },
    {
        proof {
            use_type_invariant(&*self);
        }
        let key = channel.to_owned();
        let mut channels = self.take_channels();
        let ghost before = channels@;
        let result = match find(&channels, &key) {
            Some(k) => {
                proof {
                    lemma_registry_at(before, k as int);
                }
                let (endpoint, consumer) = open_queue(QUEUE_CAPACITY);
                let id = self.next_id;
                self.next_id = id + 1;
                channels[k].subscriptions.push(Subscription { id, endpoint });
                proof {
                    lemma_registry_update(before, channels@, k as int);
                    assert(states_of(channels@[k as int].subscriptions@) =~= states_of(
                        before[k as int].subscriptions@,
                    ).push(SubscriptionState::fresh(id)));
                }
                Ok((id, consumer))
            },
            None => {
                proof {
                    lemma_registry_absent(before, key@);
                }
                Err(BrokerError::ChannelNotFound(key))
            },
        };
        proof {
            lemma_registry_well_formed(channels@, self.next_id as nat);
        }
        self.channels = channels;
        result
    }

    /// Removes the subscription of id `sub_id` from the channel named
    /// `channel`. The producer side of its delivery queue is dropped, so the
    /// consumer side reports the end of the stream once it has drained what
    /// was delivered. The channel's other subscriptions keep their order.
    ///
    /// Fails with `ChannelNotFound` if the channel is not registered, and
    /// with `SubscriberNotFound` if it is but has no subscription of that id;
    /// the registry is then left as it was.
    pub fn unsubscribe(&mut self, channel: &str, sub_id: u64) -> (result: Result<(), BrokerError>)
        ensures
            final(self)@ == old(self)@.unsubscribe(channel@, sub_id),
            final(self)@.well_formed(),
            match result {
                Ok(()) => old(self)@.unsubscribe_outcome(channel@, sub_id) == Ok::<
                    (),
                    BrokerErrorView,
                >(()),
                Err(e) => old(self)@.unsubscribe_outcome(channel@, sub_id) == Err::<
                    (),
                    BrokerErrorView,
                >(e@),
            },
    {
        proof {
            use_type_invariant(&*self);
        }
        let key = channel.to_owned();
        let mut channels = self.take_channels();
        let ghost before = channels@;
        let result = match find(&channels, &key) {
            Some(k) => {
                proof {
                    lemma_registry_at(before, k as int);
                }
                match position(&channels[k].subscriptions, sub_id) {
                    Some(i) => {
                        let ghost states = states_of(before[k as int].subscriptions@);
                        channels[k].subscriptions.remove(i);
                        proof {
                            assert(states[i as int].id == sub_id);
                            assert forall|j: int| 0 <= j < states.len() && j != i implies (
                            #[trigger] states[j]).id != sub_id by {
                                assert(before[k as int].subscriptions@[j].id
                                    != before[k as int].subscriptions@[i as int].id);
                            }
                            lemma_without_single(states, sub_id, i as int);
                            lemma_registry_update(before, channels@, k as int);
                            assert(states_of(channels@[k as int].subscriptions@) =~= states.remove(
                                i as int,
                            ));
                            lemma_sound_after_removal(
                                before,
                                channels@,
                                self.next_id as nat,
                                k as int,
                                i as int,
                            );
                        }
                        Ok(())
                    },
                    None => {
                        proof {
                            let states = states_of(before[k as int].subscriptions@);
                            assert forall|j: int| 0 <= j < states.len() implies (
                            #[trigger] states[j]).id != sub_id by {
                                assert(before[k as int].subscriptions@[j].id != sub_id);
                            }
                        }
                        Err(BrokerError::SubscriberNotFound(sub_id, key))
                    },
                }
            },
            None => {
                proof {
                    lemma_registry_absent(before, key@);
                }
                Err(BrokerError::ChannelNotFound(key))
            },
        };
        proof {
            lemma_registry_well_formed(channels@, self.next_id as nat);
        }
        self.channels = channels;
        result
    }

    /// Publishes `message` on the channel named `channel`: the payload is
    /// offered once to every subscription of the channel, oldest first, and
    /// the outcome of each offer is returned in that order.
    ///
    /// An offer never waits, so a slow subscriber holds up neither the
    /// subscribers behind it nor the next operation on the broker. A
    /// subscription whose queue is full or whose consumer side is gone misses
    /// the payload; that neither stops the offers to the subscriptions after
    /// it nor fails the call. A channel without subscriptions yields no
    /// delivery.
    ///
    /// Fails with `ChannelNotFound` if the channel is not registered.
    pub fn publish(&mut self, channel: &str, message: Bytes) -> (result: Result<
        Vec<Delivery>,
        BrokerError,
    >)
        ensures
            final(self)@.well_formed(),
            match result {
                Ok(deliveries) => {
                    &&& old(self)@.publish_outcome(channel@) == Ok::<Seq<u64>, BrokerErrorView>(
                        subscribers(deliveries@),
                    )
                    &&& final(self)@ == old(self)@.publish(
                        channel@,
                        payload_bytes(message),
                        taken(deliveries@),
                    )
                },
                Err(e) => {
                    &&& old(self)@.publish_outcome(channel@) == Err::<Seq<u64>, BrokerErrorView>(
                        e@,
                    )
                    &&& final(self)@ == old(self)@
                },
            },
    {
        proof {
            use_type_invariant(&*self);
        }
        let key = channel.to_owned();
        let mut channels = self.take_channels();
        let ghost before = channels@;
        let result = match find(&channels, &key) {
            Some(k) => {
                proof {
                    lemma_registry_at(before, k as int);
                }
                let deliveries = deliver(&mut channels[k].subscriptions, &message);
                proof {
                    lemma_registry_update(before, channels@, k as int);
                    lemma_sound_after_delivery(
                        before,
                        channels@,
                        self.next_id as nat,
                        k as int,
                    );
                }
                Ok(deliveries)
            },
            None => {
                proof {
                    lemma_registry_absent(before, key@);
                }
                Err(BrokerError::ChannelNotFound(key))
            },
        };
        proof {
            lemma_registry_well_formed(channels@, self.next_id as nat);
        }
        self.channels = channels;
        result
    }

    /// Takes the channels out of the broker, which is left with none until
    /// they are put back.
    fn take_channels(&mut self) -> (channels: Vec<Channel>)
        ensures
            channels == old(self).channels,
            final(self).channels@.len() == 0,
            final(self).next_id == old(self).next_id,
    {
        proof {
            use_type_invariant(&*self);
        }
        let mut channels: Vec<Channel> = Vec::new();
        core::mem::swap(&mut self.channels, &mut channels);
        channels
    }
}

/// The position of the channel named `name` among `channels`, if there is
/// one.
fn find(channels: &Vec<Channel>, name: &String) -> (found: Option<usize>)
    ensures
        match found {
            Some(k) => k < channels@.len() && channels@[k as int].name@ == name@,
            None => !named(channels@, name@),
        },
{
    let mut k: usize = 0;
    while k < channels.len()
        invariant
            k <= channels@.len(),
            forall|l: int| 0 <= l < k ==> (#[trigger] channels@[l]).name@ != name@,
        decreases channels@.len() - k,
    {
        if channels[k].name == *name {
            return Some(k);
        }
        k += 1;
    }
    None
}

/// The position of the subscription of id `id` among `subscriptions`, if
/// there is one.
fn position(subscriptions: &Vec<Subscription>, id: u64) -> (found: Option<usize>)
    ensures
        match found {
            Some(i) => i < subscriptions@.len() && subscriptions@[i as int].id == id,
            None => forall|j: int|
                0 <= j < subscriptions@.len() ==> (#[trigger] subscriptions@[j]).id != id,
        },
{
    let mut i: usize = 0;
    while i < subscriptions.len()
        invariant
            i <= subscriptions@.len(),
            forall|j: int| 0 <= j < i ==> (#[trigger] subscriptions@[j]).id != id,
        decreases subscriptions@.len() - i,
    {
        if subscriptions[i].id == id {
            return Some(i);
        }
        i += 1;
    }
    None
}

/// Offers a copy of `message` once to each of `subscriptions`, oldest first,
/// and records how each offer ended.
fn deliver(subscriptions: &mut Vec<Subscription>, message: &Bytes) -> (deliveries: Vec<Delivery>)
    ensures
        final(subscriptions)@.len() == old(subscriptions)@.len(),
        forall|i: int|
            0 <= i < old(subscriptions)@.len() ==> (#[trigger] final(subscriptions)@[i]).id == old(
                subscriptions,
            )@[i].id,
        subscribers(deliveries@) == ids(states_of(old(subscriptions)@)),
        states_of(final(subscriptions)@) == fan_out(
            states_of(old(subscriptions)@),
            payload_bytes(*message),
            taken(deliveries@),
        ),
{
    let ghost before = subscriptions@;
    let mut deliveries: Vec<Delivery> = Vec::new();
    let mut i: usize = 0;
    while i < subscriptions.len()
        invariant
            i <= subscriptions@.len(),
            subscriptions@.len() == before.len(),
            deliveries@.len() == i,
            forall|j: int| i <= j < before.len() ==> subscriptions@[j] == before[j],
            forall|j: int|
                0 <= j < i ==> {
                    &&& (#[trigger] subscriptions@[j]).id == before[j].id
                    &&& deliveries@[j].subscriber == before[j].id
                    &&& state_of(subscriptions@[j]) == state_of(before[j]).offered(
                        payload_bytes(*message),
                        deliveries@[j].outcome is Accepted,
                    )
                },
        decreases subscriptions@.len() - i,
    {
        let subscriber = subscriptions[i].id;
        let outcome = offer(&mut subscriptions[i].endpoint, duplicate(message));
        deliveries.push(Delivery { subscriber, outcome });
        i += 1;
    }
    proof {
        assert forall|j: int| 0 <= j < before.len() implies #[trigger] deliveries@[j].subscriber
            == before[j].id by {
            assert(subscriptions@[j].id == before[j].id);
        }
        assert(subscribers(deliveries@) =~= ids(states_of(before)));
        assert(states_of(subscriptions@) =~= fan_out(
            states_of(before),
            payload_bytes(*message),
            taken(deliveries@),
        ));
    }
    deliveries
}

/// What a subscription is in the model of the registry.
spec fn state_of(subscription: Subscription) -> SubscriptionState {
    SubscriptionState {
        id: subscription.id,
        capacity: queue_capacity(subscription.endpoint),
        delivered: accepted(subscription.endpoint),
    }
}

/// What a channel's subscriptions are in the model, oldest first.
spec fn states_of(subscriptions: Seq<Subscription>) -> Seq<SubscriptionState> {
    subscriptions.map_values(|s: Subscription| state_of(s))
}

/// Whether one of `channels` is named `name`.
spec fn named(channels: Seq<Channel>, name: Seq<char>) -> bool {
    exists|k: int| 0 <= k < channels.len() && (#[trigger] channels[k]).name@ == name
}

/// The position among `channels` of the one named `name`.
spec fn slot(channels: Seq<Channel>, name: Seq<char>) -> int {
    choose|k: int| 0 <= k < channels.len() && (#[trigger] channels[k]).name@ == name
}

/// The channels as the model has them: subscriptions by channel name.
spec fn registry_of(channels: Seq<Channel>) -> Map<Seq<char>, Seq<SubscriptionState>> {
    Map::new(
        |name: Seq<char>| named(channels, name),
        |name: Seq<char>| states_of(channels[slot(channels, name)].subscriptions@),
    )
}

/// No two of `channels` have the same name.
spec fn distinct_names(channels: Seq<Channel>) -> bool {
    forall|k: int, l: int|
        0 <= k < l < channels.len() ==> (#[trigger] channels[k]).name@ != (
        #[trigger] channels[l]).name@
}

/// Every id in use is at least 1 and below `next_id`, no id is in use twice,
/// and every delivery queue has the fixed bound.
spec fn sound_subscriptions(channels: Seq<Channel>, next_id: nat) -> bool {
    &&& forall|k: int, i: int|
        #![trigger channels[k].subscriptions@[i]]
        0 <= k < channels.len() && 0 <= i < channels[k].subscriptions@.len() ==> {
            &&& 1 <= channels[k].subscriptions@[i].id < next_id
            &&& queue_capacity(channels[k].subscriptions@[i].endpoint) == QUEUE_CAPACITY
        }
    &&& forall|k: int, i: int, l: int, j: int|
        #![trigger channels[k].subscriptions@[i], channels[l].subscriptions@[j]]
        0 <= k < channels.len() && 0 <= i < channels[k].subscriptions@.len() && 0 <= l
            < channels.len() && 0 <= j < channels[l].subscriptions@.len()
            && channels[k].subscriptions@[i].id == channels[l].subscriptions@[j].id ==> k == l
            && i == j
}

/// The channel at position `k` is found under its name, with its
/// subscriptions.
proof fn lemma_registry_at(channels: Seq<Channel>, k: int)
    requires
        distinct_names(channels),
        0 <= k < channels.len(),
    ensures
        named(channels, channels[k].name@),
        slot(channels, channels[k].name@) == k,
        registry_of(channels).contains_key(channels[k].name@),
        registry_of(channels)[channels[k].name@] == states_of(channels[k].subscriptions@),
{
}

/// Appending a channel with a new name inserts it into the registry.
proof fn lemma_registry_push(before: Seq<Channel>, after: Seq<Channel>)
    requires
        after.len() == before.len() + 1,
        forall|k: int| 0 <= k < before.len() ==> after[k] == before[k],
        distinct_names(before),
        !named(before, after.last().name@),
    ensures
        distinct_names(after),
        registry_of(after) == registry_of(before).insert(
            after.last().name@,
            states_of(after.last().subscriptions@),
        ),
{
    let added = after.last().name@;
    assert forall|k: int, l: int| 0 <= k < l < after.len() implies (#[trigger] after[k]).name@ != (
    #[trigger] after[l]).name@ by {
        assert(after[k] == before[k]);
        if l < before.len() {
            assert(after[l] == before[l]);
        }
    }
    assert forall|name: Seq<char>| named(after, name) <==> (named(before, name) || name
        == added) by {
        if named(after, name) {
            let k = slot(after, name);
            if k < before.len() {
                assert(before[k].name@ == name);
            }
        }
        if named(before, name) {
            let k = slot(before, name);
            assert(after[k].name@ == name);
        }
        if name == added {
            assert(after[after.len() - 1].name@ == name);
        }
    }
    assert forall|name: Seq<char>| named(before, name) implies #[trigger] registry_of(after)[name]
        == registry_of(before)[name] by {
        let k = slot(before, name);
        assert(after[k] == before[k]);
        lemma_registry_at(after, k);
    }
    lemma_registry_at(after, after.len() - 1);
    assert(registry_of(after) =~= registry_of(before).insert(
        added,
        states_of(after.last().subscriptions@),
    ));
}

/// A name that no channel has is not in the registry.
proof fn lemma_registry_absent(channels: Seq<Channel>, name: Seq<char>)
    requires
        !named(channels, name),
    ensures
        !registry_of(channels).contains_key(name),
{
}

/// Changing the subscriptions of the channel at position `k` replaces its
/// entry in the registry and no other.
proof fn lemma_registry_update(before: Seq<Channel>, after: Seq<Channel>, k: int)
    requires
        after.len() == before.len(),
        0 <= k < before.len(),
        forall|l: int| 0 <= l < before.len() && l != k ==> after[l] == before[l],
        after[k].name@ == before[k].name@,
        distinct_names(before),
    ensures
        distinct_names(after),
        registry_of(after) == registry_of(before).insert(
            before[k].name@,
            states_of(after[k].subscriptions@),
        ),
{
    assert forall|l: int| 0 <= l < before.len() implies (#[trigger] after[l]).name@
        == before[l].name@ by {
        if l != k {
            assert(after[l] == before[l]);
        }
    }
    assert forall|name: Seq<char>| named(after, name) <==> named(before, name) by {
        if named(after, name) {
            let l = slot(after, name);
            assert(before[l].name@ == name);
        }
        if named(before, name) {
            let l = slot(before, name);
            assert(after[l].name@ == name);
        }
    }
    assert forall|name: Seq<char>| named(before, name) && name != before[k].name@ implies
        #[trigger] registry_of(after)[name] == registry_of(before)[name] by {
        let l = slot(before, name);
        assert(after[l] == before[l]);
        lemma_registry_at(after, l);
    }
    lemma_registry_at(before, k);
    lemma_registry_at(after, k);
    assert(registry_of(after) =~= registry_of(before).insert(
        before[k].name@,
        states_of(after[k].subscriptions@),
    ));
}

/// Taking one subscription out of one channel keeps the subscriptions sound.
proof fn lemma_sound_after_removal(
    before: Seq<Channel>,
    after: Seq<Channel>,
    next_id: nat,
    k: int,
    at: int,
)
    requires
        sound_subscriptions(before, next_id),
        after.len() == before.len(),
        0 <= k < before.len(),
        0 <= at < before[k].subscriptions@.len(),
        forall|l: int| 0 <= l < before.len() && l != k ==> after[l] == before[l],
        after[k].subscriptions@ == before[k].subscriptions@.remove(at),
    ensures
        sound_subscriptions(after, next_id),
{
    let origin = |l: int, i: int|
        if l == k && i >= at {
            i + 1
        } else {
            i
        };
    assert forall|l: int, i: int|
        0 <= l < after.len() && 0 <= i < after[l].subscriptions@.len() implies 0 <= origin(l, i)
        < before[l].subscriptions@.len() && #[trigger] after[l].subscriptions@[i]
        == before[l].subscriptions@[origin(l, i)] by {
        if l != k {
            assert(after[l] == before[l]);
        }
    }
    assert forall|l: int, i: int|
        #![trigger after[l].subscriptions@[i]]
        0 <= l < after.len() && 0 <= i < after[l].subscriptions@.len() implies {
        &&& 1 <= after[l].subscriptions@[i].id < next_id
        &&& queue_capacity(after[l].subscriptions@[i].endpoint) == QUEUE_CAPACITY
    } by {
        assert(after[l].subscriptions@[i] == before[l].subscriptions@[origin(l, i)]);
    }
    assert forall|l: int, i: int, m: int, j: int|
        #![trigger after[l].subscriptions@[i], after[m].subscriptions@[j]]
        0 <= l < after.len() && 0 <= i < after[l].subscriptions@.len() && 0 <= m < after.len()
            && 0 <= j < after[m].subscriptions@.len() && after[l].subscriptions@[i].id
            == after[m].subscriptions@[j].id implies l == m && i == j by {
        assert(after[l].subscriptions@[i] == before[l].subscriptions@[origin(l, i)]);
        assert(after[m].subscriptions@[j] == before[m].subscriptions@[origin(m, j)]);
    }
}

/// Offers to the subscriptions of one channel keep the subscriptions sound:
/// they change neither ids nor bounds.
proof fn lemma_sound_after_delivery(
    before: Seq<Channel>,
    after: Seq<Channel>,
    next_id: nat,
    k: int,
)
    requires
        sound_subscriptions(before, next_id),
        after.len() == before.len(),
        0 <= k < before.len(),
        forall|l: int| 0 <= l < before.len() && l != k ==> after[l] == before[l],
        after[k].subscriptions@.len() == before[k].subscriptions@.len(),
        forall|i: int|
            0 <= i < before[k].subscriptions@.len() ==> (#[trigger] after[k].subscriptions@[i]).id
                == before[k].subscriptions@[i].id,
        states_of(after[k].subscriptions@).len() == before[k].subscriptions@.len(),
        forall|i: int|
            0 <= i < before[k].subscriptions@.len() ==> (#[trigger] states_of(
                after[k].subscriptions@,
            )[i]).capacity == states_of(before[k].subscriptions@)[i].capacity,
    ensures
        sound_subscriptions(after, next_id),
{
    assert forall|l: int, i: int|
        0 <= l < after.len() && 0 <= i < after[l].subscriptions@.len() implies 0 <= i
        < before[l].subscriptions@.len() && (#[trigger] after[l].subscriptions@[i]).id
        == before[l].subscriptions@[i].id && queue_capacity(after[l].subscriptions@[i].endpoint)
        == queue_capacity(before[l].subscriptions@[i].endpoint) by {
        if l != k {
            assert(after[l] == before[l]);
        } else {
            assert(states_of(after[k].subscriptions@)[i].capacity == states_of(
                before[k].subscriptions@,
            )[i].capacity);
        }
    }
}

/// Distinct names and sound subscriptions make a well-formed state.
proof fn lemma_registry_well_formed(channels: Seq<Channel>, next_id: nat)
    requires
        distinct_names(channels),
        sound_subscriptions(channels, next_id),
        1 <= next_id <= u64::MAX,
    ensures
        (RegistryState { channels: registry_of(channels), next_id }).well_formed(),
{
    let registry = registry_of(channels);
    assert forall|name: Seq<char>, i: int|
        #![trigger registry[name][i]]
        registry.contains_key(name) && 0 <= i < registry[name].len() implies {
        &&& 1 <= registry[name][i].id < next_id
        &&& registry[name][i].capacity == QUEUE_CAPACITY
    } by {
        let k = slot(channels, name);
        assert(registry[name][i] == state_of(channels[k].subscriptions@[i]));
    }
    assert forall|name: Seq<char>, i: int, other: Seq<char>, j: int|
        #![trigger registry[name][i], registry[other][j]]
        registry.contains_key(name) && 0 <= i < registry[name].len() && registry.contains_key(
            other,
        ) && 0 <= j < registry[other].len() && registry[name][i].id
            == registry[other][j].id implies name == other && i == j by {
        let k = slot(channels, name);
        let l = slot(channels, other);
        assert(registry[name][i] == state_of(channels[k].subscriptions@[i]));
        assert(registry[other][j] == state_of(channels[l].subscriptions@[j]));
    }
}

} // verus!
