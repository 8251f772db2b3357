//! The mathematical model of the broker.
//!
//! A [`RegistryState`] is what a broker is to its callers: the channels by
//! name, the subscriptions of each channel in the order in which they were
//! made, and the id that the next subscription will get. The operations of the
//! broker are functions from one state to the next; the executable
//! [`Broker`](crate::broker::Broker) is proved to follow them.

use crate::error::BrokerErrorView;
use vstd::prelude::*;

verus! {

/// The number of payloads that the delivery queue of a subscription buffers.
pub const QUEUE_CAPACITY: usize = 100;

/// One subscription: its id, the bound of its delivery queue, and every
/// payload that the queue has taken in so far, oldest first.
pub struct SubscriptionState {
    pub id: u64,
    pub capacity: nat,
    pub delivered: Seq<Seq<u8>>,
}

impl SubscriptionState {
    /// A subscription that was just made: nothing has been delivered yet.
    pub open spec fn fresh(id: u64) -> SubscriptionState {
        SubscriptionState { id, capacity: QUEUE_CAPACITY as nat, delivered: Seq::empty() }
    }

    /// The subscription after `payload` was offered to it once; `taken` says
    /// whether its queue took the payload in.
    pub open spec fn offered(self, payload: Seq<u8>, taken: bool) -> SubscriptionState {
        if taken {
            SubscriptionState { delivered: self.delivered.push(payload), ..self }
        } else {
            self
        }
    }
}

/// The ids of `subscriptions`, in the same order.
pub open spec fn ids(subscriptions: Seq<SubscriptionState>) -> Seq<u64> {
    subscriptions.map_values(|s: SubscriptionState| s.id)
}

/// Whether one of `subscriptions` has the id `id`.
pub open spec fn holds(subscriptions: Seq<SubscriptionState>, id: u64) -> bool {
    exists|i: int| 0 <= i < subscriptions.len() && (#[trigger] subscriptions[i]).id == id
}

/// `subscriptions` without those of id `id`; the others keep their order.
pub open spec fn without(subscriptions: Seq<SubscriptionState>, id: u64) -> Seq<
    SubscriptionState,
> {
    subscriptions.filter(|s: SubscriptionState| s.id != id)
}

/// `subscriptions` after `payload` was offered once to each of them;
/// `taken[i]` says whether the queue of the `i`-th took it in.
pub open spec fn fan_out(
    subscriptions: Seq<SubscriptionState>,
    payload: Seq<u8>,
    taken: Seq<bool>,
) -> Seq<SubscriptionState> {
    Seq::new(subscriptions.len(), |i: int| subscriptions[i].offered(payload, taken[i]))
}

/// Removing an id leaves no subscription of that id behind.
pub proof fn lemma_without_drops(subscriptions: Seq<SubscriptionState>, id: u64)
    ensures
        !holds(without(subscriptions, id), id),
{
    let kept = without(subscriptions, id);
    assert forall|i: int| 0 <= i < kept.len() implies (#[trigger] kept[i]).id != id by {
        subscriptions.lemma_filter_pred(|s: SubscriptionState| s.id != id, i);
    }
}

/// Removing an id that no subscription has changes nothing.
pub proof fn lemma_without_absent(subscriptions: Seq<SubscriptionState>, id: u64)
    requires
        !holds(subscriptions, id),
    ensures
        without(subscriptions, id) == subscriptions,
    decreases subscriptions.len(),
{
    reveal(Seq::filter);
    if subscriptions.len() > 0 {
        let front = subscriptions.drop_last();
        assert forall|i: int| 0 <= i < front.len() implies (#[trigger] front[i]).id != id by {
            assert(front[i] == subscriptions[i]);
        }
        lemma_without_absent(front, id);
        assert(subscriptions.last() == subscriptions[subscriptions.len() - 1]);
        assert(front.push(subscriptions.last()) =~= subscriptions);
    }
}

/// Removing the id of exactly one subscription takes that subscription out
/// and keeps all others where they were relative to each other.
pub proof fn lemma_without_single(subscriptions: Seq<SubscriptionState>, id: u64, at: int)
    requires
        0 <= at < subscriptions.len(),
        subscriptions[at].id == id,
        forall|i: int|
            0 <= i < subscriptions.len() && i != at ==> (#[trigger] subscriptions[i]).id != id,
    ensures
        without(subscriptions, id) == subscriptions.remove(at),
    decreases subscriptions.len(),
{
    reveal(Seq::filter);
    let front = subscriptions.drop_last();
    let last = subscriptions.len() - 1;
    if at == last {
        assert forall|i: int| 0 <= i < front.len() implies (#[trigger] front[i]).id != id by {
            assert(front[i] == subscriptions[i]);
        }
        lemma_without_absent(front, id);
        assert(subscriptions.remove(at) =~= front);
    } else {
        assert forall|i: int| 0 <= i < front.len() && i != at implies (#[trigger] front[i]).id
            != id by {
            assert(front[i] == subscriptions[i]);
        }
        lemma_without_single(front, id, at);
        assert(subscriptions.last() == subscriptions[last]);
        assert(front.remove(at).push(subscriptions.last()) =~= subscriptions.remove(at));
    }
}

/// The state of a broker.
pub struct RegistryState {
    /// The subscriptions of each channel, by the channel's name, oldest
    /// first.
    pub channels: Map<Seq<char>, Seq<SubscriptionState>>,
    /// The id that the next subscription gets.
    pub next_id: nat,
}

impl RegistryState {
    /// The state of a new broker: no channel, and the first id is 1.
    pub open spec fn empty() -> RegistryState {
        RegistryState { channels: Map::empty(), next_id: 1 }
    }

    /// Whether a channel named `name` is registered.
    pub open spec fn has_channel(self, name: Seq<char>) -> bool {
        self.channels.contains_key(name)
    }

    /// The subscriptions of the channel named `name`, oldest first.
    pub open spec fn subscriptions(self, name: Seq<char>) -> Seq<SubscriptionState> {
        self.channels[name]
    }

    /// Whether the channel named `name` is registered and has a subscription
    /// of id `id`.
    pub open spec fn has_subscriber(self, name: Seq<char>, id: u64) -> bool {
        self.has_channel(name) && holds(self.subscriptions(name), id)
    }

    /// Whether the state is one that a broker can be in: ids start at 1, every
    /// id in use was handed out before, no id is in use twice, be it on one
    /// channel or on two, and every delivery queue has the fixed bound.
    pub open spec fn well_formed(self) -> bool {
        &&& 1 <= self.next_id <= u64::MAX
        &&& forall|name: Seq<char>, i: int|
            #![trigger self.channels[name][i]]
            self.channels.contains_key(name) && 0 <= i < self.channels[name].len() ==> {
                &&& 1 <= self.channels[name][i].id < self.next_id
                &&& self.channels[name][i].capacity == QUEUE_CAPACITY
            }
        &&& forall|name: Seq<char>, i: int, other: Seq<char>, j: int|
            #![trigger self.channels[name][i], self.channels[other][j]]
            self.channels.contains_key(name) && 0 <= i < self.channels[name].len()
                && self.channels.contains_key(other) && 0 <= j < self.channels[other].len()
                && self.channels[name][i].id == self.channels[other][j].id ==> name == other && i
                == j
    }

    /// The state after a request to create the channel `name`: the channel
    /// is added without subscriptions, unless it is registered already.
    pub open spec fn create_channel(self, name: Seq<char>) -> RegistryState {
        if self.has_channel(name) {
            self
        } else {
            RegistryState { channels: self.channels.insert(name, Seq::empty()), ..self }
        }
    }

    /// What a request to create the channel `name` returns.
    pub open spec fn create_channel_outcome(self, name: Seq<char>) -> Result<
        (),
        BrokerErrorView,
    > {
        if self.has_channel(name) {
            Err(BrokerErrorView::ChannelAlreadyExists(name))
        } else {
            Ok(())
        }
    }

    /// The state after a request to subscribe to `channel`: a fresh
    /// subscription with the next id is appended to the channel's
    /// subscriptions and the next id advances by one, unless the channel is
    /// not registered.
    pub open spec fn subscribe(self, channel: Seq<char>) -> RegistryState {
        if self.has_channel(channel) {
            RegistryState {
                channels: self.channels.insert(
                    channel,
                    self.subscriptions(channel).push(SubscriptionState::fresh(self.next_id as u64)),
                ),
                next_id: self.next_id + 1,
            }
        } else {
            self
        }
    }

    /// What a request to subscribe to `channel` returns, but for the consumer
    /// side of the queue: the id of the new subscription.
    pub open spec fn subscribe_outcome(self, channel: Seq<char>) -> Result<u64, BrokerErrorView> {
        if self.has_channel(channel) {
            Ok(self.next_id as u64)
        } else {
            Err(BrokerErrorView::ChannelNotFound(channel))
        }
    }

    /// The state after a request to remove the subscription `id` from
    /// `channel`: the channel's other subscriptions stay, in their order.
    pub open spec fn unsubscribe(self, channel: Seq<char>, id: u64) -> RegistryState {
        if self.has_subscriber(channel, id) {
            RegistryState {
                channels: self.channels.insert(channel, without(self.subscriptions(channel), id)),
                ..self
            }
        } else {
            self
        }
    }

    /// What a request to remove the subscription `id` from `channel` returns.
    pub open spec fn unsubscribe_outcome(self, channel: Seq<char>, id: u64) -> Result<
        (),
        BrokerErrorView,
    > {
        if !self.has_channel(channel) {
            Err(BrokerErrorView::ChannelNotFound(channel))
        } else if !holds(self.subscriptions(channel), id) {
            Err(BrokerErrorView::SubscriberNotFound(id, channel))
        } else {
            Ok(())
        }
    }

    /// The state after `payload` was published on `channel` and offered once
    /// to each of its subscriptions, oldest first; `taken[i]` says whether the
    /// queue of the `i`-th took it in. Nothing changes if the channel is not
    /// registered.
    pub open spec fn publish(
        self,
        channel: Seq<char>,
        payload: Seq<u8>,
        taken: Seq<bool>,
    ) -> RegistryState {
        if self.has_channel(channel) {
            RegistryState {
                channels: self.channels.insert(
                    channel,
                    fan_out(self.subscriptions(channel), payload, taken),
                ),
                ..self
            }
        } else {
            self
        }
    }

    /// What a request to publish on `channel` returns: the ids of the
    /// subscriptions that the payload is offered to, in the order of the
    /// offers.
    pub open spec fn publish_outcome(self, channel: Seq<char>) -> Result<
        Seq<u64>,
        BrokerErrorView,
    > {
        if self.has_channel(channel) {
            Ok(ids(self.subscriptions(channel)))
        } else {
            Err(BrokerErrorView::ChannelNotFound(channel))
        }
    }
}

} // verus!
