//! What holds of the broker across several operations.
//!
//! Each statement is about the model of the registry, in the terms in which
//! the contracts of the [`Broker`](crate::broker::Broker) are written: what is
//! proved here of a sequence of steps of the model holds of the same sequence
//! of calls on a broker.

use crate::error::BrokerErrorView;
use crate::registry::{
    fan_out, holds, ids, lemma_without_drops, lemma_without_single, without, RegistryState,
    SubscriptionState, QUEUE_CAPACITY,
};
use vstd::prelude::*;

verus! {

/// A new broker is in a well-formed state.
pub proof fn empty_is_well_formed()
    ensures
        RegistryState::empty().well_formed(),
{
}

/// Creating a channel leads from a well-formed state to a well-formed state.
pub proof fn create_channel_keeps_well_formed(state: RegistryState, name: Seq<char>)
    requires
        state.well_formed(),
    ensures
        state.create_channel(name).well_formed(),
{
}

/// Subscribing leads from a well-formed state to a well-formed state, as long
/// as an id is left to hand out.
pub proof fn subscribe_keeps_well_formed(state: RegistryState, channel: Seq<char>)
    requires
        state.well_formed(),
        state.next_id < u64::MAX,
    ensures
        state.subscribe(channel).well_formed(),
{
    let after = state.subscribe(channel);
    if state.has_channel(channel) {
        let before = state.subscriptions(channel);
        assert forall|name: Seq<char>, i: int|
            after.channels.contains_key(name) && 0 <= i < after.channels[name].len() implies (
        #[trigger] after.channels[name][i]).capacity == QUEUE_CAPACITY && 1
            <= after.channels[name][i].id < after.next_id && (after.channels[name][i].id
            == state.next_id <==> name == channel && i == before.len()) by {
            if name == channel && i < before.len() {
                assert(after.channels[name][i] == state.channels[name][i]);
            } else if name != channel {
                assert(after.channels[name][i] == state.channels[name][i]);
            }
        }
        assert forall|name: Seq<char>, i: int, other: Seq<char>, j: int|
            after.channels.contains_key(name) && 0 <= i < after.channels[name].len()
                && after.channels.contains_key(other) && 0 <= j < after.channels[other].len() && (
            #[trigger] after.channels[name][i]).id == (#[trigger] after.channels[other][j]).id
            implies name == other && i == j by {
            if after.channels[name][i].id != state.next_id {
                assert(after.channels[name][i] == state.channels[name][i]);
                assert(after.channels[other][j] == state.channels[other][j]);
            }
        }
    }
}

/// Removing a subscription leads from a well-formed state to a well-formed
/// state.
pub proof fn unsubscribe_keeps_well_formed(state: RegistryState, channel: Seq<char>, id: u64)
    requires
        state.well_formed(),
    ensures
        state.unsubscribe(channel, id).well_formed(),
{
    let after = state.unsubscribe(channel, id);
    if state.has_subscriber(channel, id) {
        let before = state.subscriptions(channel);
        let at = choose|i: int| 0 <= i < before.len() && (#[trigger] before[i]).id == id;
        assert forall|i: int| 0 <= i < before.len() && i != at implies (#[trigger] before[i]).id
            != id by {
            assert(state.channels[channel][i].id != state.channels[channel][at].id);
        }
        lemma_without_single(before, id, at);
        let origin = |name: Seq<char>, i: int|
            if name == channel && i >= at {
                i + 1
            } else {
                i
            };
        assert forall|name: Seq<char>, i: int|
            after.channels.contains_key(name) && 0 <= i < after.channels[name].len() implies
            state.channels.contains_key(name) && 0 <= origin(name, i) < state.channels[name].len()
            && #[trigger] after.channels[name][i] == state.channels[name][origin(name, i)] by {}
        assert forall|name: Seq<char>, i: int|
            #![trigger after.channels[name][i]]
            after.channels.contains_key(name) && 0 <= i < after.channels[name].len() implies {
            &&& 1 <= after.channels[name][i].id < after.next_id
            &&& after.channels[name][i].capacity == QUEUE_CAPACITY
        } by {
            assert(after.channels[name][i] == state.channels[name][origin(name, i)]);
        }
        assert forall|name: Seq<char>, i: int, other: Seq<char>, j: int|
            after.channels.contains_key(name) && 0 <= i < after.channels[name].len()
                && after.channels.contains_key(other) && 0 <= j < after.channels[other].len() && (
            #[trigger] after.channels[name][i]).id == (#[trigger] after.channels[other][j]).id
            implies name == other && i == j by {
            assert(after.channels[name][i] == state.channels[name][origin(name, i)]);
            assert(after.channels[other][j] == state.channels[other][origin(other, j)]);
        }
    }
}

/// Publishing leads from a well-formed state to a well-formed state,
/// whichever queues take the payload in.
pub proof fn publish_keeps_well_formed(
    state: RegistryState,
    channel: Seq<char>,
    payload: Seq<u8>,
    taken: Seq<bool>,
)
    requires
        state.well_formed(),
    ensures
        state.publish(channel, payload, taken).well_formed(),
{
    let after = state.publish(channel, payload, taken);
    assert forall|name: Seq<char>, i: int|
        after.channels.contains_key(name) && 0 <= i < after.channels[name].len() implies
        state.channels.contains_key(name) && 0 <= i < state.channels[name].len() && (
    #[trigger] after.channels[name][i]).id == state.channels[name][i].id
        && after.channels[name][i].capacity == state.channels[name][i].capacity by {}
}

/// Creating a channel never disturbs what is registered: the channels that
/// were there keep their subscriptions, and the allocator of ids stays where
/// it was.
pub proof fn create_channel_keeps_the_rest(state: RegistryState, name: Seq<char>)
    ensures
        state.create_channel(name).has_channel(name),
        state.create_channel(name).next_id == state.next_id,
        forall|other: Seq<char>|
            #![trigger state.create_channel(name).subscriptions(other)]
            state.has_channel(other) ==> state.create_channel(name).has_channel(other)
                && state.create_channel(name).subscriptions(other) == state.subscriptions(other),
        !state.has_channel(name) ==> state.create_channel(name).subscriptions(name)
            == Seq::<SubscriptionState>::empty(),
{
}

/// Creating a channel twice under one name fails the second time with
/// `ChannelAlreadyExists`, and the second request changes nothing: the
/// channel keeps the subscriptions it had.
pub proof fn create_channel_twice_fails(state: RegistryState, name: Seq<char>)
    ensures
        ({
            let once = state.create_channel(name);
            &&& once.create_channel_outcome(name) == Err::<(), BrokerErrorView>(
                BrokerErrorView::ChannelAlreadyExists(name),
            )
            &&& once.create_channel(name) == once
            &&& once.create_channel(name).subscriptions(name) == once.subscriptions(name)
        }),
{
}

/// Creating a channel that is registered fails with `ChannelAlreadyExists`
/// however many subscriptions it has gathered, and leaves them untouched.
pub proof fn create_existing_channel_fails(state: RegistryState, name: Seq<char>)
    requires
        state.has_channel(name),
    ensures
        state.create_channel_outcome(name) == Err::<(), BrokerErrorView>(
            BrokerErrorView::ChannelAlreadyExists(name),
        ),
        state.create_channel(name) == state,
        state.create_channel(name).subscriptions(name) == state.subscriptions(name),
{
}

/// Subscribing to a channel that is not registered fails with
/// `ChannelNotFound` and uses up no id: the next subscription that succeeds,
/// on whatever channel, gets the id that the failed one would have got, and
/// only then does the allocator advance.
pub proof fn failed_subscribe_uses_no_id(
    state: RegistryState,
    missing: Seq<char>,
    channel: Seq<char>,
)
    requires
        !state.has_channel(missing),
        state.has_channel(channel),
    ensures
        state.subscribe_outcome(missing) == Err::<u64, BrokerErrorView>(
            BrokerErrorView::ChannelNotFound(missing),
        ),
        state.subscribe(missing) == state,
        state.subscribe(missing).subscribe_outcome(channel) == Ok::<u64, BrokerErrorView>(
            state.next_id as u64,
        ),
        state.subscribe(missing).subscribe(channel).next_id == state.next_id + 1,
{
}

/// A subscription that succeeds is appended behind the channel's older
/// subscriptions with a fresh, empty queue of the fixed bound, and its id is
/// larger than every id in use.
pub proof fn subscribe_appends_with_a_new_id(state: RegistryState, channel: Seq<char>)
    requires
        state.well_formed(),
        state.has_channel(channel),
    ensures
        ({
            let after = state.subscribe(channel);
            let id = state.next_id as u64;
            &&& state.subscribe_outcome(channel) == Ok::<u64, BrokerErrorView>(id)
            &&& after.subscriptions(channel) == state.subscriptions(channel).push(
                SubscriptionState::fresh(id),
            )
            &&& after.subscriptions(channel).last().capacity == QUEUE_CAPACITY
            &&& after.subscriptions(channel).last().delivered == Seq::<Seq<u8>>::empty()
            &&& forall|other: Seq<char>, i: int|
                state.has_channel(other) && 0 <= i < state.subscriptions(other).len() ==> (
                #[trigger] state.channels[other][i]).id < id
        }),
{
}

/// Two subscriptions in a row, on one channel or on two, get consecutive
/// ids.
pub proof fn ids_are_consecutive(state: RegistryState, first: Seq<char>, second: Seq<char>)
    requires
        state.well_formed(),
        state.next_id + 1 <= u64::MAX,
        state.has_channel(first),
        state.has_channel(second),
    ensures
        state.subscribe_outcome(first) == Ok::<u64, BrokerErrorView>(state.next_id as u64),
        state.subscribe(first).subscribe_outcome(second) == Ok::<u64, BrokerErrorView>(
            (state.next_id + 1) as u64,
        ),
{
}

/// One publish offers the payload exactly once to every subscription of the
/// channel, in the order of the subscriptions. Each subscription whose queue
/// takes the payload in has exactly that payload, once, behind what was
/// delivered to it before; the others have what they had. No subscription
/// is added, dropped or reordered, and no other channel is touched.
pub proof fn publish_offers_once_to_each(
    state: RegistryState,
    channel: Seq<char>,
    payload: Seq<u8>,
    taken: Seq<bool>,
)
    requires
        state.has_channel(channel),
        taken.len() == state.subscriptions(channel).len(),
    ensures
        ({
            let before = state.subscriptions(channel);
            let after = state.publish(channel, payload, taken).subscriptions(channel);
            &&& state.publish_outcome(channel) == Ok::<Seq<u64>, BrokerErrorView>(ids(before))
            &&& ids(before).len() == before.len()
            &&& after.len() == before.len()
            &&& forall|i: int|
                0 <= i < before.len() ==> {
                    &&& (#[trigger] after[i]).id == before[i].id
                    &&& after[i].capacity == before[i].capacity
                    &&& taken[i] ==> after[i].delivered == before[i].delivered.push(payload)
                    &&& !taken[i] ==> after[i].delivered == before[i].delivered
                }
        }),
        state.publish(channel, payload, taken).next_id == state.next_id,
        forall|other: Seq<char>|
            #![trigger state.publish(channel, payload, taken).has_channel(other)]
            state.publish(channel, payload, taken).has_channel(other) == state.has_channel(other),
        forall|other: Seq<char>|
            #![trigger state.publish(channel, payload, taken).subscriptions(other)]
            other != channel ==> state.publish(channel, payload, taken).subscriptions(other)
                == state.subscriptions(other),
{
}

/// When every queue of the channel has room, one publish delivers the very
/// same bytes to all subscriptions, one copy to each.
pub proof fn publish_reaches_all_with_room(
    state: RegistryState,
    channel: Seq<char>,
    payload: Seq<u8>,
    taken: Seq<bool>,
)
    requires
        state.has_channel(channel),
        taken.len() == state.subscriptions(channel).len(),
        forall|i: int| 0 <= i < taken.len() ==> taken[i],
    ensures
        ({
            let before = state.subscriptions(channel);
            let after = state.publish(channel, payload, taken).subscriptions(channel);
            &&& after.len() == before.len()
            &&& forall|i: int|
                0 <= i < before.len() ==> {
                    &&& (#[trigger] after[i]).delivered.len() == before[i].delivered.len() + 1
                    &&& after[i].delivered.last() == payload
                    &&& after[i].delivered.drop_last() == before[i].delivered
                }
        }),
{
    let before = state.subscriptions(channel);
    let after = state.publish(channel, payload, taken).subscriptions(channel);
    assert forall|i: int| 0 <= i < before.len() implies {
        &&& (#[trigger] after[i]).delivered.len() == before[i].delivered.len() + 1
        &&& after[i].delivered.last() == payload
        &&& after[i].delivered.drop_last() == before[i].delivered
    } by {
        assert(taken[i]);
        assert(after[i].delivered.drop_last() =~= before[i].delivered);
    }
}

/// After a subscription was removed, a publish on its channel makes no offer
/// to it, while every other subscription of the channel is still offered the
/// payload.
pub proof fn unsubscribed_is_offered_nothing(state: RegistryState, channel: Seq<char>, id: u64)
    requires
        state.has_subscriber(channel, id),
    ensures
        ({
            let after = state.unsubscribe(channel, id);
            &&& state.unsubscribe_outcome(channel, id) == Ok::<(), BrokerErrorView>(())
            &&& after.publish_outcome(channel) == Ok::<Seq<u64>, BrokerErrorView>(
                ids(after.subscriptions(channel)),
            )
            &&& !ids(after.subscriptions(channel)).contains(id)
            &&& forall|other: u64|
                other != id && ids(state.subscriptions(channel)).contains(other) ==> #[trigger] ids(
                    after.subscriptions(channel),
                ).contains(other)
        }),
{
    let before = state.subscriptions(channel);
    let kept = without(before, id);
    let after = state.unsubscribe(channel, id);
    assert(after.subscriptions(channel) == kept);
    lemma_without_drops(before, id);
    if ids(kept).contains(id) {
        let i = choose|i: int| 0 <= i < ids(kept).len() && ids(kept)[i] == id;
        assert(kept[i].id == id);
    }
    assert forall|other: u64|
        other != id && ids(before).contains(other) implies #[trigger] ids(kept).contains(
        other,
    ) by {
        let i = choose|i: int| 0 <= i < ids(before).len() && ids(before)[i] == other;
        assert(before[i].id == other);
        before.lemma_filter_contains(|s: SubscriptionState| s.id != id, i);
        let j = choose|j: int| 0 <= j < kept.len() && kept[j] == before[i];
        assert(ids(kept)[j] == other);
    }
}

/// Removing a subscription from a well-formed state takes exactly that one out
/// of the channel's subscriptions: the others stay, in the order they had. The
/// position of the one removed is returned.
pub proof fn unsubscribe_removes_exactly_one(
    state: RegistryState,
    channel: Seq<char>,
    id: u64,
) -> (at: int)
    requires
        state.well_formed(),
        state.has_subscriber(channel, id),
    ensures
        0 <= at < state.subscriptions(channel).len(),
        state.subscriptions(channel)[at].id == id,
        state.unsubscribe(channel, id).subscriptions(channel) == state.subscriptions(
            channel,
        ).remove(at),
{
    let before = state.subscriptions(channel);
    let at = choose|i: int| 0 <= i < before.len() && (#[trigger] before[i]).id == id;
    assert forall|i: int| 0 <= i < before.len() && i != at implies (#[trigger] before[i]).id
        != id by {
        assert(state.channels[channel][i].id != state.channels[channel][at].id);
    }
    lemma_without_single(before, id, at);
    at
}

/// Removing a subscription touches nothing else: the allocator of ids, the
/// other channels, and what was delivered to the subscriptions that stay.
pub proof fn unsubscribe_keeps_the_rest(state: RegistryState, channel: Seq<char>, id: u64)
    ensures
        state.unsubscribe(channel, id).next_id == state.next_id,
        forall|other: Seq<char>|
            #![trigger state.unsubscribe(channel, id).has_channel(other)]
            state.unsubscribe(channel, id).has_channel(other) == state.has_channel(other),
        forall|other: Seq<char>|
            other != channel ==> #[trigger] state.unsubscribe(channel, id).subscriptions(other)
                == state.subscriptions(other),
        forall|kept: SubscriptionState|
            #![trigger state.unsubscribe(channel, id).subscriptions(channel).contains(kept)]
            state.unsubscribe(channel, id).subscriptions(channel).contains(kept)
                ==> state.subscriptions(channel).contains(kept),
{
    let before = state.subscriptions(channel);
    let after = state.unsubscribe(channel, id).subscriptions(channel);
    assert forall|kept: SubscriptionState| #[trigger] after.contains(kept) implies before.contains(
        kept,
    ) by {
        if state.has_subscriber(channel, id) {
            assert(after == without(before, id));
            before.lemma_filter_contains_rev(|s: SubscriptionState| s.id != id, kept);
        }
    }
}

/// Removing a subscription a second time fails with `SubscriberNotFound`.
pub proof fn unsubscribe_twice_fails(state: RegistryState, channel: Seq<char>, id: u64)
    requires
        state.has_subscriber(channel, id),
    ensures
        state.unsubscribe(channel, id).unsubscribe_outcome(channel, id) == Err::<
            (),
            BrokerErrorView,
        >(BrokerErrorView::SubscriberNotFound(id, channel)),
{
    lemma_without_drops(state.subscriptions(channel), id);
}

/// Removing an id that the channel does not have fails with
/// `SubscriberNotFound` and changes nothing.
pub proof fn unsubscribe_unknown_fails(state: RegistryState, channel: Seq<char>, id: u64)
    requires
        state.has_channel(channel),
        !holds(state.subscriptions(channel), id),
    ensures
        state.unsubscribe_outcome(channel, id) == Err::<(), BrokerErrorView>(
            BrokerErrorView::SubscriberNotFound(id, channel),
        ),
        state.unsubscribe(channel, id) == state,
{
}

/// An id that was never handed out is on no channel, and so is an id that
/// was handed out on another channel: removing either fails with
/// `SubscriberNotFound`.
pub proof fn unsubscribe_foreign_fails(
    state: RegistryState,
    channel: Seq<char>,
    id: u64,
    home: Seq<char>,
)
    requires
        state.well_formed(),
        state.has_channel(channel),
        id == 0 || id >= state.next_id || (home != channel && state.has_subscriber(home, id)),
    ensures
        state.unsubscribe_outcome(channel, id) == Err::<(), BrokerErrorView>(
            BrokerErrorView::SubscriberNotFound(id, channel),
        ),
{
    if holds(state.subscriptions(channel), id) {
        let i = choose|i: int|
            0 <= i < state.subscriptions(channel).len() && (#[trigger] state.subscriptions(
                channel,
            )[i]).id == id;
        assert(state.channels[channel][i].id == id);
        if home != channel && state.has_subscriber(home, id) {
            let j = choose|j: int|
                0 <= j < state.subscriptions(home).len() && (#[trigger] state.subscriptions(
                    home,
                )[j]).id == id;
            assert(state.channels[home][j].id == id);
        }
    }
}

/// An id is never used again: once a subscription is removed, every later
/// subscription gets a larger id.
pub proof fn removed_id_is_not_reused(
    state: RegistryState,
    channel: Seq<char>,
    id: u64,
    later: Seq<char>,
)
    requires
        state.well_formed(),
        state.has_subscriber(channel, id),
        state.has_channel(later),
    ensures
        state.unsubscribe(channel, id).subscribe_outcome(later) == Ok::<u64, BrokerErrorView>(
            state.next_id as u64,
        ),
        id < state.next_id,
{
    let i = choose|i: int|
        0 <= i < state.subscriptions(channel).len() && (#[trigger] state.subscriptions(
            channel,
        )[i]).id == id;
    assert(state.channels[channel][i].id == id);
}

/// A channel, once registered, stays registered: no operation takes a channel
/// away.
pub proof fn channels_are_never_removed(
    state: RegistryState,
    name: Seq<char>,
    other: Seq<char>,
    id: u64,
    payload: Seq<u8>,
    taken: Seq<bool>,
)
    requires
        state.has_channel(name),
    ensures
        state.create_channel(other).has_channel(name),
        state.subscribe(other).has_channel(name),
        state.unsubscribe(other, id).has_channel(name),
        state.publish(other, payload, taken).has_channel(name),
{
}

/// A subscription that was removed never comes back: an id that was handed
/// out and is in use on no channel is in use on no channel after any
/// operation.
pub proof fn removed_subscription_stays_removed(
    state: RegistryState,
    id: u64,
    other: Seq<char>,
    other_id: u64,
    payload: Seq<u8>,
    taken: Seq<bool>,
)
    requires
        state.well_formed(),
        id < state.next_id,
        forall|name: Seq<char>| !state.has_subscriber(name, id),
    ensures
        forall|name: Seq<char>| !state.create_channel(other).has_subscriber(name, id),
        forall|name: Seq<char>| !state.subscribe(other).has_subscriber(name, id),
        forall|name: Seq<char>| !state.unsubscribe(other, other_id).has_subscriber(name, id),
        forall|name: Seq<char>| !state.publish(other, payload, taken).has_subscriber(name, id),
{
    assert forall|name: Seq<char>| !state.create_channel(other).has_subscriber(name, id) by {
        assert(!state.has_subscriber(name, id));
        if state.create_channel(other).has_subscriber(name, id) {
            let subscriptions = state.create_channel(other).subscriptions(name);
            let i = choose|i: int|
                0 <= i < subscriptions.len() && (#[trigger] subscriptions[i]).id == id;
            assert(state.subscriptions(name)[i].id == id);
        }
    }
    assert forall|name: Seq<char>| !state.subscribe(other).has_subscriber(name, id) by {
        assert(!state.has_subscriber(name, id));
        if state.subscribe(other).has_subscriber(name, id) {
            let subscriptions = state.subscribe(other).subscriptions(name);
            let i = choose|i: int|
                0 <= i < subscriptions.len() && (#[trigger] subscriptions[i]).id == id;
            if name == other && i == state.subscriptions(name).len() {
                assert(subscriptions[i].id == state.next_id);
            } else {
                assert(state.subscriptions(name)[i].id == id);
            }
        }
    }
    assert forall|name: Seq<char>| !state.unsubscribe(other, other_id).has_subscriber(
        name,
        id,
    ) by {
        assert(!state.has_subscriber(name, id));
        let after = state.unsubscribe(other, other_id);
        if after.has_subscriber(name, id) {
            let subscriptions = after.subscriptions(name);
            let i = choose|i: int|
                0 <= i < subscriptions.len() && (#[trigger] subscriptions[i]).id == id;
            if name == other && state.has_subscriber(other, other_id) {
                let before = state.subscriptions(name);
                assert(subscriptions.contains(subscriptions[i]));
                before.lemma_filter_contains_rev(
                    |s: SubscriptionState| s.id != other_id,
                    subscriptions[i],
                );
                let j = choose|j: int| 0 <= j < before.len() && before[j] == subscriptions[i];
                assert(before[j].id == id);
            } else {
                assert(state.subscriptions(name)[i].id == id);
            }
        }
    }
    assert forall|name: Seq<char>| !state.publish(other, payload, taken).has_subscriber(
        name,
        id,
    ) by {
        assert(!state.has_subscriber(name, id));
        let after = state.publish(other, payload, taken);
        if after.has_subscriber(name, id) {
            let subscriptions = after.subscriptions(name);
            let i = choose|i: int|
                0 <= i < subscriptions.len() && (#[trigger] subscriptions[i]).id == id;
            assert(state.subscriptions(name)[i].id == id);
        }
    }
}

/// Publishing on a channel without subscriptions succeeds, makes no offer and
/// changes nothing.
pub proof fn publish_without_subscribers(
    state: RegistryState,
    channel: Seq<char>,
    payload: Seq<u8>,
    taken: Seq<bool>,
)
    requires
        state.has_channel(channel),
        state.subscriptions(channel).len() == 0,
    ensures
        state.publish_outcome(channel) == Ok::<Seq<u64>, BrokerErrorView>(Seq::empty()),
        state.publish(channel, payload, taken) == state,
{
    assert(ids(state.subscriptions(channel)) =~= Seq::empty());
    assert(fan_out(state.subscriptions(channel), payload, taken) =~= state.subscriptions(channel));
    assert(state.publish(channel, payload, taken).channels =~= state.channels);
}

/// Publishing on a channel that is not registered fails with
/// `ChannelNotFound`, whatever else is registered.
pub proof fn publish_on_missing_channel_fails(state: RegistryState, channel: Seq<char>)
    requires
        !state.has_channel(channel),
    ensures
        state.publish_outcome(channel) == Err::<Seq<u64>, BrokerErrorView>(
            BrokerErrorView::ChannelNotFound(channel),
        ),
{
}

} // verus!
