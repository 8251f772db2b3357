//! The delivery queues of subscriptions.
//!
//! A subscription delivers through a bounded queue of `tokio::sync::mpsc`
//! that carries `bytes::Bytes` payloads. The broker keeps the producer side
//! and hands the consumer side to the subscriber. The items of this module are
//! the boundary to those two crates: their contracts are taken on trust.

use bytes::Bytes;
use tokio::sync::mpsc::error::TrySendError;
use tokio::sync::mpsc::{Receiver, Sender};
use vstd::prelude::*;

verus! {

/// `bytes::Bytes`, an immutable, cheaply cloneable chunk of bytes.
#[verifier::external_type_specification]
#[verifier::external_body]
pub struct ExBytes(bytes::Bytes);

/// `tokio::sync::mpsc::Sender`, the producer side of a bounded queue.
#[verifier::external_type_specification]
#[verifier::external_body]
#[verifier::reject_recursive_types(T)]
pub struct ExSender<T>(tokio::sync::mpsc::Sender<T>);

/// `tokio::sync::mpsc::Receiver`, the consumer side of a bounded queue.
#[verifier::external_type_specification]
#[verifier::external_body]
#[verifier::reject_recursive_types(T)]
pub struct ExReceiver<T>(tokio::sync::mpsc::Receiver<T>);

/// The bytes that a payload holds, in order.
pub uninterp spec fn payload_bytes(payload: Bytes) -> Seq<u8>;

/// The number of payloads that the queue behind `endpoint` buffers at most:
/// the bound it was created with, as `Sender::max_capacity` reports it.
pub uninterp spec fn queue_capacity(endpoint: Sender<Bytes>) -> nat;

/// The number of payloads that the queue behind `consumer` buffers at most,
/// as `Receiver::max_capacity` reports it.
pub uninterp spec fn consumer_capacity(consumer: Receiver<Bytes>) -> nat;

/// The payloads that the queue behind `endpoint` has taken in through this
/// endpoint so far, oldest first. A payload stays in this sequence after the
/// consumer has received it.
pub uninterp spec fn accepted(endpoint: Sender<Bytes>) -> Seq<Seq<u8>>;

/// The largest bound that a queue can be created with.
pub open spec fn max_queue_capacity() -> nat {
    (usize::MAX / 8) as nat
}

/// How one offer of a payload to a subscriber's queue ended.
#[derive(Clone, Copy, Debug, PartialEq, Eq)]
pub enum Offer {
    /// The queue took the payload in.
    Accepted,
    /// The queue held as many payloads as it can buffer; the payload was
    /// dropped.
    Full,
    /// The subscriber has closed or discarded the consumer side; the payload
    /// was dropped.
    Closed,
}

/// Creates a bounded queue by `tokio::sync::mpsc::channel` and returns its
/// producer and consumer side.
///
/// Trusted: both sides report `capacity` as the bound of the queue, and
/// nothing has been sent through the producer side yet. `channel` panics for
/// a capacity of zero or above `usize::MAX >> 3`, which `requires` leaves
/// out.
#[verifier::external_body]
pub(crate) fn open_queue(capacity: usize) -> (ends: (Sender<Bytes>, Receiver<Bytes>))
    requires
        0 < capacity <= max_queue_capacity(),
    ensures
        queue_capacity(ends.0) == capacity,
        consumer_capacity(ends.1) == capacity,
        accepted(ends.0) == Seq::<Seq<u8>>::empty(),
{
    tokio::sync::mpsc::channel(capacity)
}

/// Offers `payload` to the queue behind `endpoint` by `Sender::try_send`,
/// which returns at once whether or not the queue has room. `try_send` needs
/// only shared access; the endpoint is taken exclusively so that the contract
/// can speak of it before and after the call.
///
/// Trusted: `try_send` enqueues the payload exactly when it returns `Ok`, and
/// hands it back inside the error otherwise, so the payloads taken in
/// through `endpoint` grow by `payload` on `Accepted` and stay as they were
/// on `Full` and `Closed`. The bound of the queue never changes. Which of
/// the three outcomes occurs depends on the consumer and is left open.
#[verifier::external_body]
pub(crate) fn offer(endpoint: &mut Sender<Bytes>, payload: Bytes) -> (outcome: Offer)
    ensures
        queue_capacity(*final(endpoint)) == queue_capacity(*old(endpoint)),
        accepted(*final(endpoint)) == if outcome is Accepted {
            accepted(*old(endpoint)).push(payload_bytes(payload))
        } else {
            accepted(*old(endpoint))
        },
{
    match endpoint.try_send(payload) {
        Ok(()) => Offer::Accepted,
        Err(TrySendError::Full(_)) => Offer::Full,
        Err(TrySendError::Closed(_)) => Offer::Closed,
    }
}

/// Makes another handle to the same payload by `Bytes::clone`.
///
/// Trusted: the clone holds the same bytes as the payload it was made from.
#[verifier::external_body]
pub(crate) fn duplicate(payload: &Bytes) -> (copy: Bytes)
    ensures
        payload_bytes(copy) == payload_bytes(*payload),
{
    payload.clone()
}

} // verus!
