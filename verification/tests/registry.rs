use bytes::Bytes;
use tokio::sync::mpsc::error::TryRecvError;

use crabble::broker::{Broker, Delivery};
use crabble::endpoint::Offer;
use crabble::error::BrokerError;
use crabble::registry::QUEUE_CAPACITY;

fn accepted(subscriber: u64) -> Delivery {
    Delivery {
        subscriber,
        outcome: Offer::Accepted,
    }
}

#[test]
fn new_broker_hands_out_id_one_first() {
    let mut broker = Broker::new();
    assert_eq!(broker.next_subscriber_id(), 1);
    broker.create_channel("general".to_string()).unwrap();
    let (id, _rx) = broker.subscribe("general").unwrap();
    assert_eq!(id, 1);
    assert_eq!(broker.next_subscriber_id(), 2);
}

#[test]
fn create_channel_twice_is_refused() {
    let mut broker = Broker::new();
    assert_eq!(broker.create_channel("test".to_string()), Ok(()));
    assert_eq!(
        broker.create_channel("test".to_string()),
        Err(BrokerError::ChannelAlreadyExists("test".to_string()))
    );
}

#[test]
fn refused_creation_keeps_the_subscriptions() {
    let mut broker = Broker::new();
    broker.create_channel("test".to_string()).unwrap();
    let (id1, mut rx1) = broker.subscribe("test").unwrap();
    let (id2, mut rx2) = broker.subscribe("test").unwrap();

    assert_eq!(
        broker.create_channel("test".to_string()),
        Err(BrokerError::ChannelAlreadyExists("test".to_string()))
    );

    let deliveries = broker.publish("test", Bytes::from("still here")).unwrap();
    assert_eq!(deliveries, vec![accepted(id1), accepted(id2)]);
    assert_eq!(rx1.try_recv(), Ok(Bytes::from("still here")));
    assert_eq!(rx2.try_recv(), Ok(Bytes::from("still here")));
    assert_eq!(broker.next_subscriber_id(), 3);
}

#[test]
fn channel_names_are_case_sensitive() {
    let mut broker = Broker::new();
    assert_eq!(broker.create_channel("News".to_string()), Ok(()));
    assert_eq!(broker.create_channel("news".to_string()), Ok(()));
    assert_eq!(
        broker.subscribe("NEWS").err(),
        Some(BrokerError::ChannelNotFound("NEWS".to_string()))
    );
    let (_id, mut rx_lower) = broker.subscribe("news").unwrap();
    assert_eq!(broker.publish("News", Bytes::from("x")), Ok(vec![]));
    assert_eq!(rx_lower.try_recv(), Err(TryRecvError::Empty));
}

#[test]
fn empty_channel_name_is_a_name_like_any_other() {
    let mut broker = Broker::new();
    assert_eq!(broker.create_channel(String::new()), Ok(()));
    assert_eq!(
        broker.create_channel(String::new()),
        Err(BrokerError::ChannelAlreadyExists(String::new()))
    );
    let (id, mut rx) = broker.subscribe("").unwrap();
    assert_eq!(broker.publish("", Bytes::from("x")), Ok(vec![accepted(id)]));
    assert_eq!(rx.try_recv(), Ok(Bytes::from("x")));
}

#[test]
fn subscribe_to_missing_channel_fails() {
    let mut broker = Broker::new();
    broker.create_channel("test".to_string()).unwrap();
    let result = broker.subscribe("nope");
    assert_eq!(
        result.err(),
        Some(BrokerError::ChannelNotFound("nope".to_string()))
    );
}

#[test]
fn failed_subscribe_uses_no_id() {
    let mut broker = Broker::new();
    broker.create_channel("a".to_string()).unwrap();
    broker.create_channel("b".to_string()).unwrap();

    let (first, _rx1) = broker.subscribe("a").unwrap();
    assert_eq!(first, 1);
    assert!(broker.subscribe("missing").is_err());
    assert!(broker.subscribe("missing").is_err());
    assert_eq!(broker.next_subscriber_id(), 2);

    let (second, _rx2) = broker.subscribe("b").unwrap();
    assert_eq!(second, 2);
    let (third, _rx3) = broker.subscribe("a").unwrap();
    assert_eq!(third, 3);
}

#[test]
fn ids_are_shared_by_all_channels() {
    let mut broker = Broker::new();
    broker.create_channel("a".to_string()).unwrap();
    broker.create_channel("b".to_string()).unwrap();
    let mut seen = Vec::new();
    let mut consumers = Vec::new();
    for round in 0..5 {
        let channel = if round % 2 == 0 { "a" } else { "b" };
        let (id, rx) = broker.subscribe(channel).unwrap();
        seen.push(id);
        consumers.push(rx);
    }
    assert_eq!(seen, vec![1, 2, 3, 4, 5]);
    assert_eq!(
        broker.publish("a", Bytes::from("x")),
        Ok(vec![accepted(1), accepted(3), accepted(5)])
    );
    assert_eq!(
        broker.publish("b", Bytes::from("y")),
        Ok(vec![accepted(2), accepted(4)])
    );
}

#[test]
fn removed_id_is_not_handed_out_again() {
    let mut broker = Broker::new();
    broker.create_channel("test".to_string()).unwrap();
    let (id1, _rx1) = broker.subscribe("test").unwrap();
    broker.unsubscribe("test", id1).unwrap();
    let (id2, _rx2) = broker.subscribe("test").unwrap();
    assert_eq!(id1, 1);
    assert_eq!(id2, 2);
}

#[test]
fn publish_reaches_every_subscriber_once() {
    let mut broker = Broker::new();
    broker.create_channel("test".to_string()).unwrap();
    let mut consumers = Vec::new();
    for _ in 0..7 {
        consumers.push(broker.subscribe("test").unwrap());
    }

    let payload = Bytes::from(vec![0u8, 1, 2, 253, 254, 255]);
    let deliveries = broker.publish("test", payload.clone()).unwrap();

    assert_eq!(deliveries.len(), 7);
    for (index, (id, rx)) in consumers.iter_mut().enumerate() {
        assert_eq!(deliveries[index], accepted(*id));
        assert_eq!(rx.try_recv(), Ok(payload.clone()));
        assert_eq!(rx.try_recv(), Err(TryRecvError::Empty));
    }
}

#[test]
fn publishes_arrive_in_the_order_they_were_made() {
    let mut broker = Broker::new();
    broker.create_channel("test".to_string()).unwrap();
    let (_id, mut rx) = broker.subscribe("test").unwrap();
    broker.publish("test", Bytes::from("one")).unwrap();
    broker.publish("test", Bytes::from("two")).unwrap();
    broker.publish("test", Bytes::from("three")).unwrap();
    assert_eq!(rx.try_recv(), Ok(Bytes::from("one")));
    assert_eq!(rx.try_recv(), Ok(Bytes::from("two")));
    assert_eq!(rx.try_recv(), Ok(Bytes::from("three")));
    assert_eq!(rx.try_recv(), Err(TryRecvError::Empty));
}

#[test]
fn publish_stays_on_its_channel() {
    let mut broker = Broker::new();
    broker.create_channel("a".to_string()).unwrap();
    broker.create_channel("b".to_string()).unwrap();
    let (id_a, mut rx_a) = broker.subscribe("a").unwrap();
    let (_id_b, mut rx_b) = broker.subscribe("b").unwrap();

    assert_eq!(
        broker.publish("a", Bytes::from("for a")),
        Ok(vec![accepted(id_a)])
    );
    assert_eq!(rx_a.try_recv(), Ok(Bytes::from("for a")));
    assert_eq!(rx_b.try_recv(), Err(TryRecvError::Empty));
}

#[test]
fn publish_without_subscribers_succeeds() {
    let mut broker = Broker::new();
    broker.create_channel("quiet".to_string()).unwrap();
    broker.create_channel("busy".to_string()).unwrap();
    let (_id, mut rx) = broker.subscribe("busy").unwrap();

    assert_eq!(broker.publish("quiet", Bytes::from("anyone?")), Ok(vec![]));
    assert_eq!(rx.try_recv(), Err(TryRecvError::Empty));
    assert_eq!(broker.next_subscriber_id(), 2);
}

#[test]
fn publish_after_last_unsubscribe_succeeds() {
    let mut broker = Broker::new();
    broker.create_channel("test".to_string()).unwrap();
    let (id, _rx) = broker.subscribe("test").unwrap();
    broker.unsubscribe("test", id).unwrap();
    assert_eq!(broker.publish("test", Bytes::from("x")), Ok(vec![]));
}

#[test]
fn publish_to_missing_channel_fails() {
    let mut broker = Broker::new();
    assert_eq!(
        broker.publish("nope", Bytes::from("x")),
        Err(BrokerError::ChannelNotFound("nope".to_string()))
    );
}

#[test]
fn empty_payload_is_delivered() {
    let mut broker = Broker::new();
    broker.create_channel("test".to_string()).unwrap();
    let (id, mut rx) = broker.subscribe("test").unwrap();
    assert_eq!(broker.publish("test", Bytes::new()), Ok(vec![accepted(id)]));
    assert_eq!(rx.try_recv(), Ok(Bytes::new()));
}

#[test]
fn unsubscribed_gets_nothing_and_others_still_do() {
    let mut broker = Broker::new();
    broker.create_channel("test".to_string()).unwrap();
    let (id1, mut rx1) = broker.subscribe("test").unwrap();
    let (id2, mut rx2) = broker.subscribe("test").unwrap();
    let (id3, mut rx3) = broker.subscribe("test").unwrap();

    assert_eq!(broker.unsubscribe("test", id2), Ok(()));

    let deliveries = broker.publish("test", Bytes::from("after")).unwrap();
    assert_eq!(deliveries, vec![accepted(id1), accepted(id3)]);
    assert_eq!(rx1.try_recv(), Ok(Bytes::from("after")));
    assert_eq!(rx3.try_recv(), Ok(Bytes::from("after")));
    assert_eq!(rx2.try_recv(), Err(TryRecvError::Disconnected));
    assert_eq!(rx2.blocking_recv(), None);
}

#[test]
fn unsubscribed_still_drains_what_was_delivered_before() {
    let mut broker = Broker::new();
    broker.create_channel("test".to_string()).unwrap();
    let (id, mut rx) = broker.subscribe("test").unwrap();
    broker.publish("test", Bytes::from("before")).unwrap();
    broker.unsubscribe("test", id).unwrap();
    broker.publish("test", Bytes::from("after")).unwrap();

    assert_eq!(rx.blocking_recv(), Some(Bytes::from("before")));
    assert_eq!(rx.blocking_recv(), None);
}

#[test]
fn unsubscribe_twice_fails() {
    let mut broker = Broker::new();
    broker.create_channel("test".to_string()).unwrap();
    let (id, _rx) = broker.subscribe("test").unwrap();
    assert_eq!(broker.unsubscribe("test", id), Ok(()));
    assert_eq!(
        broker.unsubscribe("test", id),
        Err(BrokerError::SubscriberNotFound(id, "test".to_string()))
    );
}

#[test]
fn unsubscribe_unknown_id_fails() {
    let mut broker = Broker::new();
    broker.create_channel("test".to_string()).unwrap();
    let (_id, mut rx) = broker.subscribe("test").unwrap();
    assert_eq!(
        broker.unsubscribe("test", 0),
        Err(BrokerError::SubscriberNotFound(0, "test".to_string()))
    );
    assert_eq!(
        broker.unsubscribe("test", 99),
        Err(BrokerError::SubscriberNotFound(99, "test".to_string()))
    );
    assert_eq!(
        broker.unsubscribe("test", u64::MAX),
        Err(BrokerError::SubscriberNotFound(u64::MAX, "test".to_string()))
    );
    broker.publish("test", Bytes::from("x")).unwrap();
    assert_eq!(rx.try_recv(), Ok(Bytes::from("x")));
}

#[test]
fn unsubscribe_on_the_wrong_channel_fails() {
    let mut broker = Broker::new();
    broker.create_channel("a".to_string()).unwrap();
    broker.create_channel("b".to_string()).unwrap();
    let (id_a, mut rx_a) = broker.subscribe("a").unwrap();
    let (_id_b, _rx_b) = broker.subscribe("b").unwrap();

    assert_eq!(
        broker.unsubscribe("b", id_a),
        Err(BrokerError::SubscriberNotFound(id_a, "b".to_string()))
    );
    assert_eq!(
        broker.publish("a", Bytes::from("x")),
        Ok(vec![accepted(id_a)])
    );
    assert_eq!(rx_a.try_recv(), Ok(Bytes::from("x")));
}

#[test]
fn unsubscribe_from_missing_channel_fails() {
    let mut broker = Broker::new();
    assert_eq!(
        broker.unsubscribe("nope", 1),
        Err(BrokerError::ChannelNotFound("nope".to_string()))
    );
}

#[test]
fn unsubscribe_keeps_the_order_of_the_others() {
    let mut broker = Broker::new();
    broker.create_channel("test".to_string()).unwrap();
    let mut consumers = Vec::new();
    for _ in 0..5 {
        consumers.push(broker.subscribe("test").unwrap());
    }
    broker.unsubscribe("test", 1).unwrap();
    broker.unsubscribe("test", 4).unwrap();
    let (late, _rx) = broker.subscribe("test").unwrap();
    assert_eq!(late, 6);
    assert_eq!(
        broker.publish("test", Bytes::from("x")),
        Ok(vec![accepted(2), accepted(3), accepted(5), accepted(6)])
    );
}

#[test]
fn queue_holds_exactly_its_capacity() {
    assert_eq!(QUEUE_CAPACITY, 100);
    let mut broker = Broker::new();
    broker.create_channel("test".to_string()).unwrap();
    let (id, mut rx) = broker.subscribe("test").unwrap();
    assert_eq!(rx.max_capacity(), 100);

    for round in 0..100u8 {
        assert_eq!(
            broker.publish("test", Bytes::from(vec![round])),
            Ok(vec![accepted(id)])
        );
    }
    let full = Delivery {
        subscriber: id,
        outcome: Offer::Full,
    };
    assert_eq!(broker.publish("test", Bytes::from("late")), Ok(vec![full]));

    assert_eq!(rx.try_recv(), Ok(Bytes::from(vec![0u8])));
    assert_eq!(
        broker.publish("test", Bytes::from("fits")),
        Ok(vec![accepted(id)])
    );
    for round in 1..100u8 {
        assert_eq!(rx.try_recv(), Ok(Bytes::from(vec![round])));
    }
    assert_eq!(rx.try_recv(), Ok(Bytes::from("fits")));
    assert_eq!(rx.try_recv(), Err(TryRecvError::Empty));
}

#[test]
fn full_queue_does_not_hold_up_the_others() {
    let mut broker = Broker::new();
    broker.create_channel("test".to_string()).unwrap();
    let (slow, _rx_slow) = broker.subscribe("test").unwrap();
    for _ in 0..100 {
        broker.publish("test", Bytes::from("fill")).unwrap();
    }
    let (quick, mut rx_quick) = broker.subscribe("test").unwrap();

    let deliveries = broker.publish("test", Bytes::from("news")).unwrap();
    assert_eq!(
        deliveries,
        vec![
            Delivery {
                subscriber: slow,
                outcome: Offer::Full
            },
            accepted(quick)
        ]
    );
    assert_eq!(rx_quick.try_recv(), Ok(Bytes::from("news")));
}

#[test]
fn discarded_consumer_does_not_fail_the_publish() {
    let mut broker = Broker::new();
    broker.create_channel("test".to_string()).unwrap();
    let (gone, rx_gone) = broker.subscribe("test").unwrap();
    let (stays, mut rx_stays) = broker.subscribe("test").unwrap();
    drop(rx_gone);

    let deliveries = broker.publish("test", Bytes::from("news")).unwrap();
    assert_eq!(
        deliveries,
        vec![
            Delivery {
                subscriber: gone,
                outcome: Offer::Closed
            },
            accepted(stays)
        ]
    );
    assert_eq!(rx_stays.try_recv(), Ok(Bytes::from("news")));
    assert_eq!(broker.unsubscribe("test", gone), Ok(()));
}

#[test]
fn closed_consumer_is_reported_as_closed() {
    let mut broker = Broker::new();
    broker.create_channel("test".to_string()).unwrap();
    let (id, mut rx) = broker.subscribe("test").unwrap();
    broker.publish("test", Bytes::from("early")).unwrap();
    rx.close();
    assert_eq!(
        broker.publish("test", Bytes::from("late")),
        Ok(vec![Delivery {
            subscriber: id,
            outcome: Offer::Closed
        }])
    );
    assert_eq!(rx.try_recv(), Ok(Bytes::from("early")));
    assert_eq!(rx.try_recv(), Err(TryRecvError::Disconnected));
}

#[test]
fn hello_then_world() {
    let mut broker = Broker::new();
    broker.create_channel("test".to_string()).unwrap();
    let (id1, mut e1) = broker.subscribe("test").unwrap();
    let (_id2, mut e2) = broker.subscribe("test").unwrap();

    broker.publish("test", Bytes::from("hello")).unwrap();
    assert_eq!(e1.blocking_recv(), Some(Bytes::from("hello")));
    assert_eq!(e2.blocking_recv(), Some(Bytes::from("hello")));

    broker.unsubscribe("test", id1).unwrap();
    broker.publish("test", Bytes::from("world")).unwrap();
    assert_eq!(e2.blocking_recv(), Some(Bytes::from("world")));
    assert_eq!(e1.blocking_recv(), None);
}
