use peer2package::encoding::{encode_confirm_fixed, MessageAck, PublishConfirm};
use peer2package::store::{BrokerStore, NotOwned, RoutingError, StoreConflict};

fn store_with_binding(queues: &[&str]) -> BrokerStore {
    let mut store = BrokerStore::new();
    let exchange = "e".to_string();
    let routing_key = "r".to_string();
    for q in queues {
        store.add_binding(&exchange, &routing_key, &q.to_string());
    }
    store
}

#[test]
fn publish_to_two_bound_queues() {
    let mut store = store_with_binding(&["q1", "q2"]);
    let receipt = store
        .publish(&"e".to_string(), &"r".to_string(), b"hello".to_vec())
        .unwrap();
    let mut queues = receipt.queues.clone();
    queues.sort();
    assert_eq!(queues, vec!["q1".to_string(), "q2".to_string()]);
    assert!(store.available_contains(&"q1".to_string(), receipt.msg_id));
    assert!(store.available_contains(&"q2".to_string(), receipt.msg_id));
    assert!(!store.available_contains(&"q3".to_string(), receipt.msg_id));
    assert!(store.message_exists(receipt.msg_id));
    // the publish response on the wire is the fixed one-byte confirmation
    assert_eq!(encode_confirm_fixed(&PublishConfirm::Ack), 0);
}

#[test]
fn publish_unknown_exchange_changes_nothing() {
    let mut store = store_with_binding(&["q1"]);
    let r = store.publish(&"nope".to_string(), &"r".to_string(), b"x".to_vec());
    assert_eq!(r.unwrap_err(), RoutingError::UnknownExchange);
    assert!(!store.message_exists(0));
    assert!(!store.available_contains(&"q1".to_string(), 0));
}

#[test]
fn publish_unknown_route_changes_nothing() {
    let mut store = store_with_binding(&["q1"]);
    let r = store.publish(&"e".to_string(), &"bad-key".to_string(), b"x".to_vec());
    assert_eq!(r.unwrap_err(), RoutingError::UnknownRoute);
    assert!(!store.message_exists(0));
    assert!(!store.available_contains(&"q1".to_string(), 0));
}

#[test]
fn concurrent_acquires_one_wins() {
    let q1 = "q1".to_string();
    let mut store = store_with_binding(&["q1"]);
    let receipt = store.publish(&"e".to_string(), &"r".to_string(), b"only".to_vec()).unwrap();
    // both consumers scan and see the same entry
    let seen_a = store.first_available(&q1).unwrap();
    let seen_b = store.first_available(&q1).unwrap();
    assert_eq!(seen_a, receipt.msg_id);
    assert_eq!(seen_b, receipt.msg_id);
    // exactly one commit succeeds; the loser observes the conflict
    let won = store.commit_acquire(&q1, seen_a, 1).unwrap();
    assert_eq!(won, b"only".to_vec());
    assert_eq!(store.commit_acquire(&q1, seen_b, 2), Err(StoreConflict));
    // the loser retries from the scan and now blocks: nothing is available
    assert_eq!(store.first_available(&q1), None);
    assert_eq!(store.acquire(&q1, 2), None);
    // the winner alone holds the message
    assert!(store.connection_owns(1, &q1, receipt.msg_id));
    assert!(!store.connection_owns(2, &q1, receipt.msg_id));
}

#[test]
fn nack_restores_availability_for_any_consumer() {
    let q1 = "q1".to_string();
    let mut store = store_with_binding(&["q1"]);
    let receipt = store.publish(&"e".to_string(), &"r".to_string(), b"again".to_vec()).unwrap();
    let (m, _) = store.acquire(&q1, 1).unwrap();
    assert_eq!(m, receipt.msg_id);
    store.acknowledge(&q1, m, 1, MessageAck::Nack).unwrap();
    assert!(store.available_contains(&q1, m));
    assert!(!store.acquired_contains(&q1, m));
    assert!(!store.connection_owns(1, &q1, m));
    assert!(store.message_exists(m));
    // a different connection can acquire the redelivery
    let (m2, payload) = store.acquire(&q1, 2).unwrap();
    assert_eq!(m2, m);
    assert_eq!(payload, b"again".to_vec());
}

#[test]
fn reject_deletes_body_and_leaves_queue_empty() {
    let q1 = "q1".to_string();
    let mut store = store_with_binding(&["q1"]);
    let receipt = store.publish(&"e".to_string(), &"r".to_string(), b"bad".to_vec()).unwrap();
    let (m, _) = store.acquire(&q1, 1).unwrap();
    assert_eq!(m, receipt.msg_id);
    store.acknowledge(&q1, m, 1, MessageAck::Reject).unwrap();
    // terminal: body deleted, nothing reappears, nothing is kept elsewhere
    assert!(!store.message_exists(m));
    assert!(!store.available_contains(&q1, m));
    assert!(!store.acquired_contains(&q1, m));
    assert!(!store.connection_owns(1, &q1, m));
    assert_eq!(store.acquire(&q1, 2), None);
}

#[test]
fn ack_is_terminal_and_delivers() {
    let q1 = "q1".to_string();
    let mut store = store_with_binding(&["q1"]);
    let receipt = store.publish(&"e".to_string(), &"r".to_string(), b"done".to_vec()).unwrap();
    let (m, payload) = store.acquire(&q1, 1).unwrap();
    assert_eq!(m, receipt.msg_id);
    assert_eq!(payload, b"done".to_vec());
    store.acknowledge(&q1, m, 1, MessageAck::Ack).unwrap();
    assert!(!store.acquired_contains(&q1, m));
    assert!(!store.connection_owns(1, &q1, m));
    assert!(!store.message_exists(m));
}

#[test]
fn double_and_foreign_acknowledgements_are_refused() {
    let q1 = "q1".to_string();
    let mut store = store_with_binding(&["q1"]);
    store.publish(&"e".to_string(), &"r".to_string(), b"x".to_vec()).unwrap();
    let (m, _) = store.acquire(&q1, 1).unwrap();
    // a connection that does not hold the message cannot resolve it
    assert_eq!(store.acknowledge(&q1, m, 99, MessageAck::Ack), Err(NotOwned));
    store.acknowledge(&q1, m, 1, MessageAck::Ack).unwrap();
    // and a second acknowledgement is refused too
    assert_eq!(store.acknowledge(&q1, m, 1, MessageAck::Ack), Err(NotOwned));
}

#[test]
fn queue_order_is_first_in_first_out() {
    let q1 = "q1".to_string();
    let mut store = store_with_binding(&["q1"]);
    let first = store.publish(&"e".to_string(), &"r".to_string(), b"one".to_vec()).unwrap();
    let second = store.publish(&"e".to_string(), &"r".to_string(), b"two".to_vec()).unwrap();
    assert!(first.msg_id < second.msg_id);
    let (m1, p1) = store.acquire(&q1, 1).unwrap();
    assert_eq!(m1, first.msg_id);
    assert_eq!(p1, b"one".to_vec());
    let (m2, p2) = store.acquire(&q1, 1).unwrap();
    assert_eq!(m2, second.msg_id);
    assert_eq!(p2, b"two".to_vec());
}

#[test]
fn reclaim_returns_inflight_messages_of_dead_connection() {
    let q1 = "q1".to_string();
    let mut store = store_with_binding(&["q1"]);
    let a = store.publish(&"e".to_string(), &"r".to_string(), b"a".to_vec()).unwrap();
    let b = store.publish(&"e".to_string(), &"r".to_string(), b"b".to_vec()).unwrap();
    let (m1, _) = store.acquire(&q1, 7).unwrap();
    let (m2, _) = store.acquire(&q1, 7).unwrap();
    assert_eq!((m1, m2), (a.msg_id, b.msg_id));
    store.reclaim_connection(7);
    assert!(store.available_contains(&q1, m1));
    assert!(store.available_contains(&q1, m2));
    assert!(!store.acquired_contains(&q1, m1));
    assert!(!store.connection_owns(7, &q1, m1));
    // redelivery works, in arrival order
    let (m, p) = store.acquire(&q1, 8).unwrap();
    assert_eq!(m, m1);
    assert_eq!(p, b"a".to_vec());
}

#[test]
fn shared_body_survives_until_last_queue_resolves() {
    // one message routed to two queues: resolving it on one queue keeps the
    // body while the other queue still references it
    let q1 = "q1".to_string();
    let q2 = "q2".to_string();
    let mut store = store_with_binding(&["q1", "q2"]);
    let receipt = store.publish(&"e".to_string(), &"r".to_string(), b"shared".to_vec()).unwrap();
    let m = receipt.msg_id;
    let (m1, _) = store.acquire(&q1, 1).unwrap();
    assert_eq!(m1, m);
    store.acknowledge(&q1, m, 1, MessageAck::Ack).unwrap();
    assert!(store.message_exists(m));
    let (m2, p2) = store.acquire(&q2, 2).unwrap();
    assert_eq!(m2, m);
    assert_eq!(p2, b"shared".to_vec());
    store.acknowledge(&q2, m, 2, MessageAck::Ack).unwrap();
    assert!(!store.message_exists(m));
}

#[test]
fn acquire_on_empty_queue_reports_nothing() {
    let q1 = "q1".to_string();
    let mut store = store_with_binding(&["q1"]);
    assert_eq!(store.first_available(&q1), None);
    assert_eq!(store.acquire(&q1, 1), None);
}

#[test]
fn add_binding_is_idempotent() {
    let mut store = BrokerStore::new();
    let (e, r, q) = ("e".to_string(), "r".to_string(), "q1".to_string());
    store.add_binding(&e, &r, &q);
    store.add_binding(&e, &r, &q);
    let receipt = store.publish(&e, &r, b"x".to_vec()).unwrap();
    assert_eq!(receipt.queues, vec!["q1".to_string()]);
}
