use peer2package::dispatch::{
    stream_step, DispatchOutcome, StreamEvent, StreamPhase, dispatch_request,
};
use peer2package::encoding::{encode_request, FramingError, MessageAck};
use peer2package::owned::OwnedRequest;
use peer2package::store::{BrokerStore, RoutingError};
use peer2package::wakeup::{wait_step, QueueSignal, WaitEvent, WaitRound, WaiterPhase};
use peer2package::{Id, Requests};

fn broker() -> BrokerStore {
    let mut store = BrokerStore::new();
    store.add_binding(&"e".to_string(), &"r".to_string(), &"q1".to_string());
    store
}

#[test]
fn dispatch_publish_reports_queues_to_signal() {
    let mut store = broker();
    let req = Requests::Publish {
        exchange: "e".to_string(),
        routing_key: "r".to_string(),
        payload: b"hello".to_vec(),
    };
    match dispatch_request(&mut store, 1, &req) {
        DispatchOutcome::PublishDone { msg_id, queues } => {
            assert_eq!(queues, vec!["q1".to_string()]);
            assert!(store.available_contains(&"q1".to_string(), msg_id));
            // the signal for each listed queue fires after the durable commit
            let mut signal = QueueSignal::new();
            for _ in &queues {
                signal.notify();
            }
            assert!(signal.take_permit());
            assert!(!signal.take_permit());
        },
        _ => panic!("publish was not committed"),
    }
}

#[test]
fn dispatch_publish_unknown_exchange_is_rejected() {
    let mut store = broker();
    let req = Requests::Publish {
        exchange: "ghost".to_string(),
        routing_key: "r".to_string(),
        payload: vec![],
    };
    match dispatch_request(&mut store, 1, &req) {
        DispatchOutcome::PublishRejected { error } => {
            assert_eq!(error, RoutingError::UnknownExchange)
        },
        _ => panic!("publish to an unknown exchange went through"),
    }
}

#[test]
fn dispatch_consume_delivers_then_waits() {
    let mut store = broker();
    let publish = Requests::Publish {
        exchange: "e".to_string(),
        routing_key: "r".to_string(),
        payload: b"msg".to_vec(),
    };
    dispatch_request(&mut store, 1, &publish);
    let consume = Requests::Consume { queue: "q1".to_string() };
    match dispatch_request(&mut store, 2, &consume) {
        DispatchOutcome::Delivered { msg_id, payload } => {
            assert_eq!(payload, b"msg".to_vec());
            store.acknowledge(&"q1".to_string(), msg_id, 2, MessageAck::Ack).unwrap();
        },
        _ => panic!("no delivery for an available message"),
    }
    match dispatch_request(&mut store, 2, &consume) {
        DispatchOutcome::NoMessage => {},
        _ => panic!("an empty queue should leave the consumer waiting"),
    }
}

#[test]
fn dispatch_routes_discovery_variants_through() {
    let mut store = broker();
    let id = Id { hash_type: "sha2-256".to_string(), hash: vec![1, 2, 3] };
    let req = Requests::FindNode(id);
    match dispatch_request(&mut store, 1, &req) {
        DispatchOutcome::Discovery => {},
        _ => panic!("discovery requests are routed, not handled, here"),
    }
}

#[test]
fn stream_phases_run_read_dispatch_respond_close() {
    let p0 = StreamPhase::Reading;
    let p1 = stream_step(p0, StreamEvent::RequestRead);
    assert_eq!(p1, StreamPhase::Dispatching);
    let p2 = stream_step(p1, StreamEvent::HandledWithResponse);
    assert_eq!(p2, StreamPhase::Responding);
    let p3 = stream_step(p2, StreamEvent::ResponseWritten);
    assert_eq!(p3, StreamPhase::Closed);
}

#[test]
fn stream_failure_closes_and_closed_is_terminal() {
    let p = stream_step(StreamPhase::Dispatching, StreamEvent::Failed);
    assert_eq!(p, StreamPhase::Closed);
    for e in [
        StreamEvent::RequestRead,
        StreamEvent::HandledWithResponse,
        StreamEvent::HandledSilently,
        StreamEvent::ResponseWritten,
        StreamEvent::Failed,
    ] {
        assert_eq!(stream_step(StreamPhase::Closed, e), StreamPhase::Closed);
    }
}

#[test]
fn wakeup_publish_racing_ahead_of_park_is_not_lost() {
    // arm, then a publish lands before the consumer can park: the stored
    // permit turns the park into an immediate wake
    let s0 = WaitRound { phase: WaiterPhase::Start, permit: false, msg_ready: false };
    let s1 = wait_step(s0, WaitEvent::Arm);
    assert_eq!(s1.phase, WaiterPhase::Armed);
    let s2 = wait_step(s1, WaitEvent::PublishAndNotify);
    assert!(s2.permit && s2.msg_ready);
    let s3 = wait_step(s2, WaitEvent::CheckFound);
    assert_eq!(s3.phase, WaiterPhase::Start);
}

#[test]
fn wakeup_parked_consumer_is_woken_by_publish() {
    let s0 = WaitRound { phase: WaiterPhase::Start, permit: false, msg_ready: false };
    let s1 = wait_step(s0, WaitEvent::Arm);
    let s2 = wait_step(s1, WaitEvent::CheckEmptyAndPark);
    assert_eq!(s2.phase, WaiterPhase::Parked);
    assert!(!s2.msg_ready && !s2.permit);
    let s3 = wait_step(s2, WaitEvent::PublishAndNotify);
    assert_eq!(s3.phase, WaiterPhase::Woken);
    assert!(s3.msg_ready);
    let s4 = wait_step(s3, WaitEvent::Retry);
    assert_eq!(s4.phase, WaiterPhase::Start);
}

#[test]
fn wakeup_pending_permit_prevents_parking() {
    let s0 = WaitRound { phase: WaiterPhase::Armed, permit: true, msg_ready: false };
    let s1 = wait_step(s0, WaitEvent::CheckEmptyAndPark);
    assert_eq!(s1.phase, WaiterPhase::Woken);
    assert!(!s1.permit);
}

#[test]
fn owned_request_keeps_buffer_and_view_together() {
    let req = Requests::Publish {
        exchange: "e".to_string(),
        routing_key: "r".to_string(),
        payload: b"zero-copy".to_vec(),
    };
    let wire = encode_request(&req).unwrap();
    let owned = OwnedRequest::decode_owned(wire.clone()).unwrap();
    assert_eq!(owned.get(), &req);
    assert_eq!(owned.bytes(), &wire);
}

#[test]
fn owned_request_rejects_malformed_buffers() {
    let r = OwnedRequest::decode_owned(vec![42, 0, 1]);
    assert!(matches!(r, Err(FramingError::DecodeError)));
}
