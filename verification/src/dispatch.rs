//! Per-stream dispatch.
//!
//! Each accepted stream carries exactly one framed request. The dispatcher
//! branches on its variant and drives the store: a publish commits and
//! reports the queues to signal, a consume attempts one acquire, and the
//! discovery variants are routed through unchanged for their out-of-core
//! handlers. A small phase machine records the stream's lifecycle:
//! `Reading`, `Dispatching`, optionally `Responding`, then `Closed`, and
//! `Closed` is terminal — a failed stream never comes back.
use vstd::prelude::*;
use crate::Requests;
use crate::store::{
    BrokerStore, RoutingError, publish_commit, acquire_commit, name_list_contains,
};
use vstd::slice::slice_to_vec;

verus! {

/// The per-stream lifecycle phase.
#[derive(Clone, Copy, PartialEq, Eq, Debug)]
pub enum StreamPhase {
    /// Waiting for the single framed request.
    Reading,
    /// The request is read; a handler is running.
    Dispatching,
    /// The handler produced a response that is being written back.
    Responding,
    /// The stream is finished; nothing follows.
    Closed,
}

/// What just happened on the stream.
#[derive(Clone, Copy, PartialEq, Eq, Debug)]
pub enum StreamEvent {
    /// One framed request was read in full.
    RequestRead,
    /// The handler finished and left a response to write.
    HandledWithResponse,
    /// The handler finished with nothing to write back.
    HandledSilently,
    /// The response was written and the send side finished.
    ResponseWritten,
    /// An unrecoverable error; the stream is abandoned.
    Failed,
}

/// The stream phase machine: reading leads to dispatching, dispatching to
/// responding or straight to closed, responding to closed; a failure closes
/// from anywhere; an event that does not apply leaves the phase alone.
pub open spec fn spec_stream_step(p: StreamPhase, e: StreamEvent) -> StreamPhase {
    match (p, e) {
        (StreamPhase::Reading, StreamEvent::RequestRead) => StreamPhase::Dispatching,
        (StreamPhase::Dispatching, StreamEvent::HandledWithResponse) => StreamPhase::Responding,
        (StreamPhase::Dispatching, StreamEvent::HandledSilently) => StreamPhase::Closed,
        (StreamPhase::Responding, StreamEvent::ResponseWritten) => StreamPhase::Closed,
        (_, StreamEvent::Failed) => StreamPhase::Closed,
        (p2, _) => p2,
    }
}

/// Advances the stream phase machine by one event.
pub fn stream_step(p: StreamPhase, e: StreamEvent) -> (r: StreamPhase)
    ensures
        r == spec_stream_step(p, e),
{
    match (p, e) {
        (StreamPhase::Reading, StreamEvent::RequestRead) => StreamPhase::Dispatching,
        (StreamPhase::Dispatching, StreamEvent::HandledWithResponse) => StreamPhase::Responding,
        (StreamPhase::Dispatching, StreamEvent::HandledSilently) => StreamPhase::Closed,
        (StreamPhase::Responding, StreamEvent::ResponseWritten) => StreamPhase::Closed,
        (_, StreamEvent::Failed) => StreamPhase::Closed,
        (p2, _) => p2,
    }
}

/// Law: a closed stream stays closed, whatever else happens.
pub proof fn lemma_closed_is_terminal(e: StreamEvent)
    ensures
        spec_stream_step(StreamPhase::Closed, e) == StreamPhase::Closed,
{
}

/// What the stream handler is to do next, as decided by one dispatch.
pub enum DispatchOutcome {
    /// The publish committed: write the fixed one-byte confirmation, and —
    /// only now that the commit is durable — signal every listed queue.
    PublishDone { msg_id: u128, queues: Vec<String> },
    /// The publish was refused: report the routing error and close.
    PublishRejected { error: RoutingError },
    /// A message was acquired for this consumer: stream the payload back,
    /// then wait for the fixed-size acknowledgement.
    Delivered { msg_id: u128, payload: Vec<u8> },
    /// Nothing is available on the queue: arm the queue's signal, re-check,
    /// and only then park (the wait protocol), before trying again.
    NoMessage,
    /// A discovery request, routed by this dispatcher but handled outside
    /// the broker core.
    Discovery,
}

/// Dispatches one request read off a stream of connection `conn` against
/// the shared store.
pub fn dispatch_request(store: &mut BrokerStore, conn: u64, req: &Requests) -> (r:
    DispatchOutcome)
    requires
        old(store).wf(),
        old(store).ids_not_exhausted(),
    ensures
        final(store).wf(),
        match r {
            DispatchOutcome::PublishDone { msg_id, queues } => {
                &&& req matches Requests::Publish { exchange, routing_key, payload }
                    && publish_commit(
                    *old(store),
                    *final(store),
                    exchange@,
                    routing_key@,
                    payload@,
                    msg_id,
                ) && (forall|q: Seq<char>|
                    name_list_contains(queues@, q) <==> old(store).routes_to(
                        exchange@,
                        routing_key@,
                        q,
                    ))
                &&& msg_id == old(store).id_bound()
            },
            DispatchOutcome::PublishRejected { error } => {
                &&& *final(store) == *old(store)
                &&& req matches Requests::Publish { exchange, routing_key, payload } && (match error {
                    RoutingError::UnknownExchange => !old(store).has_exchange(exchange@),
                    RoutingError::UnknownRoute => old(store).has_exchange(exchange@) && !old(
                        store,
                    ).has_route(exchange@, routing_key@),
                })
            },
            DispatchOutcome::Delivered { msg_id, payload } => {
                &&& req matches Requests::Consume { queue } && acquire_commit(
                    *old(store),
                    *final(store),
                    queue@,
                    msg_id,
                    conn,
                ) && (forall|m2: u128| old(store).is_available(queue@, m2) ==> msg_id <= m2)
                &&& payload@ == old(store).message_payload(msg_id)
            },
            DispatchOutcome::NoMessage => {
                &&& *final(store) == *old(store)
                &&& req matches Requests::Consume { queue } && (forall|m: u128|
                    !old(store).is_available(queue@, m))
            },
            DispatchOutcome::Discovery => {
                &&& *final(store) == *old(store)
                &&& (req matches Requests::FindNode(id) || req matches Requests::FindValue(id)
                    || req matches Requests::PutValue(v))
            },
        },
{
    match req {
        Requests::Publish { exchange, routing_key, payload } => {
            let body = slice_to_vec(payload.as_slice());
            match store.publish(exchange, routing_key, body) {
                Ok(receipt) => DispatchOutcome::PublishDone {
                    msg_id: receipt.msg_id,
                    queues: receipt.queues,
                },
                Err(error) => DispatchOutcome::PublishRejected { error },
            }
        },
        Requests::Consume { queue } => {
            match store.acquire(queue, conn) {
                Some((msg_id, payload)) => DispatchOutcome::Delivered { msg_id, payload },
                None => DispatchOutcome::NoMessage,
            }
        },
        Requests::FindNode(_) => DispatchOutcome::Discovery,
        Requests::FindValue(_) => DispatchOutcome::Discovery,
        Requests::PutValue(_) => DispatchOutcome::Discovery,
    }
}

} // verus!
