//! Core of a peer-to-peer message broker: the wire codec for the stream
//! protocol, an owned zero-copy request buffer, the transactional delivery
//! store with its acquire/acknowledge state machine, the per-stream dispatch
//! logic, and the lost-wakeup-free consumer wait protocol.
//!
//! Network transport, TLS configuration and the async task fan-out live
//! outside this library; they exchange plain values (requests, responses,
//! payload bytes) with the functions defined here.
use vstd::prelude::*;

pub mod dispatch;
pub mod encoding;
pub mod owned;
pub mod store;
pub mod wakeup;

verus! {

/// A discovery identifier: a hash algorithm name together with the hash bytes.
#[derive(Clone, PartialEq, Eq, Debug)]
pub struct Id {
    pub hash_type: String,
    pub hash: Vec<u8>,
}

/// Mathematical projection of an [`Id`].
pub struct IdV {
    pub hash_type: Seq<char>,
    pub hash: Seq<u8>,
}

impl View for Id {
    type V = IdV;

    open spec fn view(&self) -> IdV {
        IdV { hash_type: self.hash_type@, hash: self.hash@ }
    }
}

/// A stored or looked-up value: its identifier and its byte length.
#[derive(Clone, PartialEq, Eq, Debug)]
pub struct Value {
    pub id: Id,
    pub value_len: usize,
}

/// Mathematical projection of a [`Value`].
pub struct ValueV {
    pub id: IdV,
    pub value_len: usize,
}

impl View for Value {
    type V = ValueV;

    open spec fn view(&self) -> ValueV {
        ValueV { id: self.id@, value_len: self.value_len }
    }
}

/// A network location: a peer address and the identifier found there.
#[derive(Clone, PartialEq, Eq, Debug)]
pub struct Location {
    pub address: String,
    pub id: Id,
}

/// Mathematical projection of a [`Location`].
pub struct LocationV {
    pub address: Seq<char>,
    pub id: IdV,
}

impl View for Location {
    type V = LocationV;

    open spec fn view(&self) -> LocationV {
        LocationV { address: self.address@, id: self.id@ }
    }
}

/// One request, read framed from a stream: the broker requests (publish a
/// message to an exchange, consume from a queue) and the discovery requests
/// (node lookup, value lookup, value storage) routed by the same dispatcher.
#[derive(Clone, PartialEq, Eq, Debug)]
pub enum Requests {
    Publish { exchange: String, routing_key: String, payload: Vec<u8> },
    Consume { queue: String },
    FindNode(Id),
    FindValue(Id),
    PutValue(Value),
}

/// Mathematical projection of a [`Requests`] value.
pub enum RequestsV {
    Publish { exchange: Seq<char>, routing_key: Seq<char>, payload: Seq<u8> },
    Consume { queue: Seq<char> },
    FindNode(IdV),
    FindValue(IdV),
    PutValue(ValueV),
}

impl View for Requests {
    type V = RequestsV;

    open spec fn view(&self) -> RequestsV {
        match self {
            Requests::Publish { exchange, routing_key, payload } => RequestsV::Publish {
                exchange: exchange@,
                routing_key: routing_key@,
                payload: payload@,
            },
            Requests::Consume { queue } => RequestsV::Consume { queue: queue@ },
            Requests::FindNode(id) => RequestsV::FindNode(id@),
            Requests::FindValue(id) => RequestsV::FindValue(id@),
            Requests::PutValue(v) => RequestsV::PutValue(v@),
        }
    }
}

/// One framed response to a discovery request.
#[derive(Clone, PartialEq, Eq, Debug)]
pub enum Responses {
    Location(Location),
    Value(Value),
}

/// Mathematical projection of a [`Responses`] value.
pub enum ResponsesV {
    Location(LocationV),
    Value(ValueV),
}

impl View for Responses {
    type V = ResponsesV;

    open spec fn view(&self) -> ResponsesV {
        match self {
            Responses::Location(l) => ResponsesV::Location(l@),
            Responses::Value(v) => ResponsesV::Value(v@),
        }
    }
}

} // verus!
