//! The transactional delivery engine.
//!
//! A message published to an exchange is routed by its routing key to a set
//! of bound queues; an available entry per queue marks it ready for delivery.
//! A consumer's acquire moves one entry atomically from available to acquired
//! and records which connection holds it; the later acknowledgement resolves
//! it: `Ack` and `Reject` delete the message body, `Nack` makes it available
//! again. A body routed to several queues is shared: a terminal resolution
//! on one queue keeps it while another queue still references it, and the
//! last resolution deletes it. `Reject` deletes like `Ack`; moving rejected
//! messages to a dead-letter store instead is an extension point, not part
//! of this engine. Queue order is first-in-first-out: identifiers are
//! assigned from a monotone arrival counter and the scan hands out the
//! smallest one.
use vstd::prelude::*;
use vstd::slice::slice_to_vec;
use crate::encoding::MessageAck;

verus! {

/// A publish referred to an exchange name that no binding mentions, or a
/// routing key the exchange does not route.
#[derive(Clone, Copy, PartialEq, Eq, Debug)]
pub enum RoutingError {
    UnknownExchange,
    UnknownRoute,
}

/// An acquire transaction lost the race: the scanned entry was gone by
/// commit time. Retried by the caller, never surfaced to the peer.
#[derive(Clone, Copy, PartialEq, Eq, Debug)]
pub struct StoreConflict;

/// An acknowledgement referred to a message this connection does not hold.
#[derive(Clone, Copy, PartialEq, Eq, Debug)]
pub struct NotOwned;

/// One exchange binding: `exchange` routes `routing_key` to `queue`.
struct Binding {
    exchange: String,
    routing_key: String,
    queue: String,
}

/// A stored message body.
struct StoredMessage {
    id: u128,
    payload: Vec<u8>,
}

/// An entry of the available or the acquired index.
struct QueueEntry {
    queue: String,
    msg_id: u128,
}

/// An entry of the connection-ownership index.
struct OwnedEntry {
    conn: u64,
    queue: String,
    msg_id: u128,
}

/// What a successful publish reports back: the fresh message identifier and
/// the queues whose consumers are to be signalled once the commit is durable.
#[derive(Debug)]
pub struct PublishReceipt {
    pub msg_id: u128,
    pub queues: Vec<String>,
}

spec fn has_entry(s: Seq<QueueEntry>, q: Seq<char>, m: u128) -> bool {
    exists|i: int| 0 <= i < s.len() && s[i].queue@ == q && s[i].msg_id == m
}

spec fn entries_distinct(s: Seq<QueueEntry>) -> bool {
    forall|i: int, j: int|
        0 <= i < j < s.len() ==> !(s[i].queue@ == s[j].queue@ && s[i].msg_id == s[j].msg_id)
}

spec fn has_owned(s: Seq<OwnedEntry>, c: u64, q: Seq<char>, m: u128) -> bool {
    exists|i: int| 0 <= i < s.len() && s[i].conn == c && s[i].queue@ == q && s[i].msg_id == m
}

spec fn owned_distinct(s: Seq<OwnedEntry>) -> bool {
    forall|i: int, j: int|
        0 <= i < j < s.len() ==> !(s[i].queue@ == s[j].queue@ && s[i].msg_id == s[j].msg_id)
}

spec fn has_msg(s: Seq<StoredMessage>, m: u128) -> bool {
    exists|i: int| 0 <= i < s.len() && s[i].id == m
}

spec fn msgs_distinct(s: Seq<StoredMessage>) -> bool {
    forall|i: int, j: int| 0 <= i < j < s.len() ==> s[i].id != s[j].id
}

spec fn payload_of(s: Seq<StoredMessage>, m: u128) -> Seq<u8> {
    let i = choose|i: int| 0 <= i < s.len() && s[i].id == m;
    s[i].payload@
}

spec fn has_binding(s: Seq<Binding>, e: Seq<char>, k: Seq<char>, q: Seq<char>) -> bool {
    exists|i: int|
        0 <= i < s.len() && s[i].exchange@ == e && s[i].routing_key@ == k && s[i].queue@ == q
}

spec fn bindings_distinct(s: Seq<Binding>) -> bool {
    forall|i: int, j: int|
        0 <= i < j < s.len() ==> !(s[i].exchange@ == s[j].exchange@ && s[i].routing_key@
            == s[j].routing_key@ && s[i].queue@ == s[j].queue@)
}

spec fn some_owner(owned: Seq<OwnedEntry>, e: QueueEntry) -> bool {
    exists|c: u64| has_owned(owned, c, e.queue@, e.msg_id)
}

/// Some element of the name list reads `q`.
pub open spec fn name_list_contains(s: Seq<String>, q: Seq<char>) -> bool {
    exists|i: int| 0 <= i < s.len() && s[i]@ == q
}

spec fn partial_routes(s: Seq<Binding>, upto: int, e: Seq<char>, k: Seq<char>, q: Seq<char>) -> bool {
    exists|j: int|
        0 <= j < upto && s[j].exchange@ == e && s[j].routing_key@ == k && s[j].queue@ == q
}

proof fn lemma_namelist_push(s: Seq<String>, e: String)
    ensures
        forall|q: Seq<char>|
            name_list_contains(s.push(e), q) <==> (name_list_contains(s, q) || q == e@),
{
    let t = s.push(e);
    assert forall|q: Seq<char>|
        name_list_contains(t, q) <==> (name_list_contains(s, q) || q == e@) by {
        if name_list_contains(s, q) {
            let i = choose|i: int| 0 <= i < s.len() && s[i]@ == q;
            assert(t[i]@ == q);
        }
        if q == e@ {
            assert(t[s.len() as int]@ == q);
        }
        if name_list_contains(t, q) {
            let i = choose|i: int| 0 <= i < t.len() && t[i]@ == q;
            if i < s.len() {
                assert(s[i]@ == q);
            }
        }
    }
}

proof fn lemma_qentry_push(s: Seq<QueueEntry>, e: QueueEntry)
    requires
        entries_distinct(s),
        !has_entry(s, e.queue@, e.msg_id),
    ensures
        entries_distinct(s.push(e)),
        forall|q: Seq<char>, m: u128|
            has_entry(s.push(e), q, m) <==> (has_entry(s, q, m) || (q == e.queue@ && m
                == e.msg_id)),
{
    let t = s.push(e);
    assert forall|i: int, j: int|
        0 <= i < j < t.len() implies !(t[i].queue@ == t[j].queue@ && t[i].msg_id
        == t[j].msg_id) by {
        if j == s.len() {
            if t[i].queue@ == e.queue@ && t[i].msg_id == e.msg_id {
                assert(has_entry(s, e.queue@, e.msg_id));
            }
        }
    }
    assert forall|q: Seq<char>, m: u128|
        has_entry(t, q, m) <==> (has_entry(s, q, m) || (q == e.queue@ && m == e.msg_id)) by {
        if has_entry(s, q, m) {
            let i = choose|i: int| 0 <= i < s.len() && s[i].queue@ == q && s[i].msg_id == m;
            assert(t[i].queue@ == q && t[i].msg_id == m);
        }
        if q == e.queue@ && m == e.msg_id {
            assert(t[s.len() as int].queue@ == q && t[s.len() as int].msg_id == m);
        }
        if has_entry(t, q, m) {
            let i = choose|i: int| 0 <= i < t.len() && t[i].queue@ == q && t[i].msg_id == m;
            if i < s.len() {
                assert(s[i].queue@ == q && s[i].msg_id == m);
            }
        }
    }
}

proof fn lemma_owned_push(s: Seq<OwnedEntry>, e: OwnedEntry)
    requires
        owned_distinct(s),
        forall|c: u64| !has_owned(s, c, e.queue@, e.msg_id),
    ensures
        owned_distinct(s.push(e)),
        forall|c: u64, q: Seq<char>, m: u128|
            has_owned(s.push(e), c, q, m) <==> (has_owned(s, c, q, m) || (c == e.conn && q
                == e.queue@ && m == e.msg_id)),
{
    let t = s.push(e);
    assert forall|i: int, j: int|
        0 <= i < j < t.len() implies !(t[i].queue@ == t[j].queue@ && t[i].msg_id
        == t[j].msg_id) by {
        if j == s.len() {
            if t[i].queue@ == e.queue@ && t[i].msg_id == e.msg_id {
                assert(has_owned(s, t[i].conn, e.queue@, e.msg_id));
            }
        }
    }
    assert forall|c: u64, q: Seq<char>, m: u128|
        has_owned(t, c, q, m) <==> (has_owned(s, c, q, m) || (c == e.conn && q == e.queue@ && m
            == e.msg_id)) by {
        if has_owned(s, c, q, m) {
            let i = choose|i: int|
                0 <= i < s.len() && s[i].conn == c && s[i].queue@ == q && s[i].msg_id == m;
            assert(t[i].conn == c && t[i].queue@ == q && t[i].msg_id == m);
        }
        if c == e.conn && q == e.queue@ && m == e.msg_id {
            assert(t[s.len() as int].conn == c && t[s.len() as int].queue@ == q
                && t[s.len() as int].msg_id == m);
        }
        if has_owned(t, c, q, m) {
            let i = choose|i: int|
                0 <= i < t.len() && t[i].conn == c && t[i].queue@ == q && t[i].msg_id == m;
            if i < s.len() {
                assert(s[i].conn == c && s[i].queue@ == q && s[i].msg_id == m);
            }
        }
    }
}

proof fn lemma_msg_push(s: Seq<StoredMessage>, e: StoredMessage)
    requires
        msgs_distinct(s),
        !has_msg(s, e.id),
    ensures
        msgs_distinct(s.push(e)),
        forall|m: u128| has_msg(s.push(e), m) <==> (has_msg(s, m) || m == e.id),
        payload_of(s.push(e), e.id) == e.payload@,
        forall|m: u128| has_msg(s, m) ==> payload_of(s.push(e), m) == payload_of(s, m),
{
    let t = s.push(e);
    assert forall|i: int, j: int| 0 <= i < j < t.len() implies t[i].id != t[j].id by {
        if j == s.len() {
            if t[i].id == e.id {
                assert(has_msg(s, e.id));
            }
        }
    }
    assert forall|m: u128| has_msg(t, m) <==> (has_msg(s, m) || m == e.id) by {
        if has_msg(s, m) {
            let i = choose|i: int| 0 <= i < s.len() && s[i].id == m;
            assert(t[i].id == m);
        }
        if m == e.id {
            assert(t[s.len() as int].id == m);
        }
        if has_msg(t, m) {
            let i = choose|i: int| 0 <= i < t.len() && t[i].id == m;
            if i < s.len() {
                assert(s[i].id == m);
            }
        }
    }
    lemma_payload_unique(t, e.id);
    assert(t[s.len() as int].id == e.id);
    assert forall|m: u128| has_msg(s, m) implies payload_of(t, m) == payload_of(s, m) by {
        lemma_payload_unique(t, m);
        lemma_payload_unique(s, m);
        let i = choose|i: int| 0 <= i < s.len() && s[i].id == m;
        assert(t[i].id == m);
    }
}

proof fn lemma_qentry_remove(s: Seq<QueueEntry>, k: int)
    requires
        entries_distinct(s),
        0 <= k < s.len(),
    ensures
        entries_distinct(s.remove(k)),
        forall|q: Seq<char>, m: u128|
            has_entry(s.remove(k), q, m) <==> (has_entry(s, q, m) && !(q == s[k].queue@ && m
                == s[k].msg_id)),
{
    let t = s.remove(k);
    assert forall|q: Seq<char>, m: u128|
        has_entry(t, q, m) <==> (has_entry(s, q, m) && !(q == s[k].queue@ && m
            == s[k].msg_id)) by {
        if has_entry(t, q, m) {
            let i = choose|i: int| 0 <= i < t.len() && t[i].queue@ == q && t[i].msg_id == m;
            if i < k {
                assert(s[i].queue@ == q && s[i].msg_id == m);
            } else {
                assert(s[i + 1].queue@ == q && s[i + 1].msg_id == m);
            }
        }
        if has_entry(s, q, m) && !(q == s[k].queue@ && m == s[k].msg_id) {
            let i = choose|i: int| 0 <= i < s.len() && s[i].queue@ == q && s[i].msg_id == m;
            if i < k {
                assert(t[i].queue@ == q && t[i].msg_id == m);
            } else {
                assert(i != k);
                assert(t[i - 1].queue@ == q && t[i - 1].msg_id == m);
            }
        }
    }
}

proof fn lemma_owned_remove(s: Seq<OwnedEntry>, k: int)
    requires
        owned_distinct(s),
        0 <= k < s.len(),
    ensures
        owned_distinct(s.remove(k)),
        forall|c: u64, q: Seq<char>, m: u128|
            has_owned(s.remove(k), c, q, m) <==> (has_owned(s, c, q, m) && !(q == s[k].queue@ && m
                == s[k].msg_id)),
{
    let t = s.remove(k);
    assert forall|c: u64, q: Seq<char>, m: u128|
        has_owned(t, c, q, m) <==> (has_owned(s, c, q, m) && !(q == s[k].queue@ && m
            == s[k].msg_id)) by {
        if has_owned(t, c, q, m) {
            let i = choose|i: int|
                0 <= i < t.len() && t[i].conn == c && t[i].queue@ == q && t[i].msg_id == m;
            if i < k {
                assert(s[i].conn == c && s[i].queue@ == q && s[i].msg_id == m);
            } else {
                assert(s[i + 1].conn == c && s[i + 1].queue@ == q && s[i + 1].msg_id == m);
            }
        }
        if has_owned(s, c, q, m) && !(q == s[k].queue@ && m == s[k].msg_id) {
            let i = choose|i: int|
                0 <= i < s.len() && s[i].conn == c && s[i].queue@ == q && s[i].msg_id == m;
            if i < k {
                assert(t[i].conn == c && t[i].queue@ == q && t[i].msg_id == m);
            } else {
                assert(i != k);
                assert(t[i - 1].conn == c && t[i - 1].queue@ == q && t[i - 1].msg_id == m);
            }
        }
    }
}

proof fn lemma_msg_remove(s: Seq<StoredMessage>, k: int)
    requires
        msgs_distinct(s),
        0 <= k < s.len(),
    ensures
        msgs_distinct(s.remove(k)),
        forall|m: u128| has_msg(s.remove(k), m) <==> (has_msg(s, m) && m != s[k].id),
        forall|m: u128| has_msg(s, m) && m != s[k].id ==> payload_of(s.remove(k), m) == payload_of(
            s,
            m,
        ),
{
    let t = s.remove(k);
    assert forall|m: u128| has_msg(t, m) <==> (has_msg(s, m) && m != s[k].id) by {
        if has_msg(t, m) {
            let i = choose|i: int| 0 <= i < t.len() && t[i].id == m;
            if i < k {
                assert(s[i].id == m);
            } else {
                assert(s[i + 1].id == m);
            }
        }
        if has_msg(s, m) && m != s[k].id {
            let i = choose|i: int| 0 <= i < s.len() && s[i].id == m;
            if i < k {
                assert(t[i].id == m);
            } else {
                assert(i != k);
                assert(t[i - 1].id == m);
            }
        }
    }
    assert forall|m: u128| has_msg(s, m) && m != s[k].id implies payload_of(t, m) == payload_of(
        s,
        m,
    ) by {
        lemma_payload_unique(s, m);
        let i = choose|i: int| 0 <= i < s.len() && s[i].id == m;
        let j = choose|j: int| 0 <= j < t.len() && t[j].id == m;
        if j < k {
            assert(s[j].id == m);
        } else {
            assert(s[j + 1].id == m);
        }
    }
}

proof fn lemma_payload_unique(s: Seq<StoredMessage>, m: u128)
    requires
        msgs_distinct(s),
    ensures
        forall|i: int, j: int|
            (0 <= i < s.len() && s[i].id == m && 0 <= j < s.len() && s[j].id == m) ==> i == j,
{
}

/// The broker's shared state: the static binding table, the message bodies,
/// and the three delivery indexes (available, acquired, connection
/// ownership). All mutation goes through the atomic transitions below.
pub struct BrokerStore {
    bindings: Vec<Binding>,
    messages: Vec<StoredMessage>,
    available: Vec<QueueEntry>,
    acquired: Vec<QueueEntry>,
    owned: Vec<OwnedEntry>,
    next_id: u128,
}

impl BrokerStore {
    /// The exchange name is mentioned by some binding.
    pub closed spec fn has_exchange(&self, e: Seq<char>) -> bool {
        exists|i: int| 0 <= i < self.bindings@.len() && self.bindings@[i].exchange@ == e
    }

    /// The exchange routes the routing key somewhere.
    pub closed spec fn has_route(&self, e: Seq<char>, k: Seq<char>) -> bool {
        exists|i: int|
            0 <= i < self.bindings@.len() && self.bindings@[i].exchange@ == e
                && self.bindings@[i].routing_key@ == k
    }

    /// The exchange routes the routing key to this queue.
    pub closed spec fn routes_to(&self, e: Seq<char>, k: Seq<char>, q: Seq<char>) -> bool {
        has_binding(self.bindings@, e, k, q)
    }

    /// A body for message `m` is stored.
    pub closed spec fn has_message(&self, m: u128) -> bool {
        has_msg(self.messages@, m)
    }

    /// The stored body of message `m` (meaningful when `has_message(m)`).
    pub closed spec fn message_payload(&self, m: u128) -> Seq<u8> {
        payload_of(self.messages@, m)
    }

    /// Message `m` is ready for delivery on queue `q`.
    pub closed spec fn is_available(&self, q: Seq<char>, m: u128) -> bool {
        has_entry(self.available@, q, m)
    }

    /// Message `m` is delivered on queue `q` and awaits acknowledgement.
    pub closed spec fn is_acquired(&self, q: Seq<char>, m: u128) -> bool {
        has_entry(self.acquired@, q, m)
    }

    /// Connection `c` holds message `m` in flight on queue `q`.
    pub closed spec fn owns(&self, c: u64, q: Seq<char>, m: u128) -> bool {
        has_owned(self.owned@, c, q, m)
    }

    /// Identifiers below this bound have been handed out already.
    pub closed spec fn id_bound(&self) -> u128 {
        self.next_id
    }

    /// A fresh arrival identifier can still be assigned (a machine limit:
    /// the 128-bit arrival counter is not yet exhausted).
    pub open spec fn ids_not_exhausted(&self) -> bool {
        self.id_bound() < u128::MAX
    }

    /// Well-formedness: the indexes hold no duplicates, available and
    /// acquired entries are mutually exclusive and backed by a stored body,
    /// every acquired entry has exactly one owning connection, and every
    /// recorded identifier lies below the arrival counter.
    pub closed spec fn wf(&self) -> bool {
        &&& entries_distinct(self.available@)
        &&& entries_distinct(self.acquired@)
        &&& owned_distinct(self.owned@)
        &&& msgs_distinct(self.messages@)
        &&& bindings_distinct(self.bindings@)
        &&& forall|i: int|
            0 <= i < self.available@.len() ==> self.has_message(self.available@[i].msg_id)
                && self.available@[i].msg_id < self.next_id
        &&& forall|i: int|
            0 <= i < self.acquired@.len() ==> self.has_message(self.acquired@[i].msg_id)
                && self.acquired@[i].msg_id < self.next_id
        &&& forall|i: int|
            0 <= i < self.messages@.len() ==> self.messages@[i].id < self.next_id
        &&& forall|i: int|
            0 <= i < self.owned@.len() ==> has_entry(
                self.acquired@,
                self.owned@[i].queue@,
                self.owned@[i].msg_id,
            )
        &&& forall|i: int|
            0 <= i < self.acquired@.len() ==> some_owner(self.owned@, #[trigger] self.acquired@[i])
        &&& forall|i: int, j: int|
            (0 <= i < self.available@.len() && 0 <= j < self.acquired@.len()) ==> !(
            self.available@[i].queue@ == self.acquired@[j].queue@ && self.available@[i].msg_id
                == self.acquired@[j].msg_id)
    }

    /// An empty store: no bindings, no messages, nothing in flight.
    pub fn new() -> (s: BrokerStore)
        ensures
            s.wf(),
            s.ids_not_exhausted(),
            forall|e: Seq<char>| !s.has_exchange(e),
            forall|e: Seq<char>, k: Seq<char>| !s.has_route(e, k),
            forall|e: Seq<char>, k: Seq<char>, q: Seq<char>| !s.routes_to(e, k, q),
            forall|m: u128| !s.has_message(m),
            forall|q: Seq<char>, m: u128| !s.is_available(q, m),
            forall|q: Seq<char>, m: u128| !s.is_acquired(q, m),
            forall|c: u64, q: Seq<char>, m: u128| !s.owns(c, q, m),
    {
        BrokerStore {
            bindings: Vec::new(),
            messages: Vec::new(),
            available: Vec::new(),
            acquired: Vec::new(),
            owned: Vec::new(),
            next_id: 0,
        }
    }

    /// Adds the binding `exchange` / `routing_key` -> `queue`. Idempotent:
    /// a binding already present is not duplicated. The binding table is
    /// loaded from configuration before the store is shared; it is read-only
    /// at runtime.
    pub fn add_binding(&mut self, exchange: &String, routing_key: &String, queue: &String)
        requires
            old(self).wf(),
        ensures
            final(self).wf(),
            final(self).ids_not_exhausted() == old(self).ids_not_exhausted(),
            forall|e: Seq<char>, k: Seq<char>, q: Seq<char>|
                final(self).routes_to(e, k, q) <==> (old(self).routes_to(e, k, q) || (e
                    == exchange@ && k == routing_key@ && q == queue@)),
            forall|e: Seq<char>|
                final(self).has_exchange(e) <==> (old(self).has_exchange(e) || e == exchange@),
            forall|e: Seq<char>, k: Seq<char>|
                final(self).has_route(e, k) <==> (old(self).has_route(e, k) || (e == exchange@ && k
                    == routing_key@)),
            forall|m: u128| final(self).has_message(m) == old(self).has_message(m),
            forall|m: u128| final(self).message_payload(m) == old(self).message_payload(m),
            forall|q: Seq<char>, m: u128|
                final(self).is_available(q, m) == old(self).is_available(q, m),
            forall|q: Seq<char>, m: u128|
                final(self).is_acquired(q, m) == old(self).is_acquired(q, m),
            forall|c: u64, q: Seq<char>, m: u128| final(self).owns(c, q, m) == old(self).owns(c, q, m),
    {
        let n = self.bindings.len();
        let mut i: usize = 0;
        while i < n
            invariant
                *self == *old(self),
                old(self).wf(),
                n == self.bindings@.len(),
                0 <= i <= n,
                forall|j: int|
                    0 <= j < i ==> !(self.bindings@[j].exchange@ == exchange@
                        && self.bindings@[j].routing_key@ == routing_key@
                        && self.bindings@[j].queue@ == queue@),
            decreases n - i,
        {
            let b = &self.bindings[i];
            if string_eq(&b.exchange, exchange) && string_eq(&b.routing_key, routing_key)
                && string_eq(&b.queue, queue) {
                proof {
                    assert(has_binding(self.bindings@, exchange@, routing_key@, queue@)) by {
                        assert(self.bindings@[i as int].exchange@ == exchange@
                            && self.bindings@[i as int].routing_key@ == routing_key@
                            && self.bindings@[i as int].queue@ == queue@);
                    }
                }
                return ;
            }
            i = i + 1;
        }
        let fresh = Binding {
            exchange: exchange.clone(),
            routing_key: routing_key.clone(),
            queue: queue.clone(),
        };
        self.bindings.push(fresh);
        proof {
            let s = old(self).bindings@;
            let t = self.bindings@;
            let newi = s.len() as int;
            assert(t[newi].exchange@ == exchange@ && t[newi].routing_key@ == routing_key@
                && t[newi].queue@ == queue@);
            assert forall|e: Seq<char>, k: Seq<char>, q: Seq<char>|
                has_binding(t, e, k, q) <==> (has_binding(s, e, k, q) || (e == exchange@ && k
                    == routing_key@ && q == queue@)) by {
                if has_binding(s, e, k, q) {
                    let j = choose|j: int|
                        0 <= j < s.len() && s[j].exchange@ == e && s[j].routing_key@ == k
                            && s[j].queue@ == q;
                    assert(t[j].exchange@ == e && t[j].routing_key@ == k && t[j].queue@ == q);
                }
                if e == exchange@ && k == routing_key@ && q == queue@ {
                    assert(t[newi].exchange@ == e && t[newi].routing_key@ == k && t[newi].queue@
                        == q);
                }
                if has_binding(t, e, k, q) {
                    let j = choose|j: int|
                        0 <= j < t.len() && t[j].exchange@ == e && t[j].routing_key@ == k
                            && t[j].queue@ == q;
                    if j < s.len() {
                        assert(s[j].exchange@ == e && s[j].routing_key@ == k && s[j].queue@ == q);
                    } else {
                        assert(j == newi);
                    }
                }
            }
            assert forall|e: Seq<char>|
                self.has_exchange(e) <==> (old(self).has_exchange(e) || e == exchange@) by {
                if old(self).has_exchange(e) {
                    let j = choose|j: int| 0 <= j < s.len() && s[j].exchange@ == e;
                    assert(t[j].exchange@ == e);
                }
                if e == exchange@ {
                    assert(t[newi].exchange@ == e);
                }
                if self.has_exchange(e) {
                    let j = choose|j: int| 0 <= j < t.len() && t[j].exchange@ == e;
                    if j < s.len() {
                        assert(s[j].exchange@ == e);
                    } else {
                        assert(j == newi);
                    }
                }
            }
            assert forall|e: Seq<char>, k: Seq<char>|
                self.has_route(e, k) <==> (old(self).has_route(e, k) || (e == exchange@ && k
                    == routing_key@)) by {
                if old(self).has_route(e, k) {
                    let j = choose|j: int|
                        0 <= j < s.len() && s[j].exchange@ == e && s[j].routing_key@ == k;
                    assert(t[j].exchange@ == e && t[j].routing_key@ == k);
                }
                if e == exchange@ && k == routing_key@ {
                    assert(t[newi].exchange@ == e && t[newi].routing_key@ == k);
                }
                if self.has_route(e, k) {
                    let j = choose|j: int|
                        0 <= j < t.len() && t[j].exchange@ == e && t[j].routing_key@ == k;
                    if j < s.len() {
                        assert(s[j].exchange@ == e && s[j].routing_key@ == k);
                    } else {
                        assert(j == newi);
                    }
                }
            }
        }
    }

    /// Reports whether any binding mentions this exchange name.
    pub fn exchange_exists(&self, exchange: &String) -> (r: bool)
        ensures
            r == self.has_exchange(exchange@),
    {
        let n = self.bindings.len();
        let mut i: usize = 0;
        while i < n
            invariant
                n == self.bindings@.len(),
                0 <= i <= n,
                forall|j: int| 0 <= j < i ==> self.bindings@[j].exchange@ != exchange@,
            decreases n - i,
        {
            if string_eq(&self.bindings[i].exchange, exchange) {
                return true;
            }
            i = i + 1;
        }
        false
    }

    /// Reports whether this exchange routes this routing key anywhere.
    pub fn route_exists(&self, exchange: &String, routing_key: &String) -> (r: bool)
        ensures
            r == self.has_route(exchange@, routing_key@),
    {
        let n = self.bindings.len();
        let mut i: usize = 0;
        while i < n
            invariant
                n == self.bindings@.len(),
                0 <= i <= n,
                forall|j: int|
                    0 <= j < i ==> !(self.bindings@[j].exchange@ == exchange@
                        && self.bindings@[j].routing_key@ == routing_key@),
            decreases n - i,
        {
            let b = &self.bindings[i];
            if string_eq(&b.exchange, exchange) && string_eq(&b.routing_key, routing_key) {
                return true;
            }
            i = i + 1;
        }
        false
    }

    /// The first message deliverable on `queue`: the available entry with
    /// the smallest arrival identifier, hence first-in-first-out order.
    pub fn first_available(&self, queue: &String) -> (r: Option<u128>)
        ensures
            match r {
                Some(m) => self.is_available(queue@, m) && forall|m2: u128|
                    self.is_available(queue@, m2) ==> m <= m2,
                None => forall|m2: u128| !self.is_available(queue@, m2),
            },
    {
        let n = self.available.len();
        let mut best: Option<u128> = None;
        let mut i: usize = 0;
        while i < n
            invariant
                n == self.available@.len(),
                0 <= i <= n,
                match best {
                    Some(m) => has_entry(self.available@, queue@, m) && forall|j: int|
                        (0 <= j < i && self.available@[j].queue@ == queue@) ==> m
                            <= self.available@[j].msg_id,
                    None => forall|j: int| 0 <= j < i ==> self.available@[j].queue@ != queue@,
                },
            decreases n - i,
        {
            let e = &self.available[i];
            if string_eq(&e.queue, queue) {
                match best {
                    Some(m) => {
                        if e.msg_id < m {
                            best = Some(e.msg_id);
                        }
                    },
                    None => {
                        best = Some(e.msg_id);
                    },
                }
            }
            i = i + 1;
        }
        proof {
            match best {
                Some(m) => {
                    assert forall|m2: u128| self.is_available(queue@, m2) implies m <= m2 by {
                        let j = choose|j: int|
                            0 <= j < self.available@.len() && self.available@[j].queue@ == queue@
                                && self.available@[j].msg_id == m2;
                        assert(m <= self.available@[j].msg_id);
                    }
                },
                None => {
                    assert forall|m2: u128| !self.is_available(queue@, m2) by {
                        if self.is_available(queue@, m2) {
                            let j = choose|j: int|
                                0 <= j < self.available@.len() && self.available@[j].queue@
                                    == queue@ && self.available@[j].msg_id == m2;
                        }
                    }
                },
            }
        }
        best
    }
}

/// The routing configuration reads the same in both states.
pub open spec fn routing_unchanged(pre: BrokerStore, post: BrokerStore) -> bool {
    &&& forall|e: Seq<char>| post.has_exchange(e) == pre.has_exchange(e)
    &&& forall|e: Seq<char>, k: Seq<char>| post.has_route(e, k) == pre.has_route(e, k)
    &&& forall|e: Seq<char>, k: Seq<char>, q: Seq<char>|
        post.routes_to(e, k, q) == pre.routes_to(e, k, q)
}

/// The atomic effect of a durable publish commit of the fresh message `id`
/// with body `p`, sent to exchange `e` under routing key `k`: the body is
/// stored and an available entry appears for every queue the binding table
/// routes `(e, k)` to — and for no other queue. Nothing else moves.
pub open spec fn publish_commit(
    pre: BrokerStore,
    post: BrokerStore,
    e: Seq<char>,
    k: Seq<char>,
    p: Seq<u8>,
    id: u128,
) -> bool {
    &&& pre.has_exchange(e)
    &&& pre.has_route(e, k)
    &&& !pre.has_message(id)
    &&& forall|m: u128| post.has_message(m) <==> (pre.has_message(m) || m == id)
    &&& post.message_payload(id) == p
    &&& forall|m: u128|
        pre.has_message(m) && m != id ==> post.message_payload(m) == pre.message_payload(m)
    &&& forall|q: Seq<char>, m: u128|
        post.is_available(q, m) <==> (pre.is_available(q, m) || (m == id && pre.routes_to(
            e,
            k,
            q,
        )))
    &&& forall|q: Seq<char>, m: u128| post.is_acquired(q, m) == pre.is_acquired(q, m)
    &&& forall|c: u64, q: Seq<char>, m: u128| post.owns(c, q, m) == pre.owns(c, q, m)
    &&& routing_unchanged(pre, post)
}

/// The atomic effect of a successful acquire commit: the available entry for
/// `(q, m)` — which must be present — moves to the acquired index, and
/// connection `c` is recorded as the holder. Nothing else moves.
pub open spec fn acquire_commit(
    pre: BrokerStore,
    post: BrokerStore,
    q: Seq<char>,
    m: u128,
    c: u64,
) -> bool {
    &&& pre.is_available(q, m)
    &&& forall|q2: Seq<char>, m2: u128|
        post.is_available(q2, m2) <==> (pre.is_available(q2, m2) && !(q2 == q && m2 == m))
    &&& forall|q2: Seq<char>, m2: u128|
        post.is_acquired(q2, m2) <==> (pre.is_acquired(q2, m2) || (q2 == q && m2 == m))
    &&& forall|c2: u64, q2: Seq<char>, m2: u128|
        post.owns(c2, q2, m2) <==> (pre.owns(c2, q2, m2) || (c2 == c && q2 == q && m2 == m))
    &&& forall|m2: u128| post.has_message(m2) == pre.has_message(m2)
    &&& forall|m2: u128|
        pre.has_message(m2) ==> post.message_payload(m2) == pre.message_payload(m2)
    &&& routing_unchanged(pre, post)
}

/// The atomic effect of resolving the in-flight message `m` on queue `q`,
/// held by connection `c`, with the given resolution: the acquired entry and
/// the ownership record go away in every case; `Ack` and `Reject` delete the
/// message body, `Nack` restores the available entry instead.
pub open spec fn ack_commit(
    pre: BrokerStore,
    post: BrokerStore,
    q: Seq<char>,
    m: u128,
    c: u64,
    resolution: MessageAck,
) -> bool {
    &&& pre.owns(c, q, m)
    &&& forall|c2: u64, q2: Seq<char>, m2: u128|
        post.owns(c2, q2, m2) <==> (pre.owns(c2, q2, m2) && !(q2 == q && m2 == m))
    &&& forall|q2: Seq<char>, m2: u128|
        post.is_acquired(q2, m2) <==> (pre.is_acquired(q2, m2) && !(q2 == q && m2 == m))
    &&& match resolution {
        MessageAck::Nack => {
            &&& forall|q2: Seq<char>, m2: u128|
                post.is_available(q2, m2) <==> (pre.is_available(q2, m2) || (q2 == q && m2 == m))
            &&& forall|m2: u128| post.has_message(m2) == pre.has_message(m2)
            &&& forall|m2: u128|
                pre.has_message(m2) ==> post.message_payload(m2) == pre.message_payload(m2)
        },
        _ => {
            &&& forall|q2: Seq<char>, m2: u128|
                post.is_available(q2, m2) == pre.is_available(q2, m2)
            &&& forall|m2: u128|
                post.has_message(m2) <==> (pre.has_message(m2) && !(m2 == m && !others_reference(
                    pre,
                    q,
                    m,
                )))
            &&& forall|m2: u128|
                pre.has_message(m2) && post.has_message(m2) ==> post.message_payload(m2)
                    == pre.message_payload(m2)
        },
    }
    &&& routing_unchanged(pre, post)
}

/// Some queue still references message `m` once the acquired entry for
/// `(q, m)` is taken out: an available entry anywhere, or an acquired entry
/// on another queue. While that holds, a terminal resolution for `(q, m)` keeps
/// the shared body, so the other queues can still deliver it; once nothing
/// references the body, the terminal resolution deletes it.
pub open spec fn others_reference(pre: BrokerStore, q: Seq<char>, m: u128) -> bool {
    exists|q2: Seq<char>| pre.is_available(q2, m) || (pre.is_acquired(q2, m) && q2 != q)
}

/// The effect of reclaiming a dead connection `c`: every message it held in
/// flight loses its ownership record and acquired entry and becomes
/// available again on its queue. Nothing else moves.
pub open spec fn reclaim_commit(pre: BrokerStore, post: BrokerStore, c: u64) -> bool {
    &&& forall|c2: u64, q: Seq<char>, m: u128|
        post.owns(c2, q, m) <==> (pre.owns(c2, q, m) && c2 != c)
    &&& forall|q: Seq<char>, m: u128|
        post.is_acquired(q, m) <==> (pre.is_acquired(q, m) && !pre.owns(c, q, m))
    &&& forall|q: Seq<char>, m: u128|
        post.is_available(q, m) <==> (pre.is_available(q, m) || pre.owns(c, q, m))
    &&& forall|m: u128| post.has_message(m) == pre.has_message(m)
    &&& forall|m: u128|
        pre.has_message(m) ==> post.message_payload(m) == pre.message_payload(m)
    &&& routing_unchanged(pre, post)
}

fn find_qentry(entries: &Vec<QueueEntry>, queue: &String, msg_id: u128) -> (r: Option<usize>)
    ensures
        match r {
            Some(i) => i < entries@.len() && entries@[i as int].queue@ == queue@
                && entries@[i as int].msg_id == msg_id,
            None => !has_entry(entries@, queue@, msg_id),
        },
{
    let n = entries.len();
    let mut i: usize = 0;
    while i < n
        invariant
            n == entries@.len(),
            0 <= i <= n,
            forall|j: int|
                0 <= j < i ==> !(entries@[j].queue@ == queue@ && entries@[j].msg_id == msg_id),
        decreases n - i,
    {
        let e = &entries[i];
        if e.msg_id == msg_id && string_eq(&e.queue, queue) {
            return Some(i);
        }
        i = i + 1;
    }
    None
}

fn find_owned(entries: &Vec<OwnedEntry>, conn: u64, queue: &String, msg_id: u128) -> (r: Option<
    usize,
>)
    ensures
        match r {
            Some(i) => i < entries@.len() && entries@[i as int].conn == conn
                && entries@[i as int].queue@ == queue@ && entries@[i as int].msg_id == msg_id,
            None => !has_owned(entries@, conn, queue@, msg_id),
        },
{
    let n = entries.len();
    let mut i: usize = 0;
    while i < n
        invariant
            n == entries@.len(),
            0 <= i <= n,
            forall|j: int|
                0 <= j < i ==> !(entries@[j].conn == conn && entries@[j].queue@ == queue@
                    && entries@[j].msg_id == msg_id),
        decreases n - i,
    {
        let e = &entries[i];
        if e.conn == conn && e.msg_id == msg_id && string_eq(&e.queue, queue) {
            return Some(i);
        }
        i = i + 1;
    }
    None
}

fn find_owned_by_conn(entries: &Vec<OwnedEntry>, conn: u64) -> (r: Option<usize>)
    ensures
        match r {
            Some(i) => i < entries@.len() && entries@[i as int].conn == conn,
            None => forall|q: Seq<char>, m: u128| !has_owned(entries@, conn, q, m),
        },
{
    let n = entries.len();
    let mut i: usize = 0;
    while i < n
        invariant
            n == entries@.len(),
            0 <= i <= n,
            forall|j: int| 0 <= j < i ==> entries@[j].conn != conn,
        decreases n - i,
    {
        if entries[i].conn == conn {
            return Some(i);
        }
        i = i + 1;
    }
    proof {
        assert forall|q: Seq<char>, m: u128| !has_owned(entries@, conn, q, m) by {
            if has_owned(entries@, conn, q, m) {
                let j = choose|j: int|
                    0 <= j < entries@.len() && entries@[j].conn == conn && entries@[j].queue@ == q
                        && entries@[j].msg_id == m;
            }
        }
    }
    None
}

fn find_msg(msgs: &Vec<StoredMessage>, id: u128) -> (r: Option<usize>)
    ensures
        match r {
            Some(i) => i < msgs@.len() && msgs@[i as int].id == id,
            None => !has_msg(msgs@, id),
        },
{
    let n = msgs.len();
    let mut i: usize = 0;
    while i < n
        invariant
            n == msgs@.len(),
            0 <= i <= n,
            forall|j: int| 0 <= j < i ==> msgs@[j].id != id,
        decreases n - i,
    {
        if msgs[i].id == id {
            return Some(i);
        }
        i = i + 1;
    }
    None
}

impl BrokerStore {
    /// Durably records a publish: looks the exchange and routing key up in
    /// the binding table, stores the body under a fresh arrival identifier,
    /// and marks the message available on every bound queue. On a routing
    /// error nothing is changed. The receipt carries the queues whose
    /// consumers are to be signalled once the commit is durable — exactly
    /// the queues the binding table routes to, each once.
    pub fn publish(
        &mut self,
        exchange: &String,
        routing_key: &String,
        payload: Vec<u8>,
    ) -> (r: Result<PublishReceipt, RoutingError>)
        requires
            old(self).wf(),
            old(self).ids_not_exhausted(),
        ensures
            final(self).wf(),
            match r {
                Ok(receipt) => {
                    &&& publish_commit(
                        *old(self),
                        *final(self),
                        exchange@,
                        routing_key@,
                        payload@,
                        receipt.msg_id,
                    )
                    &&& receipt.msg_id == old(self).id_bound()
                    &&& final(self).id_bound() == old(self).id_bound() + 1
                    &&& forall|q: Seq<char>|
                        name_list_contains(receipt.queues@, q) <==> old(self).routes_to(
                            exchange@,
                            routing_key@,
                            q,
                        )
                },
                Err(RoutingError::UnknownExchange) => *final(self) == *old(self) && !old(
                    self,
                ).has_exchange(exchange@),
                Err(RoutingError::UnknownRoute) => *final(self) == *old(self) && old(
                    self,
                ).has_exchange(exchange@) && !old(self).has_route(exchange@, routing_key@),
            },
    {
        if !self.exchange_exists(exchange) {
            return Err(RoutingError::UnknownExchange);
        }
        if !self.route_exists(exchange, routing_key) {
            return Err(RoutingError::UnknownRoute);
        }
        let id = self.next_id;
        self.next_id = self.next_id + 1;
        proof {
            assert(!has_msg(self.messages@, id)) by {
                if has_msg(self.messages@, id) {
                    let j = choose|j: int|
                        0 <= j < self.messages@.len() && self.messages@[j].id == id;
                    assert(false);
                }
            }
            lemma_msg_push(self.messages@, StoredMessage { id, payload });
        }
        self.messages.push(StoredMessage { id, payload });
        let mut queues: Vec<String> = Vec::new();
        let n = self.bindings.len();
        let mut i: usize = 0;
        while i < n
            invariant
                old(self).wf(),
                old(self).ids_not_exhausted(),
                self.bindings@ == old(self).bindings@,
                self.acquired@ == old(self).acquired@,
                self.owned@ == old(self).owned@,
                id == old(self).next_id,
                self.next_id == old(self).next_id + 1,
                msgs_distinct(self.messages@),
                forall|m: u128|
                    has_msg(self.messages@, m) <==> (has_msg(old(self).messages@, m) || m == id),
                payload_of(self.messages@, id) == payload@,
                forall|m: u128|
                    has_msg(old(self).messages@, m) ==> payload_of(self.messages@, m) == payload_of(
                        old(self).messages@,
                        m,
                    ),
                forall|j: int|
                    0 <= j < self.messages@.len() ==> self.messages@[j].id < self.next_id,
                n == self.bindings@.len(),
                0 <= i <= n,
                entries_distinct(self.available@),
                forall|q: Seq<char>, m: u128|
                    has_entry(self.available@, q, m) <==> (has_entry(old(self).available@, q, m)
                        || (m == id && name_list_contains(queues@, q))),
                forall|q: Seq<char>|
                    name_list_contains(queues@, q) <==> partial_routes(
                        self.bindings@,
                        i as int,
                        exchange@,
                        routing_key@,
                        q,
                    ),
            decreases n - i,
        {
            let ghost pre_avail = self.available@;
            let ghost pre_queues = queues@;
            let b = &self.bindings[i];
            let ghost bq = b.queue@;
            let matches_route = string_eq(&b.exchange, exchange) && string_eq(
                &b.routing_key,
                routing_key,
            );
            if matches_route {
                let entry_name = b.queue.clone();
                let list_name = b.queue.clone();
                proof {
                    assert(!name_list_contains(pre_queues, bq)) by {
                        if name_list_contains(pre_queues, bq) {
                            let j = choose|j: int|
                                0 <= j < i && self.bindings@[j].exchange@ == exchange@
                                    && self.bindings@[j].routing_key@ == routing_key@
                                    && self.bindings@[j].queue@ == bq;
                            assert(false);
                        }
                    }
                    assert(!has_entry(pre_avail, bq, id)) by {
                        if has_entry(old(self).available@, bq, id) {
                            let j = choose|j: int|
                                0 <= j < old(self).available@.len() && old(
                                    self,
                                ).available@[j].queue@ == bq && old(self).available@[j].msg_id
                                    == id;
                            assert(false);
                        }
                    }
                    lemma_qentry_push(pre_avail, QueueEntry { queue: entry_name, msg_id: id });
                    lemma_namelist_push(pre_queues, list_name);
                }
                self.available.push(QueueEntry { queue: entry_name, msg_id: id });
                queues.push(list_name);
                proof {
                    assert forall|q: Seq<char>, m: u128|
                        has_entry(self.available@, q, m) <==> (has_entry(pre_avail, q, m) || (q
                            == bq && m == id)) by {
                        assert(has_entry(self.available@, q, m) == has_entry(
                            pre_avail.push(QueueEntry { queue: entry_name, msg_id: id }),
                            q,
                            m,
                        ));
                    }
                    assert forall|q: Seq<char>|
                        name_list_contains(queues@, q) <==> (name_list_contains(pre_queues, q) || q
                            == bq) by {
                        assert(name_list_contains(queues@, q) == name_list_contains(
                            pre_queues.push(list_name),
                            q,
                        ));
                    }
                }
            }
            proof {
                let s = self.bindings@;
                let inext = i + 1;
                assert forall|q: Seq<char>|
                    partial_routes(s, inext as int, exchange@, routing_key@, q) <==> (
                partial_routes(s, i as int, exchange@, routing_key@, q) || (matches_route && bq
                    == q)) by {
                    if partial_routes(s, inext as int, exchange@, routing_key@, q) {
                        let j = choose|j: int|
                            0 <= j < inext && s[j].exchange@ == exchange@ && s[j].routing_key@
                                == routing_key@ && s[j].queue@ == q;
                        if j < i {
                            assert(partial_routes(s, i as int, exchange@, routing_key@, q));
                        }
                    }
                    if partial_routes(s, i as int, exchange@, routing_key@, q) {
                        let j = choose|j: int|
                            0 <= j < i && s[j].exchange@ == exchange@ && s[j].routing_key@
                                == routing_key@ && s[j].queue@ == q;
                        assert(0 <= j < inext && s[j].exchange@ == exchange@ && s[j].routing_key@
                            == routing_key@ && s[j].queue@ == q);
                    }
                    if matches_route && bq == q {
                        assert(0 <= i < inext && s[i as int].exchange@ == exchange@
                            && s[i as int].routing_key@ == routing_key@ && s[i as int].queue@ == q);
                    }
                }
                assert forall|q: Seq<char>|
                    name_list_contains(queues@, q) <==> partial_routes(
                        s,
                        inext as int,
                        exchange@,
                        routing_key@,
                        q,
                    ) by {
                    assert(name_list_contains(pre_queues, q) == partial_routes(
                        s,
                        i as int,
                        exchange@,
                        routing_key@,
                        q,
                    ));
                    if matches_route {
                        assert(name_list_contains(queues@, q) <==> (name_list_contains(
                            pre_queues,
                            q,
                        ) || q == bq));
                    } else {
                        assert(queues@ == pre_queues);
                    }
                }
            }
            i = i + 1;
        }
        proof {
            assert forall|q: Seq<char>|
                name_list_contains(queues@, q) <==> old(self).routes_to(
                    exchange@,
                    routing_key@,
                    q,
                ) by {
                assert(partial_routes(self.bindings@, n as int, exchange@, routing_key@, q)
                    == has_binding(old(self).bindings@, exchange@, routing_key@, q));
            }
            assert forall|j: int|
                0 <= j < self.available@.len() implies self.has_message(
                self.available@[j].msg_id,
            ) && self.available@[j].msg_id < self.next_id by {
                let q = self.available@[j].queue@;
                let m = self.available@[j].msg_id;
                assert(has_entry(self.available@, q, m));
                if has_entry(old(self).available@, q, m) {
                    let j2 = choose|j2: int|
                        0 <= j2 < old(self).available@.len() && old(self).available@[j2].queue@
                            == q && old(self).available@[j2].msg_id == m;
                }
            }
            assert forall|j: int|
                0 <= j < self.acquired@.len() implies self.has_message(self.acquired@[j].msg_id)
                && self.acquired@[j].msg_id < self.next_id by {
                assert(old(self).has_message(self.acquired@[j].msg_id));
            }
            assert forall|j: int, l: int|
                (0 <= j < self.available@.len() && 0 <= l < self.acquired@.len()) implies !(
            self.available@[j].queue@ == self.acquired@[l].queue@ && self.available@[j].msg_id
                == self.acquired@[l].msg_id) by {
                let q = self.available@[j].queue@;
                let m = self.available@[j].msg_id;
                assert(has_entry(self.available@, q, m));
                if has_entry(old(self).available@, q, m) {
                    assert(old(self).wf());
                } else {
                    assert(m == id);
                    assert(self.acquired@[l].msg_id < id);
                }
            }
        }
        Ok(PublishReceipt { msg_id: id, queues })
    }
}

fn references_msg(entries: &Vec<QueueEntry>, m: u128) -> (r: bool)
    ensures
        r == exists|i: int| 0 <= i < entries@.len() && entries@[i].msg_id == m,
{
    let n = entries.len();
    let mut i: usize = 0;
    while i < n
        invariant
            n == entries@.len(),
            0 <= i <= n,
            forall|j: int| 0 <= j < i ==> entries@[j].msg_id != m,
        decreases n - i,
    {
        if entries[i].msg_id == m {
            return true;
        }
        i = i + 1;
    }
    false
}

impl BrokerStore {
    /// The atomic acquire transaction: removes the available entry for
    /// `(queue, msg_id)` — reporting a conflict, with nothing changed, when
    /// another consumer already took it — then inserts the acquired entry
    /// and the ownership record for `conn`, and returns the stored body.
    pub fn commit_acquire(&mut self, queue: &String, msg_id: u128, conn: u64) -> (r: Result<
        Vec<u8>,
        StoreConflict,
    >)
        requires
            old(self).wf(),
        ensures
            final(self).wf(),
            final(self).id_bound() == old(self).id_bound(),
            match r {
                Ok(p) => acquire_commit(*old(self), *final(self), queue@, msg_id, conn) && p@
                    == old(self).message_payload(msg_id),
                Err(_) => *final(self) == *old(self) && !old(self).is_available(queue@, msg_id),
            },
    {
        let idx = match find_qentry(&self.available, queue, msg_id) {
            Some(i) => i,
            None => {
                return Err(StoreConflict);
            },
        };
        let midx = match find_msg(&self.messages, msg_id) {
            Some(i) => i,
            None => {
                proof {
                    assert(has_entry(self.available@, queue@, msg_id)) by {
                        assert(self.available@[idx as int].queue@ == queue@
                            && self.available@[idx as int].msg_id == msg_id);
                    }
                    assert(false);
                }
                return Err(StoreConflict);
            },
        };
        let payload = slice_to_vec(self.messages[midx].payload.as_slice());
        let entry_name = queue.clone();
        let owned_name = queue.clone();
        proof {
            lemma_payload_unique(self.messages@, msg_id);
            assert(payload@ == payload_of(self.messages@, msg_id));
            lemma_qentry_remove(self.available@, idx as int);
        }
        self.available.remove(idx);
        proof {
            assert(!has_entry(self.acquired@, queue@, msg_id)) by {
                if has_entry(self.acquired@, queue@, msg_id) {
                    let j = choose|j: int|
                        0 <= j < self.acquired@.len() && self.acquired@[j].queue@ == queue@
                            && self.acquired@[j].msg_id == msg_id;
                    assert(old(self).available@[idx as int].queue@ == queue@);
                    assert(false);
                }
            }
            lemma_qentry_push(self.acquired@, QueueEntry { queue: entry_name, msg_id });
        }
        self.acquired.push(QueueEntry { queue: entry_name, msg_id });
        proof {
            assert forall|c2: u64| !has_owned(old(self).owned@, c2, queue@, msg_id) by {
                if has_owned(old(self).owned@, c2, queue@, msg_id) {
                    let j = choose|j: int|
                        0 <= j < old(self).owned@.len() && old(self).owned@[j].conn == c2 && old(
                            self,
                        ).owned@[j].queue@ == queue@ && old(self).owned@[j].msg_id == msg_id;
                    assert(has_entry(old(self).acquired@, queue@, msg_id));
                    let l = choose|l: int|
                        0 <= l < old(self).acquired@.len() && old(self).acquired@[l].queue@
                            == queue@ && old(self).acquired@[l].msg_id == msg_id;
                    assert(old(self).available@[idx as int].queue@ == queue@);
                    assert(false);
                }
            }
            lemma_owned_push(self.owned@, OwnedEntry { conn, queue: owned_name, msg_id });
        }
        self.owned.push(OwnedEntry { conn, queue: owned_name, msg_id });
        proof {
            let pre = *old(self);
            assert(pre.is_available(queue@, msg_id)) by {
                assert(pre.available@[idx as int].queue@ == queue@ && pre.available@[idx as int].msg_id
                    == msg_id);
            }
            assert forall|j: int|
                0 <= j < self.available@.len() implies self.has_message(self.available@[j].msg_id)
                && self.available@[j].msg_id < self.next_id by {
                let q2 = self.available@[j].queue@;
                let m2 = self.available@[j].msg_id;
                assert(has_entry(self.available@, q2, m2));
                let j2 = choose|j2: int|
                    0 <= j2 < pre.available@.len() && pre.available@[j2].queue@ == q2
                        && pre.available@[j2].msg_id == m2;
            }
            assert forall|j: int|
                0 <= j < self.acquired@.len() implies self.has_message(self.acquired@[j].msg_id)
                && self.acquired@[j].msg_id < self.next_id by {
                let q2 = self.acquired@[j].queue@;
                let m2 = self.acquired@[j].msg_id;
                assert(has_entry(self.acquired@, q2, m2));
                if has_entry(pre.acquired@, q2, m2) {
                    let j2 = choose|j2: int|
                        0 <= j2 < pre.acquired@.len() && pre.acquired@[j2].queue@ == q2
                            && pre.acquired@[j2].msg_id == m2;
                } else {
                    assert(q2 == queue@ && m2 == msg_id);
                    assert(pre.available@[idx as int].msg_id == msg_id);
                }
            }
            assert forall|j: int|
                0 <= j < self.owned@.len() implies has_entry(
                self.acquired@,
                self.owned@[j].queue@,
                self.owned@[j].msg_id,
            ) by {
                let q2 = self.owned@[j].queue@;
                let m2 = self.owned@[j].msg_id;
                assert(has_owned(self.owned@, self.owned@[j].conn, q2, m2));
                if has_owned(pre.owned@, self.owned@[j].conn, q2, m2) {
                    let j2 = choose|j2: int|
                        0 <= j2 < pre.owned@.len() && pre.owned@[j2].queue@ == q2
                            && pre.owned@[j2].msg_id == m2;
                    assert(has_entry(pre.acquired@, q2, m2));
                }
            }
            assert forall|j: int|
                0 <= j < self.acquired@.len() implies some_owner(
                self.owned@,
                self.acquired@[j],
            ) by {
                let q2 = self.acquired@[j].queue@;
                let m2 = self.acquired@[j].msg_id;
                assert(has_entry(self.acquired@, q2, m2));
                if has_entry(pre.acquired@, q2, m2) {
                    let j2 = choose|j2: int|
                        0 <= j2 < pre.acquired@.len() && pre.acquired@[j2].queue@ == q2
                            && pre.acquired@[j2].msg_id == m2;
                    assert(some_owner(pre.owned@, pre.acquired@[j2]));
                    let c2 = choose|c2: u64| has_owned(pre.owned@, c2, q2, m2);
                    assert(has_owned(self.owned@, c2, q2, m2));
                } else {
                    assert(has_owned(self.owned@, conn, queue@, msg_id)) by {
                        let last = self.owned@.len() - 1;
                        assert(self.owned@[last].conn == conn && self.owned@[last].queue@ == queue@
                            && self.owned@[last].msg_id == msg_id);
                    }
                }
            }
            assert forall|j: int, l: int|
                (0 <= j < self.available@.len() && 0 <= l < self.acquired@.len()) implies !(
            self.available@[j].queue@ == self.acquired@[l].queue@ && self.available@[j].msg_id
                == self.acquired@[l].msg_id) by {
                let q2 = self.available@[j].queue@;
                let m2 = self.available@[j].msg_id;
                assert(has_entry(self.available@, q2, m2));
                let q3 = self.acquired@[l].queue@;
                let m3 = self.acquired@[l].msg_id;
                assert(has_entry(self.acquired@, q3, m3));
                if q2 == q3 && m2 == m3 {
                    if has_entry(pre.acquired@, q3, m3) {
                        let j2 = choose|j2: int|
                            0 <= j2 < pre.available@.len() && pre.available@[j2].queue@ == q2
                                && pre.available@[j2].msg_id == m2;
                        let l2 = choose|l2: int|
                            0 <= l2 < pre.acquired@.len() && pre.acquired@[l2].queue@ == q3
                                && pre.acquired@[l2].msg_id == m3;
                        assert(false);
                    } else {
                        assert(q3 == queue@ && m3 == msg_id);
                        assert(false);
                    }
                }
            }
        }
        Ok(payload)
    }

    /// One acquire attempt on `queue` for `conn`: scans for the first
    /// available message in arrival order and commits the acquire
    /// transaction on it. `None`, with nothing changed, exactly when the
    /// queue has no available message — the caller then waits.
    pub fn acquire(&mut self, queue: &String, conn: u64) -> (r: Option<(u128, Vec<u8>)>)
        requires
            old(self).wf(),
        ensures
            final(self).wf(),
            final(self).id_bound() == old(self).id_bound(),
            match r {
                Some((m, p)) => {
                    &&& acquire_commit(*old(self), *final(self), queue@, m, conn)
                    &&& forall|m2: u128| old(self).is_available(queue@, m2) ==> m <= m2
                    &&& p@ == old(self).message_payload(m)
                },
                None => *final(self) == *old(self) && forall|m: u128|
                    !old(self).is_available(queue@, m),
            },
    {
        match self.first_available(queue) {
            Some(m) => match self.commit_acquire(queue, m, conn) {
                Ok(p) => Some((m, p)),
                Err(_) => {
                    proof {
                        assert(false);
                    }
                    None
                },
            },
            None => None,
        }
    }

    /// The atomic acknowledge transaction for the in-flight `(queue,
    /// msg_id)` held by `conn`. Rejected with `NotOwned`, and nothing
    /// changed, when this connection does not hold the message (double or
    /// foreign acknowledgement). Otherwise the acquired entry and the
    /// ownership record are removed, and the resolution decides the rest:
    /// `Nack` restores the available entry; `Ack` and `Reject` are terminal
    /// and delete the body, unless another queue still references it.
    pub fn acknowledge(
        &mut self,
        queue: &String,
        msg_id: u128,
        conn: u64,
        resolution: MessageAck,
    ) -> (r: Result<(), NotOwned>)
        requires
            old(self).wf(),
        ensures
            final(self).wf(),
            final(self).id_bound() == old(self).id_bound(),
            match r {
                Ok(u) => ack_commit(*old(self), *final(self), queue@, msg_id, conn, resolution),
                Err(_) => *final(self) == *old(self) && !old(self).owns(conn, queue@, msg_id),
            },
    {
        let oidx = match find_owned(&self.owned, conn, queue, msg_id) {
            Some(i) => i,
            None => {
                return Err(NotOwned);
            },
        };
        let aidx = match find_qentry(&self.acquired, queue, msg_id) {
            Some(i) => i,
            None => {
                proof {
                    assert(has_entry(
                        self.acquired@,
                        self.owned@[oidx as int].queue@,
                        self.owned@[oidx as int].msg_id,
                    ));
                    assert(false);
                }
                return Err(NotOwned);
            },
        };
        proof {
            assert(old(self).owns(conn, queue@, msg_id)) by {
                assert(old(self).owned@[oidx as int].conn == conn && old(
                    self,
                ).owned@[oidx as int].queue@ == queue@ && old(self).owned@[oidx as int].msg_id
                    == msg_id);
            }
            lemma_owned_remove(self.owned@, oidx as int);
        }
        self.owned.remove(oidx);
        proof {
            lemma_qentry_remove(self.acquired@, aidx as int);
        }
        self.acquired.remove(aidx);
        let is_nack = match resolution {
            MessageAck::Nack => true,
            _ => false,
        };
        if is_nack {
            let entry_name = queue.clone();
            let ghost pre_avail = self.available@;
            proof {
                assert(!has_entry(pre_avail, queue@, msg_id)) by {
                    if has_entry(pre_avail, queue@, msg_id) {
                        let j = choose|j: int|
                            0 <= j < pre_avail.len() && pre_avail[j].queue@ == queue@
                                && pre_avail[j].msg_id == msg_id;
                        assert(old(self).acquired@[aidx as int].queue@ == queue@);
                        assert(false);
                    }
                }
                lemma_qentry_push(pre_avail, QueueEntry { queue: entry_name, msg_id });
            }
            self.available.push(QueueEntry { queue: entry_name, msg_id });
            proof {
                assert forall|q2: Seq<char>, m2: u128|
                    has_entry(self.available@, q2, m2) <==> (has_entry(pre_avail, q2, m2) || (q2
                        == queue@ && m2 == msg_id)) by {
                    assert(has_entry(self.available@, q2, m2) == has_entry(
                        pre_avail.push(QueueEntry { queue: entry_name, msg_id }),
                        q2,
                        m2,
                    ));
                }
            }
        } else {
            let still_avail = references_msg(&self.available, msg_id);
            let still_acq = references_msg(&self.acquired, msg_id);
            proof {
                let pre = *old(self);
                assert(others_reference(pre, queue@, msg_id) == (still_avail || still_acq)) by {
                    if still_avail {
                        let i = choose|i: int|
                            0 <= i < self.available@.len() && self.available@[i].msg_id == msg_id;
                        let q2 = self.available@[i].queue@;
                        assert(pre.is_available(q2, msg_id)) by {
                            assert(pre.available@[i].queue@ == q2 && pre.available@[i].msg_id
                                == msg_id);
                        }
                    }
                    if still_acq {
                        let i = choose|i: int|
                            0 <= i < self.acquired@.len() && self.acquired@[i].msg_id == msg_id;
                        let q2 = self.acquired@[i].queue@;
                        assert(has_entry(self.acquired@, q2, msg_id)) by {
                            assert(self.acquired@[i].queue@ == q2 && self.acquired@[i].msg_id
                                == msg_id);
                        }
                        assert(pre.is_acquired(q2, msg_id) && q2 != queue@);
                    }
                    if others_reference(pre, queue@, msg_id) {
                        let q2 = choose|q2: Seq<char>|
                            pre.is_available(q2, msg_id) || (pre.is_acquired(q2, msg_id) && q2
                                != queue@);
                        if pre.is_available(q2, msg_id) {
                            let i = choose|i: int|
                                0 <= i < pre.available@.len() && pre.available@[i].queue@ == q2
                                    && pre.available@[i].msg_id == msg_id;
                            assert(self.available@[i].msg_id == msg_id);
                            assert(still_avail);
                        } else {
                            assert(has_entry(self.acquired@, q2, msg_id));
                            let i = choose|i: int|
                                0 <= i < self.acquired@.len() && self.acquired@[i].queue@ == q2
                                    && self.acquired@[i].msg_id == msg_id;
                            assert(self.acquired@[i].msg_id == msg_id);
                            assert(still_acq);
                        }
                    }
                }
            }
            if !still_avail && !still_acq {
                let midx = match find_msg(&self.messages, msg_id) {
                    Some(i) => i,
                    None => {
                        proof {
                            assert(old(self).acquired@[aidx as int].msg_id == msg_id);
                            assert(old(self).has_message(msg_id));
                            assert(false);
                        }
                        return Err(NotOwned);
                    },
                };
                proof {
                    lemma_msg_remove(self.messages@, midx as int);
                }
                self.messages.remove(midx);
            }
        }
        proof {
            let pre = *old(self);
            lemma_ack_wf_and_commit(pre, *self, queue@, msg_id, conn, resolution, aidx as int);
        }
        Ok(())
    }

    /// The reclaim hook for a dead connection: every message `conn` still
    /// held in flight loses its ownership record and acquired entry and is
    /// made available again on its queue, ready for redelivery.
    pub fn reclaim_connection(&mut self, conn: u64)
        requires
            old(self).wf(),
        ensures
            final(self).wf(),
            final(self).id_bound() == old(self).id_bound(),
            reclaim_commit(*old(self), *final(self), conn),
    {
        loop
            invariant
                old(self).wf(),
                self.wf(),
                self.bindings@ == old(self).bindings@,
                self.messages@ == old(self).messages@,
                self.next_id == old(self).next_id,
                forall|c2: u64, q: Seq<char>, m: u128|
                    c2 != conn ==> (self.owns(c2, q, m) <==> old(self).owns(c2, q, m)),
                forall|q: Seq<char>, m: u128|
                    self.owns(conn, q, m) ==> old(self).owns(conn, q, m),
                forall|q: Seq<char>, m: u128|
                    self.is_acquired(q, m) <==> (old(self).is_acquired(q, m) && !(old(self).owns(
                        conn,
                        q,
                        m,
                    ) && !self.owns(conn, q, m))),
                forall|q: Seq<char>, m: u128|
                    self.is_available(q, m) <==> (old(self).is_available(q, m) || (old(self).owns(
                        conn,
                        q,
                        m,
                    ) && !self.owns(conn, q, m))),
            decreases self.owned@.len(),
        {
            let oidx = match find_owned_by_conn(&self.owned, conn) {
                Some(i) => i,
                None => {
                    return ;
                },
            };
            let q0 = self.owned[oidx].queue.clone();
            let m0 = self.owned[oidx].msg_id;
            proof {
                assert(has_owned(self.owned@, conn, q0@, m0)) by {
                    assert(self.owned@[oidx as int].conn == conn && self.owned@[oidx as int].queue@
                        == q0@ && self.owned@[oidx as int].msg_id == m0);
                }
            }
            let aidx = match find_qentry(&self.acquired, &q0, m0) {
                Some(i) => i,
                None => {
                    proof {
                        assert(has_entry(
                            self.acquired@,
                            self.owned@[oidx as int].queue@,
                            self.owned@[oidx as int].msg_id,
                        ));
                        assert(false);
                    }
                    return ;
                },
            };
            let ghost mid = *self;
            proof {
                lemma_owned_remove(self.owned@, oidx as int);
            }
            self.owned.remove(oidx);
            proof {
                lemma_qentry_remove(self.acquired@, aidx as int);
            }
            self.acquired.remove(aidx);
            let entry_name = q0.clone();
            proof {
                assert(!has_entry(self.available@, q0@, m0)) by {
                    if has_entry(self.available@, q0@, m0) {
                        let j = choose|j: int|
                            0 <= j < self.available@.len() && self.available@[j].queue@ == q0@
                                && self.available@[j].msg_id == m0;
                        assert(mid.acquired@[aidx as int].queue@ == q0@);
                        assert(false);
                    }
                }
                lemma_qentry_push(self.available@, QueueEntry { queue: entry_name, msg_id: m0 });
            }
            self.available.push(QueueEntry { queue: entry_name, msg_id: m0 });
            proof {
                lemma_reclaim_step(*old(self), mid, *self, conn, q0@, m0, aidx as int);
            }
        }
    }

    /// Reports whether `(queue, msg_id)` is marked available.
    pub fn available_contains(&self, queue: &String, msg_id: u128) -> (r: bool)
        ensures
            r == self.is_available(queue@, msg_id),
    {
        match find_qentry(&self.available, queue, msg_id) {
            Some(i) => {
                proof {
                    assert(self.available@[i as int].queue@ == queue@
                        && self.available@[i as int].msg_id == msg_id);
                }
                true
            },
            None => false,
        }
    }

    /// Reports whether `(queue, msg_id)` is marked acquired.
    pub fn acquired_contains(&self, queue: &String, msg_id: u128) -> (r: bool)
        ensures
            r == self.is_acquired(queue@, msg_id),
    {
        match find_qentry(&self.acquired, queue, msg_id) {
            Some(i) => {
                proof {
                    assert(self.acquired@[i as int].queue@ == queue@
                        && self.acquired@[i as int].msg_id == msg_id);
                }
                true
            },
            None => false,
        }
    }

    /// Reports whether connection `conn` holds `(queue, msg_id)` in flight.
    pub fn connection_owns(&self, conn: u64, queue: &String, msg_id: u128) -> (r: bool)
        ensures
            r == self.owns(conn, queue@, msg_id),
    {
        match find_owned(&self.owned, conn, queue, msg_id) {
            Some(i) => {
                proof {
                    assert(self.owned@[i as int].conn == conn && self.owned@[i as int].queue@
                        == queue@ && self.owned@[i as int].msg_id == msg_id);
                }
                true
            },
            None => false,
        }
    }

    /// Reports whether a fresh arrival identifier can still be assigned;
    /// callers test this before a publish.
    pub fn can_assign_id(&self) -> (r: bool)
        ensures
            r == self.ids_not_exhausted(),
    {
        self.next_id < u128::MAX
    }

    /// Reports whether a body for `msg_id` is stored.
    pub fn message_exists(&self, msg_id: u128) -> (r: bool)
        ensures
            r == self.has_message(msg_id),
    {
        match find_msg(&self.messages, msg_id) {
            Some(i) => {
                proof {
                    assert(self.messages@[i as int].id == msg_id);
                }
                true
            },
            None => false,
        }
    }
}

proof fn lemma_ack_wf_and_commit(
    pre: BrokerStore,
    post: BrokerStore,
    q: Seq<char>,
    m: u128,
    c: u64,
    resolution: MessageAck,
    aidx: int,
)
    requires
        pre.wf(),
        pre.owns(c, q, m),
        0 <= aidx < pre.acquired@.len(),
        pre.acquired@[aidx].queue@ == q,
        pre.acquired@[aidx].msg_id == m,
        post.bindings@ == pre.bindings@,
        post.next_id == pre.next_id,
        forall|c2: u64, q2: Seq<char>, m2: u128|
            post.owns(c2, q2, m2) <==> (pre.owns(c2, q2, m2) && !(q2 == q && m2 == m)),
        owned_distinct(post.owned@),
        forall|q2: Seq<char>, m2: u128|
            post.is_acquired(q2, m2) <==> (pre.is_acquired(q2, m2) && !(q2 == q && m2 == m)),
        entries_distinct(post.acquired@),
        match resolution {
            MessageAck::Nack => {
                &&& forall|q2: Seq<char>, m2: u128|
                    post.is_available(q2, m2) <==> (pre.is_available(q2, m2) || (q2 == q && m2
                        == m))
                &&& entries_distinct(post.available@)
                &&& post.messages@ == pre.messages@
            },
            _ => {
                &&& post.available@ == pre.available@
                &&& msgs_distinct(post.messages@)
                &&& forall|m2: u128|
                    has_msg(post.messages@, m2) <==> (has_msg(pre.messages@, m2) && !(m2 == m
                        && !others_reference(pre, q, m)))
                &&& forall|m2: u128|
                    has_msg(pre.messages@, m2) && has_msg(post.messages@, m2) ==> payload_of(
                        post.messages@,
                        m2,
                    ) == payload_of(pre.messages@, m2)
            },
        },
    ensures
        post.wf(),
        ack_commit(pre, post, q, m, c, resolution),
{
    assert(pre.is_acquired(q, m)) by {
        assert(pre.acquired@[aidx].queue@ == q && pre.acquired@[aidx].msg_id == m);
    }
    match resolution {
        MessageAck::Nack => {
            assert forall|j: int|
                0 <= j < post.available@.len() implies post.has_message(
                post.available@[j].msg_id,
            ) && post.available@[j].msg_id < post.next_id by {
                let q2 = post.available@[j].queue@;
                let m2 = post.available@[j].msg_id;
                assert(post.is_available(q2, m2)) by {
                    assert(post.available@[j].queue@ == q2 && post.available@[j].msg_id == m2);
                }
                if pre.is_available(q2, m2) {
                    let j2 = choose|j2: int|
                        0 <= j2 < pre.available@.len() && pre.available@[j2].queue@ == q2
                            && pre.available@[j2].msg_id == m2;
                } else {
                    assert(m2 == m);
                    assert(pre.acquired@[aidx].msg_id == m);
                }
            }
            assert forall|j: int|
                0 <= j < post.acquired@.len() implies post.has_message(post.acquired@[j].msg_id)
                && post.acquired@[j].msg_id < post.next_id by {
                let q2 = post.acquired@[j].queue@;
                let m2 = post.acquired@[j].msg_id;
                assert(post.is_acquired(q2, m2)) by {
                    assert(post.acquired@[j].queue@ == q2 && post.acquired@[j].msg_id == m2);
                }
                let j2 = choose|j2: int|
                    0 <= j2 < pre.acquired@.len() && pre.acquired@[j2].queue@ == q2
                        && pre.acquired@[j2].msg_id == m2;
            }
        },
        _ => {
            assert forall|j: int|
                0 <= j < post.available@.len() implies post.has_message(
                post.available@[j].msg_id,
            ) && post.available@[j].msg_id < post.next_id by {
                let q2 = post.available@[j].queue@;
                let m2 = post.available@[j].msg_id;
                assert(pre.is_available(q2, m2)) by {
                    assert(pre.available@[j].queue@ == q2 && pre.available@[j].msg_id == m2);
                }
                let j2 = choose|j2: int|
                    0 <= j2 < pre.available@.len() && pre.available@[j2].queue@ == q2
                        && pre.available@[j2].msg_id == m2;
                if m2 == m {
                    assert(others_reference(pre, q, m)) by {
                        assert(pre.is_available(q2, m));
                    }
                }
            }
            assert forall|j: int|
                0 <= j < post.acquired@.len() implies post.has_message(post.acquired@[j].msg_id)
                && post.acquired@[j].msg_id < post.next_id by {
                let q2 = post.acquired@[j].queue@;
                let m2 = post.acquired@[j].msg_id;
                assert(post.is_acquired(q2, m2)) by {
                    assert(post.acquired@[j].queue@ == q2 && post.acquired@[j].msg_id == m2);
                }
                let j2 = choose|j2: int|
                    0 <= j2 < pre.acquired@.len() && pre.acquired@[j2].queue@ == q2
                        && pre.acquired@[j2].msg_id == m2;
                if m2 == m {
                    assert(!(q2 == q && m2 == m));
                    assert(others_reference(pre, q, m)) by {
                        assert(pre.is_acquired(q2, m) && q2 != q);
                    }
                }
            }
        },
    }
    assert forall|j: int|
        0 <= j < post.owned@.len() implies has_entry(
        post.acquired@,
        post.owned@[j].queue@,
        post.owned@[j].msg_id,
    ) by {
        let c2 = post.owned@[j].conn;
        let q2 = post.owned@[j].queue@;
        let m2 = post.owned@[j].msg_id;
        assert(post.owns(c2, q2, m2)) by {
            assert(post.owned@[j].conn == c2 && post.owned@[j].queue@ == q2
                && post.owned@[j].msg_id == m2);
        }
        assert(pre.owns(c2, q2, m2) && !(q2 == q && m2 == m));
        let j2 = choose|j2: int|
            0 <= j2 < pre.owned@.len() && pre.owned@[j2].conn == c2 && pre.owned@[j2].queue@ == q2
                && pre.owned@[j2].msg_id == m2;
        assert(has_entry(pre.acquired@, q2, m2));
        assert(post.is_acquired(q2, m2));
    }
    assert forall|j: int|
        0 <= j < post.acquired@.len() implies some_owner(post.owned@, post.acquired@[j]) by {
        let q2 = post.acquired@[j].queue@;
        let m2 = post.acquired@[j].msg_id;
        assert(post.is_acquired(q2, m2)) by {
            assert(post.acquired@[j].queue@ == q2 && post.acquired@[j].msg_id == m2);
        }
        assert(pre.is_acquired(q2, m2) && !(q2 == q && m2 == m));
        let j2 = choose|j2: int|
            0 <= j2 < pre.acquired@.len() && pre.acquired@[j2].queue@ == q2
                && pre.acquired@[j2].msg_id == m2;
        assert(some_owner(pre.owned@, pre.acquired@[j2]));
        let c2 = choose|c2: u64| has_owned(pre.owned@, c2, q2, m2);
        assert(post.owns(c2, q2, m2));
        let j3 = choose|j3: int|
            0 <= j3 < post.owned@.len() && post.owned@[j3].conn == c2 && post.owned@[j3].queue@
                == q2 && post.owned@[j3].msg_id == m2;
        assert(has_owned(post.owned@, c2, post.acquired@[j].queue@, post.acquired@[j].msg_id));
    }
    assert forall|j: int, l: int|
        (0 <= j < post.available@.len() && 0 <= l < post.acquired@.len()) implies !(
    post.available@[j].queue@ == post.acquired@[l].queue@ && post.available@[j].msg_id
        == post.acquired@[l].msg_id) by {
        let q2 = post.available@[j].queue@;
        let m2 = post.available@[j].msg_id;
        assert(post.is_available(q2, m2)) by {
            assert(post.available@[j].queue@ == q2 && post.available@[j].msg_id == m2);
        }
        let q3 = post.acquired@[l].queue@;
        let m3 = post.acquired@[l].msg_id;
        assert(post.is_acquired(q3, m3)) by {
            assert(post.acquired@[l].queue@ == q3 && post.acquired@[l].msg_id == m3);
        }
        if q2 == q3 && m2 == m3 {
            assert(pre.is_acquired(q3, m3) && !(q3 == q && m3 == m));
            if pre.is_available(q2, m2) {
                let j2 = choose|j2: int|
                    0 <= j2 < pre.available@.len() && pre.available@[j2].queue@ == q2
                        && pre.available@[j2].msg_id == m2;
                let l2 = choose|l2: int|
                    0 <= l2 < pre.acquired@.len() && pre.acquired@[l2].queue@ == q3
                        && pre.acquired@[l2].msg_id == m3;
                assert(false);
            } else {
                assert(q2 == q && m2 == m);
                assert(false);
            }
        }
    }
    assert forall|j: int| 0 <= j < post.messages@.len() implies post.messages@[j].id
        < post.next_id by {
        assert(has_msg(post.messages@, post.messages@[j].id)) by {
            assert(post.messages@[j].id == post.messages@[j].id);
        }
        match resolution {
            MessageAck::Nack => {},
            _ => {
                assert(has_msg(pre.messages@, post.messages@[j].id));
                let j2 = choose|j2: int|
                    0 <= j2 < pre.messages@.len() && pre.messages@[j2].id == post.messages@[j].id;
            },
        }
    }
    match resolution {
        MessageAck::Nack => {
            assert forall|m2: u128| post.has_message(m2) == pre.has_message(m2) by {}
            assert forall|m2: u128|
                pre.has_message(m2) implies post.message_payload(m2) == pre.message_payload(
                m2,
            ) by {}
        },
        _ => {},
    }
}

proof fn lemma_reclaim_step(
    orig: BrokerStore,
    mid: BrokerStore,
    post: BrokerStore,
    conn: u64,
    q: Seq<char>,
    m: u128,
    aidx: int,
)
    requires
        orig.wf(),
        mid.wf(),
        mid.bindings@ == orig.bindings@,
        mid.messages@ == orig.messages@,
        mid.next_id == orig.next_id,
        forall|c2: u64, q2: Seq<char>, m2: u128|
            c2 != conn ==> (mid.owns(c2, q2, m2) <==> orig.owns(c2, q2, m2)),
        forall|q2: Seq<char>, m2: u128| mid.owns(conn, q2, m2) ==> orig.owns(conn, q2, m2),
        forall|q2: Seq<char>, m2: u128|
            mid.is_acquired(q2, m2) <==> (orig.is_acquired(q2, m2) && !(orig.owns(conn, q2, m2)
                && !mid.owns(conn, q2, m2))),
        forall|q2: Seq<char>, m2: u128|
            mid.is_available(q2, m2) <==> (orig.is_available(q2, m2) || (orig.owns(conn, q2, m2)
                && !mid.owns(conn, q2, m2))),
        mid.owns(conn, q, m),
        0 <= aidx < mid.acquired@.len(),
        mid.acquired@[aidx].queue@ == q,
        mid.acquired@[aidx].msg_id == m,
        post.bindings@ == mid.bindings@,
        post.messages@ == mid.messages@,
        post.next_id == mid.next_id,
        forall|c2: u64, q2: Seq<char>, m2: u128|
            post.owns(c2, q2, m2) <==> (mid.owns(c2, q2, m2) && !(q2 == q && m2 == m)),
        owned_distinct(post.owned@),
        forall|q2: Seq<char>, m2: u128|
            post.is_acquired(q2, m2) <==> (mid.is_acquired(q2, m2) && !(q2 == q && m2 == m)),
        entries_distinct(post.acquired@),
        forall|q2: Seq<char>, m2: u128|
            post.is_available(q2, m2) <==> (mid.is_available(q2, m2) || (q2 == q && m2 == m)),
        entries_distinct(post.available@),
    ensures
        post.wf(),
        forall|c2: u64, q2: Seq<char>, m2: u128|
            c2 != conn ==> (post.owns(c2, q2, m2) <==> orig.owns(c2, q2, m2)),
        forall|q2: Seq<char>, m2: u128| post.owns(conn, q2, m2) ==> orig.owns(conn, q2, m2),
        forall|q2: Seq<char>, m2: u128|
            post.is_acquired(q2, m2) <==> (orig.is_acquired(q2, m2) && !(orig.owns(conn, q2, m2)
                && !post.owns(conn, q2, m2))),
        forall|q2: Seq<char>, m2: u128|
            post.is_available(q2, m2) <==> (orig.is_available(q2, m2) || (orig.owns(conn, q2, m2)
                && !post.owns(conn, q2, m2))),
{
    assert(mid.is_acquired(q, m)) by {
        assert(mid.acquired@[aidx].queue@ == q && mid.acquired@[aidx].msg_id == m);
    }
    assert forall|c2: u64, q2: Seq<char>, m2: u128|
        c2 != conn implies (post.owns(c2, q2, m2) <==> orig.owns(c2, q2, m2)) by {
        if q2 == q && m2 == m {
            if orig.owns(c2, q2, m2) {
                assert(mid.owns(conn, q, m));
                if mid.owns(c2, q2, m2) {
                    let j1 = choose|j1: int|
                        0 <= j1 < mid.owned@.len() && mid.owned@[j1].conn == c2
                            && mid.owned@[j1].queue@ == q2 && mid.owned@[j1].msg_id == m2;
                    let j2 = choose|j2: int|
                        0 <= j2 < mid.owned@.len() && mid.owned@[j2].conn == conn
                            && mid.owned@[j2].queue@ == q && mid.owned@[j2].msg_id == m;
                    assert(false);
                } else {
                    assert(orig.owns(conn, q, m));
                    let j1 = choose|j1: int|
                        0 <= j1 < orig.owned@.len() && orig.owned@[j1].conn == c2
                            && orig.owned@[j1].queue@ == q2 && orig.owned@[j1].msg_id == m2;
                    let j2 = choose|j2: int|
                        0 <= j2 < orig.owned@.len() && orig.owned@[j2].conn == conn
                            && orig.owned@[j2].queue@ == q && orig.owned@[j2].msg_id == m;
                    assert(false);
                }
            }
        }
    }
    assert forall|q2: Seq<char>, m2: u128|
        post.is_acquired(q2, m2) <==> (orig.is_acquired(q2, m2) && !(orig.owns(conn, q2, m2)
            && !post.owns(conn, q2, m2))) by {
        if q2 == q && m2 == m {
            assert(!post.is_acquired(q2, m2));
            assert(orig.owns(conn, q, m));
            assert(!post.owns(conn, q2, m2));
        }
    }
    assert forall|q2: Seq<char>, m2: u128|
        post.is_available(q2, m2) <==> (orig.is_available(q2, m2) || (orig.owns(conn, q2, m2)
            && !post.owns(conn, q2, m2))) by {
        if q2 == q && m2 == m {
            assert(post.is_available(q2, m2));
            assert(orig.owns(conn, q, m));
            assert(!post.owns(conn, q2, m2));
        }
    }
    assert forall|j: int|
        0 <= j < post.available@.len() implies post.has_message(post.available@[j].msg_id)
        && post.available@[j].msg_id < post.next_id by {
        let q2 = post.available@[j].queue@;
        let m2 = post.available@[j].msg_id;
        assert(post.is_available(q2, m2)) by {
            assert(post.available@[j].queue@ == q2 && post.available@[j].msg_id == m2);
        }
        if mid.is_available(q2, m2) {
            let j2 = choose|j2: int|
                0 <= j2 < mid.available@.len() && mid.available@[j2].queue@ == q2
                    && mid.available@[j2].msg_id == m2;
        } else {
            assert(q2 == q && m2 == m);
            assert(mid.acquired@[aidx].msg_id == m);
        }
    }
    assert forall|j: int|
        0 <= j < post.acquired@.len() implies post.has_message(post.acquired@[j].msg_id)
        && post.acquired@[j].msg_id < post.next_id by {
        let q2 = post.acquired@[j].queue@;
        let m2 = post.acquired@[j].msg_id;
        assert(post.is_acquired(q2, m2)) by {
            assert(post.acquired@[j].queue@ == q2 && post.acquired@[j].msg_id == m2);
        }
        assert(mid.is_acquired(q2, m2));
        let j2 = choose|j2: int|
            0 <= j2 < mid.acquired@.len() && mid.acquired@[j2].queue@ == q2
                && mid.acquired@[j2].msg_id == m2;
    }
    assert forall|j: int| 0 <= j < post.messages@.len() implies post.messages@[j].id
        < post.next_id by {
        assert(mid.messages@[j].id < mid.next_id);
    }
    assert forall|j: int|
        0 <= j < post.owned@.len() implies has_entry(
        post.acquired@,
        post.owned@[j].queue@,
        post.owned@[j].msg_id,
    ) by {
        let c2 = post.owned@[j].conn;
        let q2 = post.owned@[j].queue@;
        let m2 = post.owned@[j].msg_id;
        assert(post.owns(c2, q2, m2)) by {
            assert(post.owned@[j].conn == c2 && post.owned@[j].queue@ == q2
                && post.owned@[j].msg_id == m2);
        }
        assert(mid.owns(c2, q2, m2) && !(q2 == q && m2 == m));
        let j2 = choose|j2: int|
            0 <= j2 < mid.owned@.len() && mid.owned@[j2].conn == c2 && mid.owned@[j2].queue@ == q2
                && mid.owned@[j2].msg_id == m2;
        assert(has_entry(mid.acquired@, q2, m2));
        assert(mid.is_acquired(q2, m2));
        assert(post.is_acquired(q2, m2));
    }
    assert forall|j: int|
        0 <= j < post.acquired@.len() implies some_owner(post.owned@, post.acquired@[j]) by {
        let q2 = post.acquired@[j].queue@;
        let m2 = post.acquired@[j].msg_id;
        assert(post.is_acquired(q2, m2)) by {
            assert(post.acquired@[j].queue@ == q2 && post.acquired@[j].msg_id == m2);
        }
        assert(mid.is_acquired(q2, m2) && !(q2 == q && m2 == m));
        let j2 = choose|j2: int|
            0 <= j2 < mid.acquired@.len() && mid.acquired@[j2].queue@ == q2
                && mid.acquired@[j2].msg_id == m2;
        assert(some_owner(mid.owned@, mid.acquired@[j2]));
        let c2 = choose|c2: u64| has_owned(mid.owned@, c2, q2, m2);
        assert(post.owns(c2, q2, m2));
        let j3 = choose|j3: int|
            0 <= j3 < post.owned@.len() && post.owned@[j3].conn == c2 && post.owned@[j3].queue@
                == q2 && post.owned@[j3].msg_id == m2;
        assert(has_owned(post.owned@, c2, post.acquired@[j].queue@, post.acquired@[j].msg_id));
    }
    assert forall|j: int, l: int|
        (0 <= j < post.available@.len() && 0 <= l < post.acquired@.len()) implies !(
    post.available@[j].queue@ == post.acquired@[l].queue@ && post.available@[j].msg_id
        == post.acquired@[l].msg_id) by {
        let q2 = post.available@[j].queue@;
        let m2 = post.available@[j].msg_id;
        assert(post.is_available(q2, m2)) by {
            assert(post.available@[j].queue@ == q2 && post.available@[j].msg_id == m2);
        }
        let q3 = post.acquired@[l].queue@;
        let m3 = post.acquired@[l].msg_id;
        assert(post.is_acquired(q3, m3)) by {
            assert(post.acquired@[l].queue@ == q3 && post.acquired@[l].msg_id == m3);
        }
        if q2 == q3 && m2 == m3 {
            assert(mid.is_acquired(q3, m3) && !(q3 == q && m3 == m));
            if mid.is_available(q2, m2) {
                let j2 = choose|j2: int|
                    0 <= j2 < mid.available@.len() && mid.available@[j2].queue@ == q2
                        && mid.available@[j2].msg_id == m2;
                let l2 = choose|l2: int|
                    0 <= l2 < mid.acquired@.len() && mid.acquired@[l2].queue@ == q3
                        && mid.acquired@[l2].msg_id == m3;
                assert(false);
            } else {
                assert(q2 == q && m2 == m);
                assert(false);
            }
        }
    }
}

/// Law: right after a durable publish commit of message `id`, an available
/// entry exists for every queue the exchange routes the key to, and for no
/// other queue.
pub proof fn lemma_publish_routes_exactly(
    pre: BrokerStore,
    post: BrokerStore,
    e: Seq<char>,
    k: Seq<char>,
    p: Seq<u8>,
    id: u128,
    q: Seq<char>,
)
    requires
        pre.wf(),
        publish_commit(pre, post, e, k, p, id),
    ensures
        post.is_available(q, id) <==> pre.routes_to(e, k, q),
{
    if pre.is_available(q, id) {
        let j = choose|j: int|
            0 <= j < pre.available@.len() && pre.available@[j].queue@ == q
                && pre.available@[j].msg_id == id;
        assert(pre.has_message(id));
        assert(false);
    }
}

/// Law: concurrent acquire attempts for one `(queue, message)` pair hand it
/// to at most one consumer. Once one commit wins, the available entry is
/// gone, so no second commit for the same pair can take effect: the loser
/// observes a conflict and retries.
pub proof fn lemma_at_most_one_acquirer(
    s0: BrokerStore,
    s1: BrokerStore,
    s2: BrokerStore,
    q: Seq<char>,
    m: u128,
    c1: u64,
    c2: u64,
)
    requires
        acquire_commit(s0, s1, q, m, c1),
    ensures
        !s1.is_available(q, m),
        !acquire_commit(s1, s2, q, m, c2),
{
}

/// Law: every acknowledgement resolution is terminal for the acquired entry
/// and the connection-ownership record: after it, neither exists for the
/// pair, whatever connection is asked about.
pub proof fn lemma_ack_terminal(
    pre: BrokerStore,
    post: BrokerStore,
    q: Seq<char>,
    m: u128,
    c: u64,
    resolution: MessageAck,
    c2: u64,
)
    requires
        ack_commit(pre, post, q, m, c, resolution),
    ensures
        !post.is_acquired(q, m),
        !post.owns(c2, q, m),
{
}

/// Law: a negative acknowledgement restores availability. After a `Nack`
/// the pair is available again with its body intact, and since an acquire
/// commit is enabled exactly by availability — never by which connection
/// asks — any consumer on the queue may take it next.
pub proof fn lemma_nack_restores_availability(
    pre: BrokerStore,
    post: BrokerStore,
    q: Seq<char>,
    m: u128,
    c: u64,
)
    requires
        pre.wf(),
        ack_commit(pre, post, q, m, c, MessageAck::Nack),
    ensures
        post.is_available(q, m),
        post.has_message(m) == pre.has_message(m),
        pre.has_message(m) ==> post.message_payload(m) == pre.message_payload(m),
{
}

/// Law: in a well-formed store, the available and the acquired entry for a
/// `(queue, message)` pair are mutually exclusive — never both present.
pub proof fn lemma_available_acquired_exclusive(s: BrokerStore, q: Seq<char>, m: u128)
    requires
        s.wf(),
    ensures
        !(s.is_available(q, m) && s.is_acquired(q, m)),
{
    if s.is_available(q, m) && s.is_acquired(q, m) {
        let j = choose|j: int|
            0 <= j < s.available@.len() && s.available@[j].queue@ == q && s.available@[j].msg_id
                == m;
        let l = choose|l: int|
            0 <= l < s.acquired@.len() && s.acquired@[l].queue@ == q && s.acquired@[l].msg_id == m;
        assert(false);
    }
}

/// Law: in a well-formed store, every acquired entry has exactly one owning
/// connection — some connection holds it, and no two do.
pub proof fn lemma_acquired_has_unique_owner(s: BrokerStore, q: Seq<char>, m: u128)
    requires
        s.wf(),
        s.is_acquired(q, m),
    ensures
        exists|c: u64| s.owns(c, q, m),
        forall|c1: u64, c2: u64| s.owns(c1, q, m) && s.owns(c2, q, m) ==> c1 == c2,
{
    let j = choose|j: int|
        0 <= j < s.acquired@.len() && s.acquired@[j].queue@ == q && s.acquired@[j].msg_id == m;
    assert(some_owner(s.owned@, s.acquired@[j]));
    let c = choose|c: u64| has_owned(s.owned@, c, s.acquired@[j].queue@, s.acquired@[j].msg_id);
    assert(s.owns(c, q, m));
    assert forall|c1: u64, c2: u64| s.owns(c1, q, m) && s.owns(c2, q, m) implies c1 == c2 by {
        if s.owns(c1, q, m) && s.owns(c2, q, m) {
            let j1 = choose|j1: int|
                0 <= j1 < s.owned@.len() && s.owned@[j1].conn == c1 && s.owned@[j1].queue@ == q
                    && s.owned@[j1].msg_id == m;
            let j2 = choose|j2: int|
                0 <= j2 < s.owned@.len() && s.owned@[j2].conn == c2 && s.owned@[j2].queue@ == q
                    && s.owned@[j2].msg_id == m;
            assert(j1 == j2);
        }
    }
}

/// Compares two strings by content.
fn string_eq(a: &String, b: &String) -> (r: bool)
    ensures
        r == (a@ == b@),
{
    a.eq(b)
}

} // verus!
