//! The consumer wait protocol, free of lost wakeups.
//!
//! A consumer that finds its queue empty must not simply park: a publish
//! racing between the check and the park would be missed and the consumer
//! would sleep forever. The protocol is therefore: arm the queue's signal
//! first, then perform the authoritative availability check, and only park
//! if the check still finds nothing and no notification has arrived since
//! arming. The publisher's side signals only after its commit is durable.
//!
//! The joint state of one consumer round and its queue signal is modelled
//! here as a small transition system, and the decisive safety fact is
//! proved: a parked consumer never coexists with an available message or a
//! pending notification — so every wakeup that matters is delivered.
use vstd::prelude::*;

verus! {

/// Where the consumer stands in one round of the wait protocol.
#[derive(Clone, Copy, PartialEq, Eq, Debug)]
pub enum WaiterPhase {
    /// Not yet armed for this round.
    Start,
    /// Armed: a notification arriving from now on is kept for this round.
    Armed,
    /// The authoritative check found nothing and the consumer parked.
    Parked,
    /// A notification ended the park, or was found already stored when the
    /// consumer was about to park.
    Woken,
}

/// The joint state of one consumer round: its phase, whether the queue
/// signal stores a pending notification, and whether a message is available
/// on the queue.
#[derive(Clone, Copy, PartialEq, Eq, Debug)]
pub struct WaitRound {
    pub phase: WaiterPhase,
    pub permit: bool,
    pub msg_ready: bool,
}

/// One protocol event.
#[derive(Clone, Copy, PartialEq, Eq, Debug)]
pub enum WaitEvent {
    /// The consumer arms the signal, before any check.
    Arm,
    /// The armed consumer checks and finds a message: it goes on to acquire
    /// it, and this round is over.
    CheckFound,
    /// The armed consumer checks, finds nothing, and parks — unless a
    /// notification is already stored, which wakes it at once instead.
    CheckEmptyAndPark,
    /// A publisher commits durably, a message becomes available, and the
    /// queue is signalled — in that order, never before durability.
    PublishAndNotify,
    /// A woken consumer starts its next round.
    Retry,
}

/// When an event can fire.
pub open spec fn wait_enabled(s: WaitRound, e: WaitEvent) -> bool {
    match e {
        WaitEvent::Arm => s.phase is Start,
        WaitEvent::CheckFound => s.phase is Armed && s.msg_ready,
        WaitEvent::CheckEmptyAndPark => s.phase is Armed && !s.msg_ready,
        WaitEvent::PublishAndNotify => true,
        WaitEvent::Retry => s.phase is Woken,
    }
}

/// The transition function of the protocol.
pub open spec fn spec_wait_step(s: WaitRound, e: WaitEvent) -> WaitRound {
    match e {
        WaitEvent::Arm => WaitRound { phase: WaiterPhase::Armed, ..s },
        WaitEvent::CheckFound => WaitRound { phase: WaiterPhase::Start, ..s },
        WaitEvent::CheckEmptyAndPark => if s.permit {
            WaitRound { phase: WaiterPhase::Woken, permit: false, ..s }
        } else {
            WaitRound { phase: WaiterPhase::Parked, ..s }
        },
        WaitEvent::PublishAndNotify => if s.phase is Parked {
            WaitRound { phase: WaiterPhase::Woken, msg_ready: true, ..s }
        } else {
            WaitRound { permit: true, msg_ready: true, ..s }
        },
        WaitEvent::Retry => WaitRound { phase: WaiterPhase::Start, ..s },
    }
}

/// The protocol's safety invariant: a parked consumer never coexists with
/// an available message or a pending notification. A publish finding the
/// consumer parked wakes it; one racing ahead of the park leaves a permit
/// that turns the park into an immediate wake. Parking is therefore safe
/// exactly because arming happens before the check.
pub open spec fn wait_inv(s: WaitRound) -> bool {
    s.phase is Parked ==> (!s.msg_ready && !s.permit)
}

/// Law: the no-lost-wakeup invariant is preserved by every enabled event,
/// from every state that satisfies it.
pub proof fn lemma_no_lost_wakeup(s: WaitRound, e: WaitEvent)
    requires
        wait_inv(s),
        wait_enabled(s, e),
    ensures
        wait_inv(spec_wait_step(s, e)),
{
}

/// Advances the protocol by one enabled event.
pub fn wait_step(s: WaitRound, e: WaitEvent) -> (r: WaitRound)
    requires
        wait_enabled(s, e),
    ensures
        r == spec_wait_step(s, e),
{
    match e {
        WaitEvent::Arm => WaitRound { phase: WaiterPhase::Armed, ..s },
        WaitEvent::CheckFound => WaitRound { phase: WaiterPhase::Start, ..s },
        WaitEvent::CheckEmptyAndPark => if s.permit {
            WaitRound { phase: WaiterPhase::Woken, permit: false, ..s }
        } else {
            WaitRound { phase: WaiterPhase::Parked, ..s }
        },
        WaitEvent::PublishAndNotify => {
            match s.phase {
                WaiterPhase::Parked => WaitRound {
                    phase: WaiterPhase::Woken,
                    msg_ready: true,
                    ..s
                },
                _ => WaitRound { permit: true, msg_ready: true, ..s },
            }
        },
        WaitEvent::Retry => WaitRound { phase: WaiterPhase::Start, ..s },
    }
}

/// The per-queue signal: stores at most one pending notification, exactly
/// like the permit of an asynchronous notifier. Created lazily on a queue's
/// first use and shared by every task touching that queue.
pub struct QueueSignal {
    permit: bool,
}

impl QueueSignal {
    /// Whether a notification is stored.
    pub closed spec fn has_permit(&self) -> bool {
        self.permit
    }

    /// A fresh signal with no pending notification.
    pub fn new() -> (s: QueueSignal)
        ensures
            !s.has_permit(),
    {
        QueueSignal { permit: false }
    }

    /// Stores a notification. Idempotent: at most one permit is kept.
    pub fn notify(&mut self)
        ensures
            final(self).has_permit(),
    {
        self.permit = true;
    }

    /// Takes the stored notification, if any, and reports whether there was
    /// one.
    pub fn take_permit(&mut self) -> (was: bool)
        ensures
            !final(self).has_permit(),
            was == old(self).has_permit(),
    {
        let was = self.permit;
        self.permit = false;
        was
    }
}

} // verus!
