//! Outcome of a port rendezvous, with the arbitration between a caller that
//! gives up waiting for a reply and a server that replies.
//!
//! ```text
//!   PENDING ──set()──► DELIVERED / PEER_GONE / TRANSFER_FAILED
//!      │ set_awaiting_reply()
//!      ▼
//!   AWAITING_REPLY ──try_timeout()──► TIMEDOUT
//!      │ try_begin_reply()
//!      ▼
//!   DELIVERING ──set()──► DELIVERED / PEER_GONE / TRANSFER_FAILED
//! ```

use vstd::prelude::*;

verus! {

/// Role of a blocked party.
#[derive(Debug, Clone, Copy, PartialEq, Eq, Structural)]
pub enum WaiterKind {
    /// `send`: the sender resumes once the message is delivered.
    Send,
    /// `call`: the caller stays blocked until the reply.
    Call,
    /// `recv`: the receiver waits for a sender or a caller.
    Recv,
}

/// Terminal outcome read by the woken party.
#[derive(Debug, Clone, Copy, PartialEq, Eq, Structural)]
pub enum RendezvousOutcome {
    /// The message was delivered.
    Delivered,
    /// The port or the reply went away.
    PeerGone,
    /// Moving the capabilities or copying the body failed.
    TransferFailed,
}

/// No outcome yet.
pub const PENDING: u32 = 0;
/// `call`: the request was delivered, the caller waits for the reply.
pub const AWAITING_REPLY: u32 = 1;
/// The reply is being transferred; the caller must wait for its outcome.
pub const DELIVERING: u32 = 2;
/// Terminal: delivered.
pub const DELIVERED: u32 = 3;
/// Terminal: peer gone.
pub const PEER_GONE: u32 = 4;
/// Terminal: transfer failed.
pub const TRANSFER_FAILED: u32 = 5;
/// The caller stopped waiting before the reply.
pub const TIMEDOUT: u32 = 6;

/// Slot holding the state of one rendezvous.
pub struct OutcomeSlot {
    state: u32,
}

/// State value of a terminal outcome.
pub open spec fn outcome_state(outcome: RendezvousOutcome) -> u32 {
    match outcome {
        RendezvousOutcome::Delivered => DELIVERED,
        RendezvousOutcome::PeerGone => PEER_GONE,
        RendezvousOutcome::TransferFailed => TRANSFER_FAILED,
    }
}

impl OutcomeSlot {
    pub closed spec fn view(self) -> u32 {
        self.state
    }

    /// A pending slot.
    pub fn new() -> (r: Self)
        ensures
            r@ == PENDING,
    {
        OutcomeSlot { state: PENDING }
    }

    /// Publishes a terminal outcome.
    pub fn set(&mut self, outcome: RendezvousOutcome)
        ensures
            final(self)@ == outcome_state(outcome),
    {
        self.state = match outcome {
            RendezvousOutcome::Delivered => DELIVERED,
            RendezvousOutcome::PeerGone => PEER_GONE,
            RendezvousOutcome::TransferFailed => TRANSFER_FAILED,
        };
    }

    /// The terminal outcome; `None` in the other states.
    pub fn get(&self) -> (r: Option<RendezvousOutcome>)
        ensures
            self@ == DELIVERED ==> r == Some(RendezvousOutcome::Delivered),
            self@ == PEER_GONE ==> r == Some(RendezvousOutcome::PeerGone),
            self@ == TRANSFER_FAILED ==> r == Some(RendezvousOutcome::TransferFailed),
            self@ != DELIVERED && self@ != PEER_GONE && self@ != TRANSFER_FAILED ==> r is None,
            r == read_outcome(self@),
    {
        if self.state == DELIVERED {
            Some(RendezvousOutcome::Delivered)
        } else if self.state == PEER_GONE {
            Some(RendezvousOutcome::PeerGone)
        } else if self.state == TRANSFER_FAILED {
            Some(RendezvousOutcome::TransferFailed)
        } else {
            None
        }
    }

    /// The raw state.
    pub fn raw(&self) -> (r: u32)
        ensures
            r == self@,
    {
        self.state
    }

    /// `call`: the request was delivered; the caller now waits for a reply.
    pub fn set_awaiting_reply(&mut self)
        ensures
            final(self)@ == AWAITING_REPLY,
    {
        self.state = AWAITING_REPLY;
    }

    /// The server commits its reply: `AWAITING_REPLY -> DELIVERING`. `true`
    /// when it wins against the caller's timeout.
    pub fn try_begin_reply(&mut self) -> (r: bool)
        ensures
            r == reply_wins(old(self)@),
            final(self)@ == after_reply(old(self)@),
    {
        if self.state == AWAITING_REPLY {
            self.state = DELIVERING;
            true
        } else {
            false
        }
    }

    /// The caller gives up waiting for the reply: `AWAITING_REPLY ->
    /// TIMEDOUT`. `true` when it wins against the reply.
    pub fn try_timeout(&mut self) -> (r: bool)
        ensures
            r == timeout_wins(old(self)@),
            final(self)@ == after_timeout(old(self)@),
    {
        if self.state == AWAITING_REPLY {
            self.state = TIMEDOUT;
            true
        } else {
            false
        }
    }
}

/// Whether a reply committed in state `s` wins.
pub open spec fn reply_wins(s: u32) -> bool {
    s == AWAITING_REPLY
}

/// State after a reply tried to commit in state `s`.
pub open spec fn after_reply(s: u32) -> u32 {
    if reply_wins(s) {
        DELIVERING
    } else {
        s
    }
}

/// Whether a caller giving up in state `s` wins.
pub open spec fn timeout_wins(s: u32) -> bool {
    s == AWAITING_REPLY
}

/// State after the caller tried to give up in state `s`.
pub open spec fn after_timeout(s: u32) -> u32 {
    if timeout_wins(s) {
        TIMEDOUT
    } else {
        s
    }
}

/// Whether `s` is a final state of a slot: a published outcome, or a caller
/// that gave up.
pub open spec fn is_final(s: u32) -> bool {
    s == DELIVERED || s == PEER_GONE || s == TRANSFER_FAILED || s == TIMEDOUT
}

/// A final state stays: neither a reply nor a timeout changes it, and a
/// published outcome reads back as itself.
pub proof fn lemma_final_state_stays(s: u32)
    requires
        is_final(s),
    ensures
        !reply_wins(s) && after_reply(s) == s,
        !timeout_wins(s) && after_timeout(s) == s,
{
}

/// A published outcome is a final state: once set, no reply or timeout
/// moves the slot again.
pub proof fn lemma_published_outcome_is_final(outcome: RendezvousOutcome)
    ensures
        is_final(outcome_state(outcome)),
        outcome_state(outcome) != AWAITING_REPLY,
{
}

/// An operation on an outcome slot.
pub enum SlotOp {
    /// [`OutcomeSlot::set`].
    Publish(RendezvousOutcome),
    /// [`OutcomeSlot::set_awaiting_reply`].
    AwaitReply,
    /// [`OutcomeSlot::try_begin_reply`].
    BeginReply,
    /// [`OutcomeSlot::try_timeout`].
    Timeout,
}

/// State after `op` in state `s`, as each operation's contract states it.
pub open spec fn slot_step(s: u32, op: SlotOp) -> u32 {
    match op {
        SlotOp::Publish(o) => outcome_state(o),
        SlotOp::AwaitReply => AWAITING_REPLY,
        SlotOp::BeginReply => after_reply(s),
        SlotOp::Timeout => after_timeout(s),
    }
}

/// State of a new slot after the operations `ops`, in order.
pub open spec fn slot_after(ops: Seq<SlotOp>) -> u32
    decreases ops.len(),
{
    if ops.len() == 0 {
        PENDING
    } else {
        slot_step(slot_after(ops.drop_last()), ops.last())
    }
}

/// What `get` reads in state `s`, as its contract states it.
pub open spec fn read_outcome(s: u32) -> Option<RendezvousOutcome> {
    if s == DELIVERED {
        Some(RendezvousOutcome::Delivered)
    } else if s == PEER_GONE {
        Some(RendezvousOutcome::PeerGone)
    } else if s == TRANSFER_FAILED {
        Some(RendezvousOutcome::TransferFailed)
    } else {
        None
    }
}

/// The outcome published by the last operation of `ops` that changed the
/// state: `set(o)` (`Publish(o)`) publishes `o`; waiting for a reply, a won reply and a
/// won timeout publish nothing; a lost reply or timeout changes nothing.
pub open spec fn last_published(ops: Seq<SlotOp>) -> Option<RendezvousOutcome>
    decreases ops.len(),
{
    if ops.len() == 0 {
        None
    } else {
        let prev = slot_after(ops.drop_last());
        match ops.last() {
            SlotOp::Publish(o) => Some(o),
            SlotOp::AwaitReply => None,
            SlotOp::BeginReply => if reply_wins(prev) {
                None
            } else {
                last_published(ops.drop_last())
            },
            SlotOp::Timeout => if timeout_wins(prev) {
                None
            } else {
                last_published(ops.drop_last())
            },
        }
    }
}

/// Over any sequence of operations on a new slot, `get` reads the outcome
/// of the last `set` that changed the state, and nothing while the slot is
/// pending, awaiting a reply, delivering one or timed out.
pub proof fn lemma_slot_history(ops: Seq<SlotOp>)
    ensures
        read_outcome(slot_after(ops)) == last_published(ops),
    decreases ops.len(),
{
    if ops.len() > 0 {
        lemma_slot_history(ops.drop_last());
    }
}

/// Reply and timeout exclude each other: from any state, once one of them
/// has won, the other fails and leaves the state as it is.
pub proof fn lemma_reply_timeout_exclusive(s: u32)
    ensures
        timeout_wins(s) ==> !reply_wins(after_timeout(s)) && after_reply(after_timeout(s))
            == after_timeout(s),
        reply_wins(s) ==> !timeout_wins(after_reply(s)) && after_timeout(after_reply(s))
            == after_reply(s),
{
}

} // verus!
