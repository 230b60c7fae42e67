//! `Port`: synchronous message passing without a message queue in the
//! kernel. A port holds a queue of blocked threads: senders (and callers) or
//! receivers, never both.
//!
//! Blocked threads are named by tokens; the runtime resolves a token to the
//! thread's transport, waker and outcome slot, performs the transfer that a
//! match calls for and wakes the parties.

use vstd::prelude::*;
use super::errors::IpcError;
use super::outcome::{
    AWAITING_REPLY, DELIVERED, OutcomeSlot, PEER_GONE, RendezvousOutcome, TRANSFER_FAILED,
    WaiterKind, outcome_state,
};

verus! {

/// Token naming a blocked thread.
pub type WaiterToken = u64;

/// A blocked thread: its role and its token.
#[derive(Debug, Clone, Copy, PartialEq, Eq, Structural)]
pub struct Waiter {
    pub kind: WaiterKind,
    pub token: WaiterToken,
}

/// Waiting queue: either senders and callers, or receivers.
enum Queue {
    Empty,
    Senders(Vec<Waiter>),
    Receivers(Vec<Waiter>),
}

/// Spec view of a port: the queued senders and the queued receivers.
pub struct PortView {
    pub senders: Seq<Waiter>,
    pub receivers: Seq<Waiter>,
}

/// A port.
pub struct Port {
    queue: Queue,
}

impl Port {
    #[verifier::type_invariant]
    spec fn port_inv(self) -> bool {
        match self.queue {
            Queue::Empty => true,
            Queue::Senders(s) => s@.len() > 0 && forall|i: int|
                0 <= i < s@.len() ==> (#[trigger] s@[i]).kind != WaiterKind::Recv,
            Queue::Receivers(r) => r@.len() > 0 && forall|i: int|
                0 <= i < r@.len() ==> (#[trigger] r@[i]).kind == WaiterKind::Recv,
        }
    }

    pub closed spec fn view(self) -> PortView {
        match self.queue {
            Queue::Empty => PortView { senders: seq![], receivers: seq![] },
            Queue::Senders(s) => PortView { senders: s@, receivers: seq![] },
            Queue::Receivers(r) => PortView { senders: seq![], receivers: r@ },
        }
    }

    /// A port with nobody waiting.
    pub fn new() -> (r: Self)
        ensures
            r@.senders.len() == 0,
            r@.receivers.len() == 0,
    {
        Port { queue: Queue::Empty }
    }

    /// Senders and receivers never wait together.
    pub fn lemma_one_side(&self)
        ensures
            self@.senders.len() == 0 || self@.receivers.len() == 0,
            forall|i: int|
                0 <= i < self@.receivers.len() ==> (#[trigger] self@.receivers[i]).kind
                    == WaiterKind::Recv,
            forall|i: int|
                0 <= i < self@.senders.len() ==> (#[trigger] self@.senders[i]).kind
                    != WaiterKind::Recv,
    {
        proof {
            use_type_invariant(self);
        }
    }

    /// `send`/`call` by the thread `token`: takes the first waiting receiver
    /// if there is one (the caller then transfers the message to it);
    /// otherwise queues the thread as a sender and returns `None`.
    pub fn send_or_call(&mut self, kind: WaiterKind, token: WaiterToken) -> (r: Option<Waiter>)
        requires
            kind != WaiterKind::Recv,
        ensures
            old(self)@.receivers.len() > 0 ==> {
                &&& r == Some(old(self)@.receivers[0])
                &&& final(self)@.receivers == old(self)@.receivers.drop_first()
                &&& final(self)@.senders.len() == 0
            },
            old(self)@.receivers.len() == 0 ==> {
                &&& r is None
                &&& final(self)@.senders == old(self)@.senders.push(Waiter { kind, token })
                &&& final(self)@.receivers.len() == 0
            },
    {
        proof {
            use_type_invariant(&*self);
        }
        let mut q = Queue::Empty;
        core::mem::swap(&mut q, &mut self.queue);
        match q {
            Queue::Receivers(mut rs) => {
                let w = rs.remove(0);
                if rs.len() > 0 {
                    self.queue = Queue::Receivers(rs);
                }
                Some(w)
            },
            Queue::Senders(mut ss) => {
                ss.push(Waiter { kind, token });
                self.queue = Queue::Senders(ss);
                None
            },
            Queue::Empty => {
                let mut ss = Vec::new();
                ss.push(Waiter { kind, token });
                self.queue = Queue::Senders(ss);
                proof {
                    assert(self@.senders =~= old(self)@.senders.push(Waiter { kind, token }));
                }
                None
            },
        }
    }

    /// `recv` by the thread `token`: takes the first waiting sender or
    /// caller if there is one; otherwise queues the thread as a receiver and
    /// returns `None`.
    pub fn recv(&mut self, token: WaiterToken) -> (r: Option<Waiter>)
        ensures
            old(self)@.senders.len() > 0 ==> {
                &&& r == Some(old(self)@.senders[0])
                &&& final(self)@.senders == old(self)@.senders.drop_first()
                &&& final(self)@.receivers.len() == 0
            },
            old(self)@.senders.len() == 0 ==> {
                &&& r is None
                &&& final(self)@.receivers == old(self)@.receivers.push(
                    Waiter { kind: WaiterKind::Recv, token },
                )
                &&& final(self)@.senders.len() == 0
            },
    {
        proof {
            use_type_invariant(&*self);
        }
        let mut q = Queue::Empty;
        core::mem::swap(&mut q, &mut self.queue);
        match q {
            Queue::Senders(mut ss) => {
                let w = ss.remove(0);
                if ss.len() > 0 {
                    self.queue = Queue::Senders(ss);
                }
                Some(w)
            },
            Queue::Receivers(mut rs) => {
                rs.push(Waiter { kind: WaiterKind::Recv, token });
                self.queue = Queue::Receivers(rs);
                None
            },
            Queue::Empty => {
                let mut rs = Vec::new();
                rs.push(Waiter { kind: WaiterKind::Recv, token });
                self.queue = Queue::Receivers(rs);
                proof {
                    assert(self@.receivers =~= old(self)@.receivers.push(
                        Waiter { kind: WaiterKind::Recv, token },
                    ));
                }
                None
            },
        }
    }

    /// Empties the queue; every returned waiter is to be woken with
    /// `PeerGone` (the port is closing).
    pub fn cancel_all(&mut self) -> (r: Vec<Waiter>)
        ensures
            r@ == old(self)@.senders + old(self)@.receivers,
            final(self)@.senders.len() == 0,
            final(self)@.receivers.len() == 0,
    {
        proof {
            use_type_invariant(&*self);
        }
        let mut q = Queue::Empty;
        core::mem::swap(&mut q, &mut self.queue);
        match q {
            Queue::Empty => {
                proof {
                    assert(old(self)@.senders + old(self)@.receivers =~= Seq::<Waiter>::empty());
                }
                Vec::new()
            },
            Queue::Senders(ss) => {
                proof {
                    assert(old(self)@.senders + old(self)@.receivers =~= ss@);
                }
                ss
            },
            Queue::Receivers(rs) => {
                proof {
                    assert(old(self)@.senders + old(self)@.receivers =~= rs@);
                }
                rs
            },
        }
    }

    /// Takes the first queued entry of `token` out of the queue. `true` when
    /// it was still queued: the caller then won against a match and leaves
    /// with a timeout.
    pub fn remove_waiter(&mut self, token: WaiterToken) -> (r: bool)
        ensures
            r == (old(self)@.senders + old(self)@.receivers).map_values(|w: Waiter| w.token).contains(token),
            final(self)@.senders.len() <= old(self)@.senders.len(),
            final(self)@.receivers.len() <= old(self)@.receivers.len(),
            !r ==> final(self)@ == old(self)@,
            r && old(self)@.receivers.len() == 0 ==> first_of_token_removed(old(self)@.senders, final(self)@.senders, token)
                && final(self)@.receivers == old(self)@.receivers,
            r && old(self)@.senders.len() == 0 ==> first_of_token_removed(old(self)@.receivers, final(self)@.receivers, token)
                && final(self)@.senders == old(self)@.senders,
    {
        proof {
            use_type_invariant(&*self);
        }
        let mut q = Queue::Empty;
        core::mem::swap(&mut q, &mut self.queue);
        match q {
            Queue::Empty => {
                proof {
                    assert((old(self)@.senders + old(self)@.receivers).map_values(|w: Waiter| w.token) =~= Seq::<u64>::empty());
                }
                false
            },
            Queue::Senders(mut ss) => {
                proof {
                    assert(old(self)@.senders + old(self)@.receivers =~= ss@);
                }
                let found = remove_token(&mut ss, token);
                if ss.len() > 0 {
                    self.queue = Queue::Senders(ss);
                }
                proof {
                    assert(self@.senders =~= ss@);
                    if !found {
                        assert(self@.senders =~= old(self)@.senders);
                    }
                }
                found
            },
            Queue::Receivers(mut rs) => {
                proof {
                    assert(old(self)@.senders + old(self)@.receivers =~= rs@);
                }
                let found = remove_token(&mut rs, token);
                if rs.len() > 0 {
                    self.queue = Queue::Receivers(rs);
                }
                proof {
                    assert(self@.receivers =~= rs@);
                    if !found {
                        assert(self@.receivers =~= old(self)@.receivers);
                    }
                }
                found
            },
        }
    }

    /// Whether nobody waits on the port.
    pub fn queue_is_empty(&self) -> (r: bool)
        ensures
            r == (self@.senders.len() == 0 && self@.receivers.len() == 0),
    {
        proof {
            use_type_invariant(self);
        }
        match self.queue {
            Queue::Empty => true,
            _ => false,
        }
    }
}

/// `after` is `before` without its first entry of `token`, the others kept
/// in their order.
pub open spec fn first_of_token_removed(before: Seq<Waiter>, after: Seq<Waiter>, token: WaiterToken) -> bool {
    exists|k: int|
        0 <= k < before.len() && (#[trigger] before[k]).token == token && (forall|j: int|
            0 <= j < k ==> (#[trigger] before[j]).token != token) && after == before.remove(k)
}

/// Taking a waiter's entry out of a queue drops that one entry only: the
/// head of the queue stays the head unless it is that entry, and every
/// waiter of another token is still queued.
pub proof fn lemma_removal_keeps_others(before: Seq<Waiter>, after: Seq<Waiter>, token: WaiterToken)
    requires
        first_of_token_removed(before, after, token),
    ensures
        after.len() == before.len() - 1,
        before[0].token != token ==> after[0] == before[0],
        forall|w: Waiter| #[trigger] before.contains(w) && w.token != token ==> after.contains(w),
{
    let k = choose|k: int|
        0 <= k < before.len() && (#[trigger] before[k]).token == token && (forall|j: int|
            0 <= j < k ==> (#[trigger] before[j]).token != token) && after == before.remove(k);
    if before[0].token != token {
        assert(k > 0);
        assert(after[0] == before[0]);
    }
    assert forall|w: Waiter| #[trigger] before.contains(w) && w.token != token implies after.contains(w) by {
        let m = choose|m: int| 0 <= m < before.len() && before[m] == w;
        if m < k {
            assert(after[m] == w);
        } else {
            assert(m != k);
            assert(after[m - 1] == w);
        }
    }
}

/// Removes the first entry with `token`; `true` when one was found.
fn remove_token(v: &mut Vec<Waiter>, token: WaiterToken) -> (r: bool)
    ensures
        r == old(v)@.map_values(|w: Waiter| w.token).contains(token),
        r ==> final(v)@.len() == old(v)@.len() - 1,
        r ==> forall|i: int| 0 <= i < final(v)@.len() ==> old(v)@.contains(#[trigger] final(v)@[i]),
        !r ==> final(v)@ == old(v)@,
        r ==> first_of_token_removed(old(v)@, final(v)@, token),
{
    let mut i: usize = 0;
    while i < v.len()
        invariant
            i <= v@.len(),
            v@ == old(v)@,
            !v@.subrange(0, i as int).map_values(|w: Waiter| w.token).contains(token),
            forall|j: int| 0 <= j < i ==> (#[trigger] v@[j]).token != token,
        decreases v.len() - i,
    {
        if v[i].token == token {
            let ghost before = v@;
            v.remove(i);
            proof {
                assert(before[i as int].token == token);
                assert(v@ == before.remove(i as int));
                assert(before.map_values(|w: Waiter| w.token)[i as int] == token);
                assert forall|k: int| 0 <= k < v@.len() implies before.contains(#[trigger] v@[k]) by {
                    if k < i {
                        assert(v@[k] == before[k]);
                    } else {
                        assert(v@[k] == before[k + 1]);
                    }
                }
            }
            return true;
        }
        proof {
            assert(v@.subrange(0, i + 1).map_values(|w: Waiter| w.token) =~= v@.subrange(0, i as int).map_values(|w: Waiter| w.token).push(v@[i as int].token));
            super::signal::lemma_push_contains(v@.subrange(0, i as int).map_values(|w: Waiter| w.token), v@[i as int].token, token);
        }
        i += 1;
    }
    proof {
        assert(v@.subrange(0, v@.len() as int) =~= v@);
    }
    false
}

/// What the matching party does after a transfer towards or from a parked
/// thread of kind `parked_kind`.
#[derive(Debug, Clone, Copy, PartialEq, Eq, Structural)]
pub enum MatchOutcome {
    /// The parked thread resumes: its outcome is final.
    Resumed,
    /// A call was delivered: the caller now waits for the reply, and a
    /// reply object must be handed to the receiving side.
    ReplyPending,
    /// The transfer failed; the error goes to the matching party.
    Failed(IpcError),
}

/// Settles the outcome of the parked party after the transfer of a match:
/// a failed transfer fails both sides; a delivered `call` waits for its
/// reply; anything else is delivered.
pub fn settle_match(parked_kind: WaiterKind, matcher_kind: WaiterKind, transfer: Result<(), IpcError>, parked_outcome: &mut OutcomeSlot) -> (r: MatchOutcome)
    ensures
        transfer matches Err(e) ==> r == MatchOutcome::Failed(e) && final(parked_outcome)@
            == TRANSFER_FAILED,
        transfer is Ok && (parked_kind == WaiterKind::Call || matcher_kind == WaiterKind::Call)
            ==> r == MatchOutcome::ReplyPending,
        transfer is Ok && parked_kind == WaiterKind::Call ==> final(parked_outcome)@ == AWAITING_REPLY,
        transfer is Ok && parked_kind != WaiterKind::Call ==> final(parked_outcome)@ == DELIVERED,
        transfer is Ok && parked_kind != WaiterKind::Call && matcher_kind != WaiterKind::Call
            ==> r == MatchOutcome::Resumed,
{
    match transfer {
        Err(e) => {
            parked_outcome.set(RendezvousOutcome::TransferFailed);
            MatchOutcome::Failed(e)
        },
        Ok(()) => {
            if parked_kind == WaiterKind::Call {
                parked_outcome.set_awaiting_reply();
                MatchOutcome::ReplyPending
            } else {
                parked_outcome.set(RendezvousOutcome::Delivered);
                if matcher_kind == WaiterKind::Call {
                    MatchOutcome::ReplyPending
                } else {
                    MatchOutcome::Resumed
                }
            }
        },
    }
}

/// The result of a wait from its final outcome: delivered is success, a
/// vanished peer is `PeerClosed`, a failed transfer is `BufferTooSmall`, no
/// outcome at all is `Canceled`.
pub fn outcome_to_result(outcome: &OutcomeSlot) -> (r: Result<(), IpcError>)
    ensures
        outcome@ == DELIVERED ==> r is Ok,
        outcome@ == PEER_GONE ==> r == Err::<(), IpcError>(IpcError::PeerClosed),
        outcome@ == TRANSFER_FAILED ==> r == Err::<(), IpcError>(IpcError::BufferTooSmall),
        outcome@ != DELIVERED && outcome@ != PEER_GONE && outcome@ != TRANSFER_FAILED ==> r
            == Err::<(), IpcError>(IpcError::Canceled),
{
    match outcome.get() {
        Some(RendezvousOutcome::Delivered) => Ok(()),
        Some(RendezvousOutcome::PeerGone) => Err(IpcError::PeerClosed),
        Some(RendezvousOutcome::TransferFailed) => Err(IpcError::BufferTooSmall),
        None => Err(IpcError::Canceled),
    }
}

/// What a caller does next while resolving its `call` after a wake-up.
#[derive(Debug, Clone, Copy, PartialEq, Eq, Structural)]
pub enum CallStep {
    /// The request or the reply is still being transferred: park again.
    Park,
    /// The call is over: the reply was delivered.
    Replied,
    /// The call is over with this error.
    Failed(IpcError),
}

/// Resolves a `send` or a `recv` after its park returned: a thread still
/// queued takes itself out and leaves with `Timeout`; otherwise `None`, and
/// the thread waits for the outcome its partner publishes.
pub fn resolve_send_recv(port: &mut Port, token: WaiterToken) -> (r: Option<Result<(), IpcError>>)
    ensures
        (old(port)@.senders + old(port)@.receivers).map_values(|w: Waiter| w.token).contains(token)
            ==> r == Some(Err::<(), IpcError>(IpcError::Timeout)),
        !(old(port)@.senders + old(port)@.receivers).map_values(|w: Waiter| w.token).contains(
            token,
        ) ==> r is None && final(port)@ == old(port)@,
        r is Some && old(port)@.receivers.len() == 0 ==> first_of_token_removed(old(port)@.senders, final(port)@.senders, token)
            && final(port)@.receivers == old(port)@.receivers,
        r is Some && old(port)@.senders.len() == 0 ==> first_of_token_removed(old(port)@.receivers, final(port)@.receivers, token)
            && final(port)@.senders == old(port)@.senders,
{
    if port.remove_waiter(token) {
        Some(Err(IpcError::Timeout))
    } else {
        None
    }
}

/// One step of resolving a `call` that is no longer queued, from the state
/// of its outcome slot: while the request or the reply is in transfer the
/// caller parks again; a caller still waiting for its reply gives up with
/// `Timeout` (winning against the reply); a caller that already gave up
/// stays timed out; a terminal outcome ends the call with its result.
pub fn resolve_call_step(outcome: &mut OutcomeSlot) -> (r: CallStep)
    ensures
        old(outcome)@ == super::outcome::PENDING || old(outcome)@ == super::outcome::DELIVERING
            ==> r == CallStep::Park && final(outcome)@ == old(outcome)@,
        old(outcome)@ == AWAITING_REPLY ==> r == CallStep::Failed(IpcError::Timeout) && final(outcome)@ == super::outcome::TIMEDOUT,
        old(outcome)@ == super::outcome::TIMEDOUT ==> r == CallStep::Failed(IpcError::Timeout) && final(outcome)@ == old(outcome)@,
        old(outcome)@ == DELIVERED ==> r == CallStep::Replied && final(outcome)@
            == old(outcome)@,
        old(outcome)@ == PEER_GONE ==> r == CallStep::Failed(IpcError::PeerClosed) && final(outcome)@ == old(outcome)@,
        old(outcome)@ == TRANSFER_FAILED ==> r == CallStep::Failed(IpcError::BufferTooSmall) && final(outcome)@ == old(outcome)@,
        old(outcome)@ > super::outcome::TIMEDOUT ==> r == CallStep::Failed(IpcError::Canceled) && final(outcome)@ == old(outcome)@,
{
    let raw = outcome.raw();
    if raw == super::outcome::PENDING || raw == super::outcome::DELIVERING {
        CallStep::Park
    } else if raw == AWAITING_REPLY {
        let won = outcome.try_timeout();
        proof {
            assert(won);
        }
        CallStep::Failed(IpcError::Timeout)
    } else if raw == super::outcome::TIMEDOUT {
        CallStep::Failed(IpcError::Timeout)
    } else {
        match outcome_to_result(outcome) {
            Ok(()) => CallStep::Replied,
            Err(e) => CallStep::Failed(e),
        }
    }
}

/// The server's answer to a `call`, usable once.
pub struct Reply {
    caller: WaiterToken,
    used: bool,
}

impl Reply {
    pub closed spec fn spec_caller(self) -> WaiterToken {
        self.caller
    }

    pub closed spec fn spec_used(self) -> bool {
        self.used
    }

    /// A reply to the caller `caller`.
    pub fn new(caller: WaiterToken) -> (r: Self)
        ensures
            r.spec_caller() == caller,
            !r.spec_used(),
    {
        Reply { caller, used: false }
    }

    /// The caller this reply answers.
    pub fn caller(&self) -> (r: WaiterToken)
        ensures
            r == self.spec_caller(),
    {
        self.caller
    }

    /// Starts replying. A second use is `BadHandle`; a caller that already
    /// gave up is `PeerClosed`. `Ok` means the reply is committed: the server
    /// transfers it and finishes with [`finish_reply`](Self::finish_reply).
    pub fn reply(&mut self, caller_outcome: &mut OutcomeSlot) -> (r: Result<(), IpcError>)
        ensures
            final(self).spec_used(),
            final(self).spec_caller() == old(self).spec_caller(),
            old(self).spec_used() ==> r == Err::<(), IpcError>(IpcError::BadHandle)
                && final(caller_outcome)@ == old(caller_outcome)@,
            !old(self).spec_used() && old(caller_outcome)@ != AWAITING_REPLY ==> r == Err::<
                (),
                IpcError,
            >(IpcError::PeerClosed) && final(caller_outcome)@ == old(caller_outcome)@,
            !old(self).spec_used() && old(caller_outcome)@ == AWAITING_REPLY ==> r is Ok
                && final(caller_outcome)@ == super::outcome::DELIVERING,
    {
        if self.used {
            return Err(IpcError::BadHandle);
        }
        self.used = true;
        if !caller_outcome.try_begin_reply() {
            return Err(IpcError::PeerClosed);
        }
        Ok(())
    }

    /// Publishes the result of the reply transfer to the caller.
    pub fn finish_reply(caller_outcome: &mut OutcomeSlot, transfer: Result<(), IpcError>) -> (r:
        Result<(), IpcError>)
        ensures
            r == transfer,
            transfer is Ok ==> final(caller_outcome)@ == DELIVERED,
            transfer is Err ==> final(caller_outcome)@ == TRANSFER_FAILED,
    {
        if transfer.is_ok() {
            caller_outcome.set(RendezvousOutcome::Delivered);
        } else {
            caller_outcome.set(RendezvousOutcome::TransferFailed);
        }
        transfer
    }

    /// Abandons the reply (server closed it or dropped it unused). `true`
    /// when the caller is still waiting and must be woken with `PeerGone`,
    /// which this call publishes.
    pub fn cancel(&mut self, caller_outcome: &mut OutcomeSlot) -> (r: bool)
        ensures
            final(self).spec_used(),
            final(self).spec_caller() == old(self).spec_caller(),
            r == (!old(self).spec_used() && old(caller_outcome)@ == AWAITING_REPLY),
            r ==> final(caller_outcome)@ == outcome_state(RendezvousOutcome::PeerGone),
            !r ==> final(caller_outcome)@ == old(caller_outcome)@,
    {
        if self.used {
            return false;
        }
        self.used = true;
        if caller_outcome.try_begin_reply() {
            caller_outcome.set(RendezvousOutcome::PeerGone);
            true
        } else {
            false
        }
    }
}

} // verus!
