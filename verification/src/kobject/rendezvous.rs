//! A port operation carried through: the queue decision of [`Port`], the
//! transfer of the message between the two parties, the outcome published
//! to the parked party, the thread to wake and, for a `call`, the reply.

use vstd::prelude::*;
use super::errors::IpcError;
use super::handle_table::HandleTable;
use super::ipc_buffer::{IpcBuffer, IPC_BUFFER_DATA_MAX, IPC_BUFFER_MAX_CAPS};
use super::ipc_buffer_xfer::{capped, message_moved, transfer_rendezvous};
use super::outcome::{
    AWAITING_REPLY, DELIVERED, OutcomeSlot, RendezvousOutcome, TRANSFER_FAILED, WaiterKind,
};
use super::port::{Port, Reply, Waiter, WaiterToken};
use super::rev_node::RevTree;

verus! {

/// A parked thread as a port operation sees it: its token, its IPC buffer,
/// the badge of the port handle it used (when it sends), its outcome slot
/// and the slot where a reply to a received call lands.
pub struct Party {
    pub token: WaiterToken,
    pub buffer: IpcBuffer,
    pub badge: u64,
    pub outcome: OutcomeSlot,
    pub reply: Option<Reply>,
}

/// What the current thread does after a port operation.
pub enum PortAction {
    /// It parks until its partner resolves it.
    Park,
    /// It is done at once; `reply` is the reply object of a received call.
    Done { reply: Option<Reply> },
    /// The transfer failed.
    Failed(IpcError),
}

/// Result of the transfer that an action reports: `Failed` carries its
/// error; otherwise the capped body length and cap count.
pub open spec fn transfer_result(action: PortAction, len: usize, ncaps: usize) -> Result<
    (usize, usize),
    IpcError,
> {
    match action {
        PortAction::Failed(e) => Err(e),
        _ => Ok(
            (
                capped(len as int, IPC_BUFFER_DATA_MAX as int) as usize,
                capped(ncaps as int, IPC_BUFFER_MAX_CAPS as int) as usize,
            ),
        ),
    }
}

/// `send` or `call` by the current thread `me` on `port`. With no
/// receiver waiting, the thread is queued and parks. Otherwise the first
/// receiver, `head`, is taken: the message moves from `sender` to its
/// buffer as [`transfer_rendezvous`] does; a failed transfer publishes
/// `TransferFailed` to it and fails the operation; a delivered `send` is
/// done; a delivered `call` hands `head` a reply to `me` and parks the
/// caller awaiting it. The receiver is woken in each of these cases.
pub fn rendezvous_send_or_call<F: Fn(usize, usize) -> u64>(
    port: &mut Port,
    kind: WaiterKind,
    me: WaiterToken,
    caller_outcome: &mut OutcomeSlot,
    sender: &IpcBuffer,
    sender_badge: u64,
    sender_table: &mut HandleTable,
    head: &mut Party,
    head_table: &mut HandleTable,
    tree: &RevTree,
    len: usize,
    ncaps: usize,
    encode: F,
) -> (r: (PortAction, Option<WaiterToken>))
    requires
        kind != WaiterKind::Recv,
        old(port)@.receivers.len() > 0 ==> old(head).token == old(port)@.receivers[0].token,
        forall|l: usize, n: usize| call_requires(encode, (l, n)),
        old(sender_table).wf(),
        old(head_table).wf(),
        tree.well_formed(),
    ensures
        old(port)@.receivers.len() == 0 ==> {
            &&& final(port)@.senders == old(port)@.senders.push(Waiter { kind, token: me })
            &&& final(port)@.receivers.len() == 0
            &&& r.0 is Park
            &&& r.1 is None
            &&& *final(head) == *old(head)
            &&& *final(caller_outcome) == *old(caller_outcome)
            &&& *final(sender_table) == *old(sender_table)
            &&& *final(head_table) == *old(head_table)
        },
        old(port)@.receivers.len() > 0 ==> {
            &&& final(port)@.receivers == old(port)@.receivers.drop_first()
            &&& final(port)@.senders.len() == 0
            &&& r.1 == Some(old(head).token)
            &&& final(head).token == old(head).token
            &&& message_moved(
                sender@,
                sender_badge,
                *old(sender_table),
                *final(sender_table),
                old(head).buffer@,
                final(head).buffer@,
                *old(head_table),
                *final(head_table),
                tree@,
                len,
                ncaps,
                encode,
                transfer_result(r.0, len, ncaps),
            )
            &&& r.0 is Failed ==> final(head).outcome@ == TRANSFER_FAILED && final(head).reply
                == old(head).reply && *final(caller_outcome) == *old(caller_outcome)
            &&& !(r.0 is Failed) && kind == WaiterKind::Send ==> {
                &&& r.0 == PortAction::Done { reply: None }
                &&& final(head).outcome@ == DELIVERED
                &&& final(head).reply == old(head).reply
                &&& *final(caller_outcome) == *old(caller_outcome)
            }
            &&& !(r.0 is Failed) && kind == WaiterKind::Call ==> {
                &&& r.0 is Park
                &&& final(head).outcome@ == DELIVERED
                &&& final(head).reply matches Some(rp) && rp.spec_caller() == me && !rp.spec_used()
                &&& final(caller_outcome)@ == AWAITING_REPLY
            }
        },
{
    match port.send_or_call(kind, me) {
        None => (PortAction::Park, None),
        Some(_w) => {
            let t = transfer_rendezvous(
                sender,
                sender_badge,
                sender_table,
                &mut head.buffer,
                head_table,
                tree,
                len,
                ncaps,
                encode,
            );
            match t {
                Err(e) => {
                    head.outcome.set(RendezvousOutcome::TransferFailed);
                    (PortAction::Failed(e), Some(head.token))
                },
                Ok(_) => {
                    head.outcome.set(RendezvousOutcome::Delivered);
                    if kind == WaiterKind::Call {
                        caller_outcome.set_awaiting_reply();
                        head.reply = Some(Reply::new(me));
                        (PortAction::Park, Some(head.token))
                    } else {
                        (PortAction::Done { reply: None }, Some(head.token))
                    }
                },
            }
        },
    }
}

/// `recv` by the current thread `me` on `port`. With no sender waiting,
/// the thread is queued and parks. Otherwise the first sender or caller,
/// `head`, is taken: the message moves from its buffer to `receiver` as
/// [`transfer_rendezvous`] does, with `len` and `ncaps` read from its tag;
/// a failed transfer publishes `TransferFailed` to it, wakes it and fails
/// the operation; a delivered `send` wakes it as delivered and is done; a
/// delivered `call` leaves the caller parked awaiting the reply, which the
/// operation returns.
pub fn rendezvous_recv<F: Fn(usize, usize) -> u64>(
    port: &mut Port,
    me: WaiterToken,
    receiver: &mut IpcBuffer,
    receiver_table: &mut HandleTable,
    head: &mut Party,
    head_table: &mut HandleTable,
    tree: &RevTree,
    len: usize,
    ncaps: usize,
    encode: F,
) -> (r: (PortAction, Option<WaiterToken>))
    requires
        old(port)@.senders.len() > 0 ==> old(head).token == old(port)@.senders[0].token,
        forall|l: usize, n: usize| call_requires(encode, (l, n)),
        old(receiver_table).wf(),
        old(head_table).wf(),
        tree.well_formed(),
    ensures
        old(port)@.senders.len() == 0 ==> {
            &&& final(port)@.receivers == old(port)@.receivers.push(
                Waiter { kind: WaiterKind::Recv, token: me },
            )
            &&& final(port)@.senders.len() == 0
            &&& r.0 is Park
            &&& r.1 is None
            &&& *final(head) == *old(head)
            &&& *final(receiver) == *old(receiver)
            &&& *final(receiver_table) == *old(receiver_table)
            &&& *final(head_table) == *old(head_table)
        },
        old(port)@.senders.len() > 0 ==> {
            let parked = old(port)@.senders[0];
            &&& final(port)@.senders == old(port)@.senders.drop_first()
            &&& final(port)@.receivers.len() == 0
            &&& final(head).token == old(head).token
            &&& final(head).buffer == old(head).buffer
            &&& final(head).reply == old(head).reply
            &&& message_moved(
                old(head).buffer@,
                old(head).badge,
                *old(head_table),
                *final(head_table),
                old(receiver)@,
                final(receiver)@,
                *old(receiver_table),
                *final(receiver_table),
                tree@,
                len,
                ncaps,
                encode,
                transfer_result(r.0, len, ncaps),
            )
            &&& r.0 is Failed ==> final(head).outcome@ == TRANSFER_FAILED && r.1 == Some(
                old(head).token,
            )
            &&& !(r.0 is Failed) && parked.kind == WaiterKind::Send ==> {
                &&& r.0 == PortAction::Done { reply: None }
                &&& final(head).outcome@ == DELIVERED
                &&& r.1 == Some(old(head).token)
            }
            &&& !(r.0 is Failed) && parked.kind == WaiterKind::Call ==> {
                &&& r.0 matches PortAction::Done { reply: Some(rp) } && rp.spec_caller()
                    == old(head).token && !rp.spec_used()
                &&& final(head).outcome@ == AWAITING_REPLY
                &&& r.1 is None
            }
        },
{
    port.lemma_one_side();
    match port.recv(me) {
        None => (PortAction::Park, None),
        Some(w) => {
            let t = transfer_rendezvous(
                &head.buffer,
                head.badge,
                head_table,
                receiver,
                receiver_table,
                tree,
                len,
                ncaps,
                encode,
            );
            match t {
                Err(e) => {
                    head.outcome.set(RendezvousOutcome::TransferFailed);
                    (PortAction::Failed(e), Some(head.token))
                },
                Ok(_) => {
                    if w.kind == WaiterKind::Call {
                        head.outcome.set_awaiting_reply();
                        (PortAction::Done { reply: Some(Reply::new(head.token)) }, None)
                    } else {
                        head.outcome.set(RendezvousOutcome::Delivered);
                        (PortAction::Done { reply: None }, Some(head.token))
                    }
                },
            }
        },
    }
}

} // verus!
