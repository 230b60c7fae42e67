use kernel::kobject::errors::IpcError;
use kernel::kobject::outcome::{OutcomeSlot, RendezvousOutcome, WaiterKind, AWAITING_REPLY, TIMEDOUT};
use kernel::kobject::outcome::{DELIVERING, PENDING};
use kernel::kobject::port::{
    outcome_to_result, resolve_call_step, resolve_send_recv, settle_match, CallStep, MatchOutcome, Port, Reply,
    Waiter,
};

use kernel::kobject::handle_table::HandleTable;
use kernel::kobject::ipc_buffer::{IpcBuffer, DATA_OFFSET};
use kernel::kobject::rendezvous::{rendezvous_recv, rendezvous_send_or_call, Party, PortAction};
use kernel::kobject::rev_node::RevTree;

const SENDER: u64 = 1;
const RECEIVER: u64 = 2;

fn encode_tag(len: usize, ncaps: usize) -> u64 {
    ((ncaps as u64) << 32) | len as u64
}

fn body_buffer(body: &[u8]) -> IpcBuffer {
    let mut b = IpcBuffer::new();
    b.kernel_write(DATA_OFFSET, body).unwrap();
    b
}

fn party(token: u64, body: &[u8]) -> Party {
    Party { token, buffer: body_buffer(body), badge: 0, outcome: OutcomeSlot::new(), reply: None }
}

/// Parks `RECEIVER` on `ep` through a `recv` that finds no sender.
fn park_receiver(ep: &mut Port, head: &mut Party, st: &mut HandleTable, rt: &mut HandleTable, tree: &RevTree) {
    let mut unused = party(0, b"");
    let (action, wake) = rendezvous_recv(ep, RECEIVER, &mut head.buffer, rt, &mut unused, st, tree, 0, 0, encode_tag);
    assert!(matches!(action, PortAction::Park));
    assert_eq!(wake, None);
}

/// Parks `SENDER` on `ep` as a sender of `kind` that finds no receiver.
fn park_sender(ep: &mut Port, kind: WaiterKind, caller: &mut OutcomeSlot, tree: &RevTree) {
    let (mut st, mut rt) = (HandleTable::new(), HandleTable::new());
    let mut unused = party(0, b"");
    let (action, wake) =
        rendezvous_send_or_call(ep, kind, SENDER, caller, &IpcBuffer::new(), 0, &mut st, &mut unused, &mut rt, tree, 0, 0, encode_tag);
    assert!(matches!(action, PortAction::Park));
    assert_eq!(wake, None);
}

#[test]
fn recv_with_no_sender_parks_as_receiver() {
    let mut ep = Port::new();
    assert_eq!(ep.recv(RECEIVER), None);
    assert!(!ep.queue_is_empty());
}

#[test]
fn send_matches_parked_receiver_and_delivers() {
    let tree = RevTree::new();
    let mut ep = Port::new();
    let (mut st, mut rt) = (HandleTable::new(), HandleTable::new());
    let mut head = party(RECEIVER, b"");
    park_receiver(&mut ep, &mut head, &mut st, &mut rt, &tree);
    assert!(head.outcome.get().is_none());
    let mut caller = OutcomeSlot::new();
    let (action, wake) = rendezvous_send_or_call(
        &mut ep, WaiterKind::Send, SENDER, &mut caller, &body_buffer(b"hello"), 0, &mut st, &mut head, &mut rt,
        &tree, 5, 0, encode_tag,
    );
    assert!(matches!(action, PortAction::Done { reply: None }));
    assert_eq!(wake, Some(RECEIVER));
    assert_eq!(head.outcome.get(), Some(RendezvousOutcome::Delivered));
    assert_eq!(head.buffer.kernel_read(DATA_OFFSET, 5).unwrap(), b"hello".to_vec());
    assert!(ep.queue_is_empty());
}


#[test]
fn send_with_no_receiver_parks_as_sender() {
    let mut ep = Port::new();
    assert_eq!(ep.send_or_call(WaiterKind::Send, SENDER), None);
    assert!(!ep.queue_is_empty());
}

#[test]
fn recv_matches_parked_sender() {
    let tree = RevTree::new();
    let mut ep = Port::new();
    let mut head = party(SENDER, b"hi");
    park_sender(&mut ep, WaiterKind::Send, &mut head.outcome, &tree);
    let (mut st, mut rt) = (HandleTable::new(), HandleTable::new());
    let mut receiver = IpcBuffer::new();
    let (action, wake) = rendezvous_recv(&mut ep, RECEIVER, &mut receiver, &mut rt, &mut head, &mut st, &tree, 2, 0, encode_tag);
    assert!(matches!(action, PortAction::Done { reply: None }));
    assert_eq!(wake, Some(SENDER));
    assert_eq!(head.outcome.get(), Some(RendezvousOutcome::Delivered));
    assert_eq!(receiver.kernel_read(DATA_OFFSET, 2).unwrap(), b"hi".to_vec());
    assert!(ep.queue_is_empty());
}


#[test]
fn call_matched_by_recv_yields_reply() {
    let tree = RevTree::new();
    let mut ep = Port::new();
    let mut head = party(SENDER, b"q");
    park_sender(&mut ep, WaiterKind::Call, &mut head.outcome, &tree);
    let (mut st, mut rt) = (HandleTable::new(), HandleTable::new());
    let mut receiver = IpcBuffer::new();
    let (action, wake) = rendezvous_recv(&mut ep, RECEIVER, &mut receiver, &mut rt, &mut head, &mut st, &tree, 1, 0, encode_tag);
    let mut reply = match action {
        PortAction::Done { reply: Some(r) } => r,
        _ => panic!("recv of a call must return a reply"),
    };
    assert_eq!(wake, None);
    let outcome = &mut head.outcome;
    assert!(outcome.get().is_none(), "caller stays blocked until reply");
    assert_eq!(reply.caller(), SENDER);
    reply.reply(outcome).expect("reply ok");
    assert_eq!(Reply::finish_reply(outcome, Ok(())), Ok(()));
    assert_eq!(outcome.get(), Some(RendezvousOutcome::Delivered));
    assert_eq!(reply.reply(outcome).unwrap_err(), IpcError::BadHandle);
}


#[test]
fn cancel_all_wakes_waiters_peer_gone() {
    let mut ep = Port::new();
    assert_eq!(ep.recv(RECEIVER), None);
    let mut outcome = OutcomeSlot::new();
    let waiters = ep.cancel_all();
    assert_eq!(waiters, vec![Waiter { kind: WaiterKind::Recv, token: RECEIVER }]);
    for _ in waiters {
        outcome.set(RendezvousOutcome::PeerGone);
    }
    assert_eq!(outcome.get(), Some(RendezvousOutcome::PeerGone));
    assert!(ep.queue_is_empty());
}

#[test]
fn drop_port_cancels_parked_waiter() {
    let mut ep = Port::new();
    assert_eq!(ep.recv(RECEIVER), None);
    let mut outcome = OutcomeSlot::new();
    for _ in ep.cancel_all() {
        outcome.set(RendezvousOutcome::PeerGone);
    }
    assert_eq!(outcome.get(), Some(RendezvousOutcome::PeerGone));
    assert_eq!(outcome_to_result(&outcome), Err(IpcError::PeerClosed));
}

#[test]
fn remove_waiter_is_arbiter_and_idempotent() {
    let mut ep = Port::new();
    assert_eq!(ep.recv(RECEIVER), None);
    assert!(!ep.queue_is_empty());
    assert!(ep.remove_waiter(RECEIVER));
    assert!(ep.queue_is_empty());
    assert!(!ep.remove_waiter(RECEIVER));
}

#[test]
fn port_send_poll_without_receiver_is_timeout() {
    let mut ep = Port::new();
    assert_eq!(ep.send_or_call(WaiterKind::Send, SENDER), None);
    assert_eq!(resolve_send_recv(&mut ep, SENDER), Some(Err(IpcError::Timeout)));
    assert!(ep.queue_is_empty());
}

#[test]
fn port_recv_poll_without_sender_is_timeout() {
    let mut ep = Port::new();
    assert_eq!(ep.recv(RECEIVER), None);
    assert_eq!(resolve_send_recv(&mut ep, RECEIVER), Some(Err(IpcError::Timeout)));
    assert!(ep.queue_is_empty());
}

#[test]
fn port_send_poll_matches_parked_receiver() {
    let tree = RevTree::new();
    let mut ep = Port::new();
    let (mut st, mut rt) = (HandleTable::new(), HandleTable::new());
    let mut head = party(RECEIVER, b"");
    park_receiver(&mut ep, &mut head, &mut st, &mut rt, &tree);
    let mut caller = OutcomeSlot::new();
    let (action, wake) = rendezvous_send_or_call(
        &mut ep, WaiterKind::Send, SENDER, &mut caller, &body_buffer(b""), 0, &mut st, &mut head, &mut rt, &tree, 0,
        0, encode_tag,
    );
    assert!(matches!(action, PortAction::Done { reply: None }));
    assert_eq!(wake, Some(RECEIVER));
    assert_eq!(head.outcome.get(), Some(RendezvousOutcome::Delivered));
    assert!(ep.queue_is_empty());
    // The woken receiver is no longer queued: it reads its outcome.
    assert_eq!(resolve_send_recv(&mut ep, RECEIVER), None);
    assert_eq!(outcome_to_result(&head.outcome), Ok(()));
}


#[test]
fn resolve_call_step_follows_outcome_state() {
    let mut pending = OutcomeSlot::new();
    assert_eq!(pending.raw(), PENDING);
    assert_eq!(resolve_call_step(&mut pending), CallStep::Park);

    let mut waiting = OutcomeSlot::new();
    waiting.set_awaiting_reply();
    assert_eq!(resolve_call_step(&mut waiting), CallStep::Failed(IpcError::Timeout));
    assert_eq!(waiting.raw(), TIMEDOUT);
    assert_eq!(resolve_call_step(&mut waiting), CallStep::Failed(IpcError::Timeout));

    let mut delivering = OutcomeSlot::new();
    delivering.set_awaiting_reply();
    assert!(delivering.try_begin_reply());
    assert_eq!(delivering.raw(), DELIVERING);
    assert_eq!(resolve_call_step(&mut delivering), CallStep::Park);
    assert_eq!(Reply::finish_reply(&mut delivering, Ok(())), Ok(()));
    assert_eq!(resolve_call_step(&mut delivering), CallStep::Replied);

    let mut gone = OutcomeSlot::new();
    gone.set(RendezvousOutcome::PeerGone);
    assert_eq!(resolve_call_step(&mut gone), CallStep::Failed(IpcError::PeerClosed));
    let mut failed = OutcomeSlot::new();
    failed.set(RendezvousOutcome::TransferFailed);
    assert_eq!(resolve_call_step(&mut failed), CallStep::Failed(IpcError::BufferTooSmall));
}

#[test]
fn outcome_slot_reply_timeout_arbitration() {
    let mut a = OutcomeSlot::new();
    a.set_awaiting_reply();
    assert!(a.try_timeout());
    assert!(!a.try_begin_reply());

    let mut b = OutcomeSlot::new();
    b.set_awaiting_reply();
    assert!(b.try_begin_reply());
    assert!(!b.try_timeout());
}

#[test]
fn call_caller_timeout_before_reply_rejects_server_reply() {
    let mut ep = Port::new();
    let mut outcome = OutcomeSlot::new();
    assert_eq!(ep.send_or_call(WaiterKind::Call, SENDER), None);
    let parked = ep.recv(RECEIVER).expect("caller is waiting");
    settle_match(parked.kind, WaiterKind::Recv, Ok(()), &mut outcome);
    assert_eq!(outcome.raw(), AWAITING_REPLY);
    assert!(outcome.try_timeout());
    let mut reply = Reply::new(parked.token);
    assert_eq!(reply.reply(&mut outcome).unwrap_err(), IpcError::PeerClosed);
    assert_eq!(outcome.raw(), TIMEDOUT);
}

#[test]
fn failed_transfer_fails_both_sides() {
    let mut outcome = OutcomeSlot::new();
    let m = settle_match(WaiterKind::Send, WaiterKind::Recv, Err(IpcError::BufferTooSmall), &mut outcome);
    assert_eq!(m, MatchOutcome::Failed(IpcError::BufferTooSmall));
    assert_eq!(outcome.get(), Some(RendezvousOutcome::TransferFailed));
    assert_eq!(outcome_to_result(&outcome), Err(IpcError::BufferTooSmall));
}

#[test]
fn receivers_are_matched_in_arrival_order() {
    let mut ep = Port::new();
    assert_eq!(ep.recv(10), None);
    assert_eq!(ep.recv(11), None);
    assert_eq!(ep.send_or_call(WaiterKind::Send, 1).map(|w| w.token), Some(10));
    assert_eq!(ep.send_or_call(WaiterKind::Call, 2).map(|w| w.token), Some(11));
    assert!(ep.queue_is_empty());
}

#[test]
fn cancelled_reply_wakes_waiting_caller_with_peer_gone() {
    let mut outcome = OutcomeSlot::new();
    outcome.set_awaiting_reply();
    let mut reply = Reply::new(5);
    assert!(reply.cancel(&mut outcome));
    assert_eq!(outcome.get(), Some(RendezvousOutcome::PeerGone));
    assert!(!reply.cancel(&mut outcome));
}
