use std::sync::Arc;

use kernel::kobject::errors::IpcError;
use kernel::kobject::handle::Handle;
use kernel::kobject::handle_table::HandleTable;
use kernel::kobject::ipc_buffer::{IpcBuffer, CAPS_OFFSET, DATA_OFFSET, TAG_OFFSET};
use kernel::kobject::object::KObject;
use kernel::kobject::outcome::{OutcomeSlot, RendezvousOutcome, WaiterKind, AWAITING_REPLY, PENDING};
use kernel::kobject::port::Port;
use kernel::kobject::rendezvous::{rendezvous_recv, rendezvous_send_or_call, Party, PortAction};
use kernel::kobject::rev_node::RevTree;
use kernel::kobject::rights::Rights;
use kernel::kobject::signal::Signal;

const SENDER: u64 = 1;
const RECEIVER: u64 = 2;

fn encode_tag(len: usize, ncaps: usize) -> u64 {
    ((ncaps as u64) << 32) | len as u64
}

fn party(token: u64, body: &[u8], badge: u64) -> Party {
    let mut buffer = IpcBuffer::new();
    buffer.kernel_write(DATA_OFFSET, body).unwrap();
    Party { token, buffer, badge, outcome: OutcomeSlot::new(), reply: None }
}

fn tag(buf: &IpcBuffer) -> u64 {
    u64::from_le_bytes(buf.kernel_read(TAG_OFFSET, 8).unwrap().try_into().unwrap())
}

#[test]
fn send_without_receiver_parks_and_moves_nothing() {
    let tree = RevTree::new();
    let mut port = Port::new();
    let (mut st, mut ht) = (HandleTable::new(), HandleTable::new());
    let mut head = party(RECEIVER, b"", 0);
    let mut caller = OutcomeSlot::new();
    let sender = party(SENDER, b"hello", 0).buffer;
    let (action, wake) = rendezvous_send_or_call(
        &mut port, WaiterKind::Send, SENDER, &mut caller, &sender, 0, &mut st, &mut head, &mut ht, &tree, 5, 0,
        encode_tag,
    );
    assert!(matches!(action, PortAction::Park));
    assert_eq!(wake, None);
    assert_eq!(head.outcome.raw(), PENDING);
    assert!(!port.queue_is_empty());
}

#[test]
fn send_to_parked_receiver_delivers_body_and_wakes_it() {
    let tree = RevTree::new();
    let mut port = Port::new();
    let (mut st, mut rt) = (HandleTable::new(), HandleTable::new());
    let mut head = party(RECEIVER, b"", 0);
    let mut scratch = party(0, b"", 0);
    let (action, _) = rendezvous_recv(&mut port, RECEIVER, &mut head.buffer, &mut rt, &mut scratch, &mut st, &tree, 0, 0, encode_tag);
    assert!(matches!(action, PortAction::Park));

    let sender = party(SENDER, b"hello", 0).buffer;
    let mut caller = OutcomeSlot::new();
    let (action, wake) = rendezvous_send_or_call(
        &mut port, WaiterKind::Send, SENDER, &mut caller, &sender, 7, &mut st, &mut head, &mut rt, &tree, 5, 0,
        encode_tag,
    );
    assert!(matches!(action, PortAction::Done { reply: None }));
    assert_eq!(wake, Some(RECEIVER));
    assert_eq!(head.outcome.get(), Some(RendezvousOutcome::Delivered));
    assert_eq!(head.buffer.kernel_read(DATA_OFFSET, 5).unwrap(), b"hello".to_vec());
    assert_eq!(tag(&head.buffer), encode_tag(5, 0));
    assert!(port.queue_is_empty());
}

#[test]
fn call_to_parked_receiver_hands_it_a_reply_and_parks_the_caller() {
    let tree = RevTree::new();
    let mut port = Port::new();
    let (mut st, mut rt) = (HandleTable::new(), HandleTable::new());
    let mut head = party(RECEIVER, b"", 0);
    let mut scratch = party(0, b"", 0);
    rendezvous_recv(&mut port, RECEIVER, &mut head.buffer, &mut rt, &mut scratch, &mut st, &tree, 0, 0, encode_tag);

    let sender = party(SENDER, b"ask", 0).buffer;
    let mut caller = OutcomeSlot::new();
    let (action, wake) = rendezvous_send_or_call(
        &mut port, WaiterKind::Call, SENDER, &mut caller, &sender, 0, &mut st, &mut head, &mut rt, &tree, 3, 0,
        encode_tag,
    );
    assert!(matches!(action, PortAction::Park));
    assert_eq!(wake, Some(RECEIVER));
    assert_eq!(caller.raw(), AWAITING_REPLY);
    assert_eq!(head.reply.as_ref().map(|r| r.caller()), Some(SENDER));
    assert_eq!(head.buffer.kernel_read(DATA_OFFSET, 3).unwrap(), b"ask".to_vec());
}

#[test]
fn recv_of_parked_call_returns_reply_without_waking_the_caller() {
    let tree = RevTree::new();
    let mut port = Port::new();
    let (mut st, mut rt) = (HandleTable::new(), HandleTable::new());
    let mut head = party(SENDER, b"req", 0xAB);
    let mut caller = OutcomeSlot::new();
    let mut scratch = party(0, b"", 0);
    let (action, _) = rendezvous_send_or_call(
        &mut port, WaiterKind::Call, SENDER, &mut caller, &IpcBuffer::new(), 0, &mut st, &mut scratch,
        &mut rt, &tree, 0, 0, encode_tag,
    );
    assert!(matches!(action, PortAction::Park));

    let mut receiver = IpcBuffer::new();
    let (action, wake) = rendezvous_recv(&mut port, RECEIVER, &mut receiver, &mut rt, &mut head, &mut st, &tree, 3, 0, encode_tag);
    match action {
        PortAction::Done { reply: Some(r) } => assert_eq!(r.caller(), SENDER),
        _ => panic!("recv of a call must return its reply"),
    }
    assert_eq!(wake, None);
    assert_eq!(head.outcome.raw(), AWAITING_REPLY);
    assert_eq!(receiver.kernel_read(DATA_OFFSET, 3).unwrap(), b"req".to_vec());
}

#[test]
fn port_send_with_failed_transfer_fails_both_sides() {
    let mut tree = RevTree::new();
    let mut port = Port::new();
    let (mut st, mut rt) = (HandleTable::new(), HandleTable::new());
    let h = Handle::new(KObject::Signal(Arc::new(Signal::new())), Rights::READ(), &mut tree);
    let id = st.insert(h, &mut tree).unwrap();
    let mut head = party(RECEIVER, b"", 0);
    let mut scratch = party(0, b"", 0);
    rendezvous_recv(&mut port, RECEIVER, &mut head.buffer, &mut rt, &mut scratch, &mut st, &tree, 0, 0, encode_tag);

    let mut sender = IpcBuffer::new();
    sender.kernel_write(CAPS_OFFSET, &id.raw().get().to_le_bytes()).unwrap();
    let mut caller = OutcomeSlot::new();
    let (action, wake) = rendezvous_send_or_call(
        &mut port, WaiterKind::Send, SENDER, &mut caller, &sender, 0, &mut st, &mut head, &mut rt, &tree, 0, 1,
        encode_tag,
    );
    assert!(matches!(action, PortAction::Failed(IpcError::AccessDenied)));
    assert_eq!(wake, Some(RECEIVER));
    assert_eq!(head.outcome.get(), Some(RendezvousOutcome::TransferFailed));
    assert_eq!(st.live_count(), 1);
    assert_eq!(rt.live_count(), 0);
}
