use std::sync::Arc;

use kernel::kobject::errors::IpcError;
use kernel::kobject::handle::Handle;
use kernel::kobject::handle_id::HandleId;
use kernel::kobject::handle_table::HandleTable;
use kernel::kobject::ipc_buffer::{
    IpcBuffer, BADGE_OFFSET, CAPS_OFFSET, TAG_OFFSET, DATA_OFFSET, IPC_BUFFER_DATA_MAX, IPC_BUFFER_MAX_CAPS,
};
use kernel::kobject::ipc_buffer_xfer::{transfer_rendezvous, transfer_rendezvous_within};
use kernel::kobject::object::KObject;
use kernel::kobject::rev_node::RevTree;
use kernel::kobject::rights::Rights;
use kernel::kobject::signal::Signal;
use kernel::num::NonZeroU32;

/// A sender's buffer holding `caps` in its cap slots and `body` in its data.
fn sender_buffer(caps: &[u32], body: &[u8]) -> IpcBuffer {
    let mut buf = IpcBuffer::new();
    for (i, raw) in caps.iter().enumerate() {
        buf.kernel_write(CAPS_OFFSET + 4 * i, &raw.to_le_bytes()).unwrap();
    }
    buf.kernel_write(DATA_OFFSET, body).unwrap();
    buf
}

fn read_data(buf: &IpcBuffer, len: usize) -> Vec<u8> {
    buf.kernel_read(DATA_OFFSET, len).unwrap()
}

fn read_badge(buf: &IpcBuffer) -> u64 {
    let b = buf.kernel_read(BADGE_OFFSET, 8).unwrap();
    u64::from_le_bytes(b.try_into().unwrap())
}

fn read_cap(buf: &IpcBuffer, i: usize) -> u32 {
    let b = buf.kernel_read(CAPS_OFFSET + 4 * i, 4).unwrap();
    u32::from_le_bytes(b.try_into().unwrap())
}

/// Tag layout used by these tests: cap count above the body length.
fn encode_tag(len: usize, ncaps: usize) -> u64 {
    ((ncaps as u64) << 32) | len as u64
}

fn read_tag(buf: &IpcBuffer) -> u64 {
    let b = buf.kernel_read(TAG_OFFSET, 8).unwrap();
    u64::from_le_bytes(b.try_into().unwrap())
}

fn handle_id(raw: u32) -> HandleId {
    HandleId::from_raw(NonZeroU32::new(raw).unwrap())
}

fn signal_with_transfer(table: &mut HandleTable, tree: &mut RevTree) -> HandleId {
    let h = Handle::new(KObject::Signal(Arc::new(Signal::new())), Rights::READ() | Rights::TRANSFER(), tree);
    table.insert(h, tree).unwrap()
}

#[test]
fn body_round_trip_no_caps() {
    let tree = RevTree::new();
    let (mut st, mut rt) = (HandleTable::new(), HandleTable::new());
    let sender = sender_buffer(&[], b"hello");
    let mut receiver = IpcBuffer::new();
    let tag = transfer_rendezvous(&sender, 0, &mut st, &mut receiver, &mut rt, &tree, 5, 0, encode_tag).expect("transfer ok");
    assert_eq!(tag, (5, 0));
    assert_eq!(read_tag(&receiver), encode_tag(5, 0));
    assert_eq!(read_data(&receiver, 5), b"hello");
}

#[test]
fn cap_transfer_moves_handle_and_writes_new_id() {
    let mut tree = RevTree::new();
    let (mut st, mut rt) = (HandleTable::new(), HandleTable::new());
    let notif = Arc::new(Signal::new());
    let h = Handle::new(KObject::Signal(notif.clone()), Rights::READ() | Rights::TRANSFER(), &mut tree);
    let id = st.insert(h, &mut tree).unwrap();
    let sender = sender_buffer(&[id.raw().get()], b"hi");
    let mut receiver = IpcBuffer::new();

    let tag = transfer_rendezvous(&sender, 0, &mut st, &mut receiver, &mut rt, &tree, 2, 1, encode_tag).expect("transfer ok");

    assert_eq!(st.live_count(), 0);
    assert_eq!(rt.live_count(), 1);
    assert_eq!(tag, (2, 1));
    assert_eq!(read_tag(&receiver), encode_tag(2, 1));
    let new_id = handle_id(read_cap(&receiver, 0));
    let got = rt.get(new_id, Rights::READ(), &tree).unwrap();
    let KObject::Signal(got_signal) = got.object() else {
        panic!("transferred handle must keep object type");
    };
    assert!(Arc::ptr_eq(got_signal, &notif));
}

#[test]
fn badge_delivered_to_receiver() {
    let tree = RevTree::new();
    let (mut st, mut rt) = (HandleTable::new(), HandleTable::new());
    let sender = sender_buffer(&[], b"");
    let mut receiver = IpcBuffer::new();
    transfer_rendezvous(&sender, 0xDEAD_BEEF, &mut st, &mut receiver, &mut rt, &tree, 0, 0, encode_tag).expect("transfer ok");
    assert_eq!(read_badge(&receiver), 0xDEAD_BEEF);
}

#[test]
fn zero_badge_delivered_when_sender_unbadged() {
    let tree = RevTree::new();
    let (mut st, mut rt) = (HandleTable::new(), HandleTable::new());
    let sender = sender_buffer(&[], b"abc");
    let mut receiver = IpcBuffer::new();
    receiver.kernel_write(BADGE_OFFSET, &7u64.to_le_bytes()).unwrap();
    transfer_rendezvous(&sender, 0, &mut st, &mut receiver, &mut rt, &tree, 3, 0, encode_tag).expect("transfer ok");
    assert_eq!(read_badge(&receiver), 0);
}

#[test]
fn cap_without_transfer_right_fails_atomically() {
    let mut tree = RevTree::new();
    let (mut st, mut rt) = (HandleTable::new(), HandleTable::new());
    let h = Handle::new(KObject::Signal(Arc::new(Signal::new())), Rights::READ(), &mut tree);
    let id = st.insert(h, &mut tree).unwrap();
    let sender = sender_buffer(&[id.raw().get()], b"");
    let mut receiver = IpcBuffer::new();

    let err = transfer_rendezvous(&sender, 0, &mut st, &mut receiver, &mut rt, &tree, 0, 1, encode_tag).unwrap_err();
    assert_eq!(err, IpcError::AccessDenied);
    assert_eq!(st.live_count(), 1);
    assert_eq!(rt.live_count(), 0);
}

#[test]
fn body_exactly_at_data_max_round_trips() {
    let tree = RevTree::new();
    let (mut st, mut rt) = (HandleTable::new(), HandleTable::new());
    let body = vec![0x5Au8; IPC_BUFFER_DATA_MAX];
    let sender = sender_buffer(&[], &body);
    let mut receiver = IpcBuffer::new();
    let tag = transfer_rendezvous(&sender, 0, &mut st, &mut receiver, &mut rt, &tree, IPC_BUFFER_DATA_MAX, 0, encode_tag)
        .expect("transfer ok");
    assert_eq!(tag, (IPC_BUFFER_DATA_MAX, 0));
    assert_eq!(read_tag(&receiver), encode_tag(IPC_BUFFER_DATA_MAX, 0));
    assert_eq!(read_data(&receiver, IPC_BUFFER_DATA_MAX), body);
}

#[test]
fn oversized_len_is_clamped_to_data_max() {
    let tree = RevTree::new();
    let (mut st, mut rt) = (HandleTable::new(), HandleTable::new());
    let body = vec![0xABu8; IPC_BUFFER_DATA_MAX];
    let sender = sender_buffer(&[], &body);
    let mut receiver = IpcBuffer::new();
    let tag = transfer_rendezvous(&sender, 0, &mut st, &mut receiver, &mut rt, &tree, IPC_BUFFER_DATA_MAX + 100, 0, encode_tag)
        .expect("transfer ok");
    assert_eq!(tag, (IPC_BUFFER_DATA_MAX, 0));
    assert_eq!(read_tag(&receiver), encode_tag(IPC_BUFFER_DATA_MAX, 0));
    assert_eq!(read_data(&receiver, IPC_BUFFER_DATA_MAX), body);
}

#[test]
fn oversized_ncaps_is_clamped_to_max_caps() {
    let mut tree = RevTree::new();
    let (mut st, mut rt) = (HandleTable::new(), HandleTable::new());
    let mut raw_ids = Vec::new();
    for _ in 0..IPC_BUFFER_MAX_CAPS {
        raw_ids.push(signal_with_transfer(&mut st, &mut tree).raw().get());
    }
    let sender = sender_buffer(&raw_ids, b"");
    let mut receiver = IpcBuffer::new();
    let tag = transfer_rendezvous(&sender, 0, &mut st, &mut receiver, &mut rt, &tree, 0, IPC_BUFFER_MAX_CAPS + 5, encode_tag)
        .expect("transfer ok");
    assert_eq!(tag, (0, IPC_BUFFER_MAX_CAPS));
    assert_eq!(read_tag(&receiver), encode_tag(0, IPC_BUFFER_MAX_CAPS));
    assert_eq!(st.live_count(), 0);
    assert_eq!(rt.live_count(), IPC_BUFFER_MAX_CAPS);
    for i in 0..IPC_BUFFER_MAX_CAPS {
        assert!(rt.get(handle_id(read_cap(&receiver, i)), Rights::READ(), &tree).is_ok());
    }
}

#[test]
fn kernel_buffer_round_trips_body_and_badge() {
    let tree = RevTree::new();
    let (mut st, mut rt) = (HandleTable::new(), HandleTable::new());
    let sender = sender_buffer(&[], b"PING");
    let mut receiver = IpcBuffer::new();
    let tag = transfer_rendezvous(&sender, 0xCAFE_F00D, &mut st, &mut receiver, &mut rt, &tree, 4, 0, encode_tag)
        .expect("transfer ok");
    assert_eq!(tag, (4, 0));
    assert_eq!(read_tag(&receiver), encode_tag(4, 0));
    assert_eq!(read_data(&receiver, 4), b"PING");
    assert_eq!(read_badge(&receiver), 0xCAFE_F00D);
}

#[test]
fn zero_cap_id_is_bad_handle_and_moves_nothing() {
    let mut tree = RevTree::new();
    let (mut st, mut rt) = (HandleTable::new(), HandleTable::new());
    let id = signal_with_transfer(&mut st, &mut tree);
    let sender = sender_buffer(&[id.raw().get(), 0], b"x");
    let mut receiver = IpcBuffer::new();
    let err = transfer_rendezvous(&sender, 9, &mut st, &mut receiver, &mut rt, &tree, 1, 2, encode_tag).unwrap_err();
    assert_eq!(err, IpcError::BadHandle);
    assert_eq!(st.live_count(), 1);
    assert_eq!(rt.live_count(), 0);
    // The body and the badge were already delivered; the caps were not.
    assert_eq!(read_data(&receiver, 1), b"x");
    assert_eq!(read_badge(&receiver), 9);
    assert_eq!(read_cap(&receiver, 0), 0);
    // A failed transfer leaves the receiver's tag as it was.
    assert_eq!(read_tag(&receiver), 0);
}

#[test]
fn full_receiver_table_is_out_of_handles() {
    let mut tree = RevTree::new();
    let mut st = HandleTable::new();
    let mut rt = HandleTable::with_capacity(1);
    let a = signal_with_transfer(&mut st, &mut tree);
    let b = signal_with_transfer(&mut st, &mut tree);
    let sender = sender_buffer(&[a.raw().get(), b.raw().get()], b"");
    let mut receiver = IpcBuffer::new();
    let err = transfer_rendezvous(&sender, 0, &mut st, &mut receiver, &mut rt, &tree, 0, 2, encode_tag).unwrap_err();
    assert_eq!(err, IpcError::OutOfHandles);
    assert_eq!(st.live_count(), 2);
    assert_eq!(rt.live_count(), 0);
    assert_eq!(read_cap(&receiver, 0), 0);
}

#[test]
fn transfer_between_threads_of_one_process_moves_entry_to_new_slot() {
    let mut tree = RevTree::new();
    let mut table = HandleTable::new();
    let notif = Arc::new(Signal::new());
    let h = Handle::new(KObject::Signal(notif.clone()), Rights::READ() | Rights::TRANSFER(), &mut tree);
    let id = table.insert(h, &mut tree).unwrap();
    let sender = sender_buffer(&[id.raw().get()], b"yo");
    let mut receiver = IpcBuffer::new();

    let tag = transfer_rendezvous_within(&sender, 3, &mut receiver, &mut table, &tree, 2, 1, encode_tag).expect("transfer ok");

    assert_eq!(tag, (2, 1));
    assert_eq!(read_tag(&receiver), encode_tag(2, 1));
    assert_eq!(table.live_count(), 1);
    let new_id = handle_id(read_cap(&receiver, 0));
    assert_ne!(new_id, id);
    assert_eq!(table.get(id, Rights::READ(), &tree).err(), Some(IpcError::BadHandle));
    let got = table.get(new_id, Rights::READ(), &tree).unwrap();
    let KObject::Signal(got_signal) = got.object() else {
        panic!("transferred handle must keep object type");
    };
    assert!(Arc::ptr_eq(got_signal, &notif));
    assert_eq!(read_data(&receiver, 2), b"yo");
    assert_eq!(read_badge(&receiver), 3);
}

#[test]
fn transfer_within_one_process_without_transfer_right_moves_nothing() {
    let mut tree = RevTree::new();
    let mut table = HandleTable::new();
    let h = Handle::new(KObject::Signal(Arc::new(Signal::new())), Rights::READ(), &mut tree);
    let id = table.insert(h, &mut tree).unwrap();
    let sender = sender_buffer(&[id.raw().get()], b"");
    let mut receiver = IpcBuffer::new();
    let err = transfer_rendezvous_within(&sender, 0, &mut receiver, &mut table, &tree, 0, 1, encode_tag).unwrap_err();
    assert_eq!(err, IpcError::AccessDenied);
    assert_eq!(table.live_count(), 1);
    assert!(table.get(id, Rights::READ(), &tree).is_ok());
}
