use std::sync::Arc;

use kernel::kobject::api::{handle_close, handle_duplicate, install_handle, poll_wait_many, WaitManyOutcome};
use kernel::kobject::errors::IpcError;
use kernel::kobject::handle::Handle;
use kernel::kobject::handle_table::HandleTable;
use kernel::kobject::ipc_buffer::{IpcBuffer, BADGE_OFFSET, CAPS_OFFSET, DATA_OFFSET, TAG_OFFSET};
use kernel::kobject::object::KObject;
use kernel::kobject::rev_node::RevTree;
use kernel::kobject::rights::Rights;
use kernel::kobject::signal::Signal;

#[test]
fn kernel_write_then_read_round_trips_each_field() {
    let mut buf = IpcBuffer::new();
    buf.kernel_write(TAG_OFFSET, &7u64.to_le_bytes()).unwrap();
    buf.kernel_write(CAPS_OFFSET + 4, &9u32.to_le_bytes()).unwrap();
    buf.kernel_write(DATA_OFFSET + 3, b"hello").unwrap();
    buf.kernel_write(BADGE_OFFSET, &0xABCDu64.to_le_bytes()).unwrap();
    assert_eq!(buf.kernel_read(TAG_OFFSET, 8).unwrap(), 7u64.to_le_bytes().to_vec());
    assert_eq!(buf.kernel_read(CAPS_OFFSET + 4, 4).unwrap(), 9u32.to_le_bytes().to_vec());
    assert_eq!(buf.kernel_read(DATA_OFFSET + 3, 5).unwrap(), b"hello".to_vec());
    assert_eq!(buf.kernel_read(BADGE_OFFSET, 8).unwrap(), 0xABCDu64.to_le_bytes().to_vec());
    assert_eq!(buf.kernel_read(CAPS_OFFSET, 4).unwrap(), vec![0, 0, 0, 0]);
}

#[test]
fn partial_field_and_out_of_range_accesses_are_refused() {
    let mut buf = IpcBuffer::new();
    assert_eq!(buf.kernel_read(TAG_OFFSET, 4), Err(IpcError::BufferTooSmall));
    assert_eq!(buf.kernel_read(CAPS_OFFSET + 2, 4), Err(IpcError::BufferTooSmall));
    assert_eq!(buf.kernel_read(DATA_OFFSET + 250, 8), Err(IpcError::BufferTooSmall));
    assert_eq!(buf.kernel_read(BADGE_OFFSET + 1, 7), Err(IpcError::BufferTooSmall));
    assert_eq!(buf.kernel_read(usize::MAX, 2), Err(IpcError::BufferTooSmall));
    assert_eq!(buf.kernel_write(BADGE_OFFSET, &[1, 2, 3]), Err(IpcError::BufferTooSmall));
    assert_eq!(buf.kernel_read(BADGE_OFFSET, 8).unwrap(), vec![0; 8]);
}

#[test]
fn poll_wait_many_reports_first_ready_item() {
    assert_eq!(poll_wait_many(&[], &[], None), Err(IpcError::BadHandle));
    assert_eq!(
        poll_wait_many(&[0b01, 0b110, 0b100], &[0b10, 0b010, 0b100], None),
        Ok(Some(WaitManyOutcome { index: 1, observed: 0b010 }))
    );
    assert_eq!(poll_wait_many(&[0b01], &[0b10], Some(0)), Err(IpcError::Timeout));
    assert_eq!(poll_wait_many(&[0b01], &[0b10], Some(5)), Ok(None));
}

#[test]
fn close_and_duplicate_through_the_api() {
    let mut tree = RevTree::new();
    let mut table = HandleTable::new();
    let h = Handle::new(KObject::Signal(Arc::new(Signal::new())), Rights::READ() | Rights::DUPLICATE(), &mut tree);
    let id = install_handle(&mut table, h, &mut tree).unwrap();
    let dup = handle_duplicate(&mut table, id, Rights::READ(), &mut tree).unwrap();
    assert_eq!(handle_close(&mut table, id, &mut tree), Ok(()));
    assert_eq!(handle_close(&mut table, id, &mut tree), Err(IpcError::BadHandle));
    assert_eq!(table.get(dup, Rights::READ(), &tree).err(), Some(IpcError::Revoked));
}
