use std::sync::Arc;

use kernel::kobject::lifecycle::ThreadObject;
use kernel::kobject::object::KObject;
use kernel::kobject::signal::{Signal, SIGNALED};
use kernel::kobject::termination::TerminationState;

const BIT0: u32 = 1 << 0;
const BIT1: u32 = 1 << 1;

#[test]
fn signal_wakes_observer() {
    let mut signal = Signal::new();
    assert!(!signal.register_waiter(SIGNALED, 1));
    let woken = signal.signal(SIGNALED, 0);
    assert_eq!(woken, vec![1]);
    assert_eq!(signal.peek() & SIGNALED, SIGNALED);
}

#[test]
fn peek_returns_current_state() {
    let mut signal = Signal::new();
    assert_eq!(signal.peek(), 0);
    signal.signal(SIGNALED, 0);
    assert_eq!(signal.peek(), SIGNALED);
    signal.signal(0, SIGNALED);
    assert_eq!(signal.peek(), 0);
}

#[test]
fn signal_koid_unique_per_instance() {
    let a = KObject::Signal(Arc::new(Signal::new()));
    let b = KObject::Signal(Arc::new(Signal::new()));
    assert_ne!(a.koid(), b.koid());
    assert_eq!(a.koid().type_tag(), 1);
}

#[test]
fn signal_then_register_wakes_immediately() {
    let mut s = Signal::new();
    s.signal(BIT0, 0);
    assert!(s.register_waiter(BIT0, 1));
    assert_eq!(s.peek() & BIT0, BIT0);
}

#[test]
fn register_then_signal_wakes() {
    let mut s = Signal::new();
    assert!(!s.register_waiter(BIT0, 1));
    assert_eq!(s.signal(BIT0, 0), vec![1]);
}

#[test]
fn signal_does_not_wake_unrelated_mask() {
    let mut s = Signal::new();
    assert!(!s.register_waiter(BIT1, 1));
    assert!(s.signal(BIT0, 0).is_empty());
    assert_eq!(s.signal(BIT1, 0), vec![1]);
}

#[test]
fn clear_does_not_wake() {
    let mut s = Signal::with_bits(BIT0);
    assert!(!s.register_waiter(BIT1, 1));
    assert!(s.signal(0, BIT0).is_empty());
    assert_eq!(s.peek(), 0);
}

#[test]
fn waiter_consumed_after_wake() {
    let mut s = Signal::new();
    assert!(!s.register_waiter(BIT0, 1));
    assert_eq!(s.signal(BIT0, 0), vec![1]);
    assert!(s.signal(0, BIT0).is_empty());
    assert!(s.signal(BIT0, 0).is_empty());
}

#[test]
fn peek_reflects_signal_changes() {
    let mut s = Signal::new();
    assert_eq!(s.peek(), 0);
    s.signal(BIT0 | BIT1, 0);
    assert_eq!(s.peek(), BIT0 | BIT1);
    s.signal(0, BIT0);
    assert_eq!(s.peek(), BIT1);
}

#[test]
fn signal_n_wakes_at_most_n_in_registration_order() {
    let mut s = Signal::new();
    s.register_waiter(BIT0, 1);
    s.register_waiter(BIT0, 2);
    s.register_waiter(BIT0, 3);
    assert_eq!(s.signal_n(BIT0, 0, 1), vec![1]);
    assert_eq!(s.signal_n(BIT0, 0, 5), vec![2, 3]);
}

#[test]
fn signal_n_zero_wakes_none_but_sets_bits() {
    let mut s = Signal::new();
    s.register_waiter(BIT0, 1);
    assert!(s.signal_n(BIT0, 0, 0).is_empty());
    assert_eq!(s.peek() & BIT0, BIT0);
}

#[test]
fn signal_wakes_all_intersecting() {
    let mut s = Signal::new();
    s.register_waiter(BIT0, 1);
    s.register_waiter(BIT0, 2);
    s.register_waiter(BIT0, 3);
    assert_eq!(s.signal(BIT0, 0), vec![1, 2, 3]);
}

#[test]
fn remove_waiter_drops_every_entry_of_a_token() {
    let mut s = Signal::new();
    s.register_waiter(BIT0, 1);
    s.register_waiter(BIT1, 2);
    s.register_waiter(BIT1, 1);
    assert!(s.remove_waiter(1));
    assert!(!s.remove_waiter(1));
    assert_eq!(s.signal(BIT0 | BIT1, 0), vec![2]);
}

#[test]
fn fresh_state_is_not_terminated_with_zero_code() {
    let s = TerminationState::new();
    assert!(!s.terminated());
    assert_eq!(s.exit_code(), 0);
}

#[test]
fn signal_terminated_publishes_code_and_flag() {
    let mut s = TerminationState::new();
    s.signal_terminated(42);
    assert!(s.terminated());
    assert_eq!(s.exit_code(), 42);
}

#[test]
fn signal_terminated_is_idempotent_first_writer_wins() {
    let mut s = TerminationState::new();
    s.signal_terminated(7);
    s.signal_terminated(99);
    assert_eq!(s.exit_code(), 7);
    assert!(s.terminated());
}

#[test]
fn materialized_signal_wakes_observer_on_terminate() {
    let mut s = TerminationState::new();
    assert!(!s.termination_signal().register_waiter(SIGNALED, 1));
    let woken = s.signal_terminated(5);
    assert_eq!(woken, vec![1]);
    assert_eq!(s.termination_signal().peek() & SIGNALED, SIGNALED);
}

#[test]
fn late_observer_sees_presignaled_signal() {
    let mut s = TerminationState::new();
    s.signal_terminated(3);
    let sig = s.termination_signal();
    assert_eq!(sig.peek() & SIGNALED, SIGNALED);
}

#[test]
fn termination_signal_is_cached_across_calls() {
    let mut s = TerminationState::new();
    s.termination_signal().register_waiter(SIGNALED, 8);
    assert!(!s.termination_signal().register_waiter(SIGNALED, 9));
    assert_eq!(s.signal_terminated(1), vec![8, 9]);
}

#[test]
fn signal_terminated_wakes_observer() {
    let mut th = ThreadObject::new();
    assert!(!th.termination_signal().register_waiter(SIGNALED, 1));
    assert_eq!(th.signal_terminated(-1), vec![1]);
    assert_eq!(th.termination_signal().peek() & SIGNALED, SIGNALED);
    assert_eq!(th.exit_code(), -1);
    assert!(th.terminated());
}

#[test]
fn signal_terminated_is_idempotent() {
    let mut th = ThreadObject::new();
    th.signal_terminated(7);
    th.signal_terminated(99);
    assert_eq!(th.exit_code(), 7);
    assert!(th.terminated());
}

#[test]
fn exit_code_zero_before_termination() {
    let th = ThreadObject::new();
    assert_eq!(th.exit_code(), 0);
    assert!(!th.terminated());
}

#[test]
fn late_termination_signal_is_presignaled() {
    let mut th = ThreadObject::new();
    th.signal_terminated(3);
    let sig = th.termination_signal();
    assert_eq!(sig.peek() & SIGNALED, SIGNALED);
}

#[test]
fn thread_koid_unique_per_instance() {
    let a = KObject::Thread(Arc::new(ThreadObject::new()));
    let b = KObject::Thread(Arc::new(ThreadObject::new()));
    assert_ne!(a.koid(), b.koid());
}

#[test]
fn process_delegates_lifecycle_to_termination_state() {
    let mut proc_obj = kernel::kobject::lifecycle::ProcessObject::new();
    assert!(!proc_obj.terminated());
    assert_eq!(proc_obj.exit_code(), 0);
    proc_obj.signal_terminated(42);
    assert!(proc_obj.terminated());
    assert_eq!(proc_obj.exit_code(), 42);
    assert_eq!(proc_obj.termination_signal().peek() & SIGNALED, SIGNALED);
}
