//! Lifecycle state shared by processes and threads: the exit code and the
//! termination signal, created on demand.

use vstd::prelude::*;
use super::signal::{SIGNALED, Signal, WakerToken, apply_signal, split_woken, tokens};

verus! {

/// Termination state of a process or a thread.
pub struct TerminationState {
    terminated: bool,
    exit_code: i32,
    signal: Option<Signal>,
}

impl TerminationState {
    pub closed spec fn spec_terminated(self) -> bool {
        self.terminated
    }

    pub closed spec fn spec_exit_code(self) -> i32 {
        self.exit_code
    }

    /// The termination signal, once some observer asked for it.
    pub closed spec fn spec_signal(self) -> Option<Signal> {
        self.signal
    }

    /// A live object, exit code 0, no signal yet.
    pub fn new() -> (r: Self)
        ensures
            !r.spec_terminated(),
            r.spec_exit_code() == 0,
            r.spec_signal() is None,
    {
        TerminationState { terminated: false, exit_code: 0, signal: None }
    }

    /// Publishes `code` and marks the object terminated, once: later calls
    /// change nothing. When the termination signal exists it gets
    /// `SIGNALED`; the returned tokens are the waiters to wake.
    pub fn signal_terminated(&mut self, code: i32) -> (woken: Vec<WakerToken>)
        ensures
            final(self).spec_terminated(),
            old(self).spec_terminated() ==> {
                &&& *final(self) == *old(self)
                &&& final(self).spec_exit_code() == old(self).spec_exit_code()
                &&& final(self).spec_signal() == old(self).spec_signal()
                &&& woken@.len() == 0
            },
            !old(self).spec_terminated() ==> {
                &&& final(self).spec_exit_code() == code
                &&& (old(self).spec_signal() is None ==> final(self).spec_signal() is None
                    && woken@.len() == 0)
                &&& (old(self).spec_signal() matches Some(s) ==> {
                    let bits = apply_signal(s@, SIGNALED, 0);
                    &&& final(self).spec_signal() matches Some(t)
                    &&& t@ == bits
                    &&& t.waiters() == split_woken(s.waiters(), bits, usize::MAX as nat).1
                    &&& woken@ == tokens(split_woken(s.waiters(), bits, usize::MAX as nat).0)
                })
            },
    {
        if self.terminated {
            return Vec::new();
        }
        self.exit_code = code;
        self.terminated = true;
        match self.signal.take() {
            Some(mut s) => {
                let woken = s.signal(SIGNALED, 0);
                self.signal = Some(s);
                woken
            },
            None => Vec::new(),
        }
    }

    pub fn terminated(&self) -> (r: bool)
        ensures
            r == self.spec_terminated(),
    {
        self.terminated
    }

    /// The final exit code; 0 before termination.
    pub fn exit_code(&self) -> (r: i32)
        ensures
            r == self.spec_exit_code(),
    {
        self.exit_code
    }

    /// The termination signal, created at the first call. A signal created
    /// after termination already holds `SIGNALED`.
    pub fn termination_signal(&mut self) -> (r: &mut Signal)
        ensures
            old(self).spec_signal() matches Some(s) ==> *r == s,
            old(self).spec_signal() is None ==> {
                &&& r@ == (if old(self).spec_terminated() { SIGNALED } else { 0u32 })
                &&& r.waiters().len() == 0
            },
            final(self).spec_signal() == Some(*final(r)),
            final(self).spec_terminated() == old(self).spec_terminated(),
            final(self).spec_exit_code() == old(self).spec_exit_code(),
    {
        if self.signal.is_none() {
            let initial = if self.terminated {
                SIGNALED
            } else {
                0
            };
            self.signal = Some(Signal::with_bits(initial));
        }
        self.signal.as_mut().unwrap()
    }
}

} // verus!
