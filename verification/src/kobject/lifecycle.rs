//! Process and thread objects: their lifecycle is a termination state.

use vstd::prelude::*;
use super::signal::{Signal, WakerToken};
use super::termination::TerminationState;

verus! {

/// A process as a kernel object.
pub struct ProcessObject {
    inner: TerminationState,
}

/// A thread as a kernel object.
pub struct ThreadObject {
    inner: TerminationState,
}

impl ProcessObject {
    pub closed spec fn state(self) -> TerminationState {
        self.inner
    }

    pub fn new() -> (r: Self)
        ensures
            !r.state().spec_terminated(),
            r.state().spec_exit_code() == 0,
            r.state().spec_signal() is None,
    {
        ProcessObject { inner: TerminationState::new() }
    }

    /// Marks the process terminated with `code`, once; returns the waiters
    /// of its termination signal to wake.
    pub fn signal_terminated(&mut self, code: i32) -> (woken: Vec<WakerToken>)
        ensures
            final(self).state().spec_terminated(),
            old(self).state().spec_terminated() ==> final(self).state() == old(self).state(),
            !old(self).state().spec_terminated() ==> final(self).state().spec_exit_code()
                == code,
    {
        self.inner.signal_terminated(code)
    }

    pub fn exit_code(&self) -> (r: i32)
        ensures
            r == self.state().spec_exit_code(),
    {
        self.inner.exit_code()
    }

    pub fn terminated(&self) -> (r: bool)
        ensures
            r == self.state().spec_terminated(),
    {
        self.inner.terminated()
    }

    /// The termination signal, created at the first call.
    pub fn termination_signal(&mut self) -> (r: &mut Signal)
        ensures
            final(self).state().spec_signal() == Some(*final(r)),
            final(self).state().spec_terminated() == old(self).state().spec_terminated(),
            final(self).state().spec_exit_code() == old(self).state().spec_exit_code(),
    {
        self.inner.termination_signal()
    }
}

impl ThreadObject {
    pub closed spec fn state(self) -> TerminationState {
        self.inner
    }

    pub fn new() -> (r: Self)
        ensures
            !r.state().spec_terminated(),
            r.state().spec_exit_code() == 0,
            r.state().spec_signal() is None,
    {
        ThreadObject { inner: TerminationState::new() }
    }

    /// Marks the thread terminated with `code`, once; returns the waiters of
    /// its termination signal to wake.
    pub fn signal_terminated(&mut self, code: i32) -> (woken: Vec<WakerToken>)
        ensures
            final(self).state().spec_terminated(),
            old(self).state().spec_terminated() ==> final(self).state() == old(self).state(),
            !old(self).state().spec_terminated() ==> final(self).state().spec_exit_code()
                == code,
    {
        self.inner.signal_terminated(code)
    }

    pub fn exit_code(&self) -> (r: i32)
        ensures
            r == self.state().spec_exit_code(),
    {
        self.inner.exit_code()
    }

    pub fn terminated(&self) -> (r: bool)
        ensures
            r == self.state().spec_terminated(),
    {
        self.inner.terminated()
    }

    /// The termination signal, created at the first call.
    pub fn termination_signal(&mut self) -> (r: &mut Signal)
        ensures
            final(self).state().spec_signal() == Some(*final(r)),
            final(self).state().spec_terminated() == old(self).state().spec_terminated(),
            final(self).state().spec_exit_code() == old(self).state().spec_exit_code(),
    {
        self.inner.termination_signal()
    }
}

} // verus!
