//! `Signal`: a word of signal bits with a list of waiters.
//!
//! Raising bits selects the registered waiters whose masks intersect the new
//! bit set, in registration order and up to a bound; selected waiters leave
//! the list and are handed back to the caller, which wakes them with the new
//! bits. Waiters are named by tokens that the caller resolves.

use vstd::prelude::*;

verus! {

/// The bit raised when a signal fires (and when a process or thread ends).
pub const SIGNALED: u32 = 1;

/// Token naming a waiter; the caller maps it to the thread to wake.
pub type WakerToken = u64;

/// A registered waiter: its mask and its token.
#[derive(Clone, Copy, Debug, PartialEq, Eq, Structural)]
pub struct WaiterEntry {
    pub mask: u32,
    pub waker: WakerToken,
}

/// The signal primitive of the kernel.
pub struct Signal {
    bits: u32,
    waiters: Vec<WaiterEntry>,
}

/// Bits after raising `set` and lowering `clear`.
pub open spec fn apply_signal(prev: u32, set: u32, clear: u32) -> u32 {
    (prev & !clear) | set
}

/// Splits `entries` into the waiters woken by `bits` (the first `max_wake`
/// whose mask intersects `bits`, in order) and the ones that stay.
pub open spec fn split_woken(entries: Seq<WaiterEntry>, bits: u32, max_wake: nat) -> (
    Seq<WaiterEntry>,
    Seq<WaiterEntry>,
)
    decreases entries.len(),
{
    if entries.len() == 0 {
        (seq![], seq![])
    } else {
        let e = entries[0];
        if max_wake > 0 && e.mask & bits != 0 {
            let rest = split_woken(entries.drop_first(), bits, (max_wake - 1) as nat);
            (seq![e] + rest.0, rest.1)
        } else {
            let rest = split_woken(entries.drop_first(), bits, max_wake);
            (rest.0, seq![e] + rest.1)
        }
    }
}

/// Raising bits wakes at most `max_wake` waiters, each with a mask that
/// intersects the bits; every waiter is either woken or kept; a kept
/// waiter whose mask intersects the bits was left only because the bound
/// was reached.
pub proof fn lemma_split_woken(entries: Seq<WaiterEntry>, bits: u32, max_wake: nat)
    ensures
        split_woken(entries, bits, max_wake).0.len() <= max_wake,
        split_woken(entries, bits, max_wake).0.len() + split_woken(entries, bits, max_wake).1.len()
            == entries.len(),
        forall|i: int|
            0 <= i < split_woken(entries, bits, max_wake).0.len() ==> #[trigger] split_woken(
                entries,
                bits,
                max_wake,
            ).0[i].mask & bits != 0,
        split_woken(entries, bits, max_wake).0.len() < max_wake ==> forall|i: int|
            0 <= i < split_woken(entries, bits, max_wake).1.len() ==> #[trigger] split_woken(
                entries,
                bits,
                max_wake,
            ).1[i].mask & bits == 0,
    decreases entries.len(),
{
    if entries.len() > 0 {
        let e = entries[0];
        if max_wake > 0 && e.mask & bits != 0 {
            lemma_split_woken(entries.drop_first(), bits, (max_wake - 1) as nat);
            let rest = split_woken(entries.drop_first(), bits, (max_wake - 1) as nat);
            assert forall|i: int| 0 <= i < rest.0.len() + 1 implies #[trigger] (seq![e] + rest.0)[i].mask & bits != 0 by {
                if i > 0 {
                    assert((seq![e] + rest.0)[i] == rest.0[i - 1]);
                }
            }
        } else {
            lemma_split_woken(entries.drop_first(), bits, max_wake);
            let rest = split_woken(entries.drop_first(), bits, max_wake);
            if rest.0.len() < max_wake {
                assert forall|i: int| 0 <= i < rest.1.len() + 1 implies #[trigger] (seq![e] + rest.1)[i].mask & bits == 0 by {
                    if i > 0 {
                        assert((seq![e] + rest.1)[i] == rest.1[i - 1]);
                    }
                }
            }
        }
    }
}

/// Tokens of a sequence of waiters.
pub open spec fn tokens(entries: Seq<WaiterEntry>) -> Seq<WakerToken> {
    entries.map_values(|e: WaiterEntry| e.waker)
}

impl Signal {
    /// The registered waiters, in registration order.
    pub closed spec fn waiters(self) -> Seq<WaiterEntry> {
        self.waiters@
    }

    pub closed spec fn view(self) -> u32 {
        self.bits
    }

    /// A signal with every bit clear and no waiter.
    pub fn new() -> (r: Self)
        ensures
            r@ == 0,
            r.waiters() == Seq::<WaiterEntry>::empty(),
    {
        Self::with_bits(0)
    }

    /// A signal with `initial` bits raised and no waiter.
    pub fn with_bits(initial: u32) -> (r: Self)
        ensures
            r@ == initial,
            r.waiters() == Seq::<WaiterEntry>::empty(),
    {
        let r = Signal { bits: initial, waiters: Vec::new() };
        proof {
            assert(r.waiters() =~= Seq::<WaiterEntry>::empty());
        }
        r
    }

    /// Current bits.
    pub fn peek(&self) -> (r: u32)
        ensures
            r == self@,
    {
        self.bits
    }

    /// Raises `set`, lowers `clear` and returns the tokens of every waiter
    /// whose mask intersects the new bits; they are to be woken with
    /// [`peek`](Self::peek).
    pub fn signal(&mut self, set: u32, clear: u32) -> (woken: Vec<WakerToken>)
        ensures
            final(self)@ == apply_signal(old(self)@, set, clear),
            final(self).waiters() == split_woken(
                old(self).waiters(),
                final(self)@,
                usize::MAX as nat,
            ).1,
            woken@ == tokens(split_woken(old(self).waiters(), final(self)@, usize::MAX as nat).0),
    {
        self.signal_n(set, clear, usize::MAX)
    }

    /// As [`signal`](Self::signal), but selects at most `max_wake` waiters.
    /// The bits are applied whatever the number of waiters woken.
    pub fn signal_n(&mut self, set: u32, clear: u32, max_wake: usize) -> (woken: Vec<WakerToken>)
        ensures
            final(self)@ == apply_signal(old(self)@, set, clear),
            final(self).waiters() == split_woken(
                old(self).waiters(),
                final(self)@,
                max_wake as nat,
            ).1,
            woken@ == tokens(split_woken(old(self).waiters(), final(self)@, max_wake as nat).0),
    {
        let new_bits = (self.bits & !clear) | set;
        self.bits = new_bits;
        let mut old_entries = Vec::new();
        core::mem::swap(&mut old_entries, &mut self.waiters);
        let (woken, kept) = partition_waiters(old_entries, new_bits, max_wake);
        self.waiters = kept;
        let mut out: Vec<WakerToken> = Vec::new();
        let mut i: usize = 0;
        while i < woken.len()
            invariant
                i <= woken@.len(),
                out@ == tokens(woken@.subrange(0, i as int)),
            decreases woken.len() - i,
        {
            out.push(woken[i].waker);
            proof {
                assert(tokens(woken@.subrange(0, i + 1)) =~= tokens(woken@.subrange(0, i as int)).push(woken@[i as int].waker));
            }
            i += 1;
        }
        proof {
            assert(woken@.subrange(0, woken@.len() as int) =~= woken@);
        }
        out
    }

    /// Registers a waiter. When the signal already holds one of the bits of
    /// `mask`, the waiter is not kept and `true` says it is to be woken at
    /// once with [`peek`](Self::peek).
    pub fn register_waiter(&mut self, mask: u32, waker: WakerToken) -> (woken_now: bool)
        ensures
            final(self)@ == old(self)@,
            woken_now == (mask & old(self)@ != 0),
            woken_now ==> final(self).waiters() == old(self).waiters(),
            !woken_now ==> final(self).waiters() == old(self).waiters().push(
                WaiterEntry { mask, waker },
            ),
    {
        if mask & self.bits != 0 {
            true
        } else {
            self.waiters.push(WaiterEntry { mask, waker });
            false
        }
    }

    /// Removes every entry of `target`. `true` when an entry was removed.
    pub fn remove_waiter(&mut self, target: WakerToken) -> (r: bool)
        ensures
            final(self)@ == old(self)@,
            final(self).waiters() == old(self).waiters().filter(
                |e: WaiterEntry| e.waker != target,
            ),
            r == tokens(old(self).waiters()).contains(target),
    {
        let initial = self.waiters.len();
        let mut kept: Vec<WaiterEntry> = Vec::new();
        let mut i: usize = 0;
        let mut found = false;
        while i < self.waiters.len()
            invariant
                i <= self.waiters@.len(),
                self.waiters@ == old(self).waiters@,
                kept@ == self.waiters@.subrange(0, i as int).filter(
                    |e: WaiterEntry| e.waker != target,
                ),
                found == tokens(self.waiters@.subrange(0, i as int)).contains(target),
            decreases self.waiters.len() - i,
        {
            let e = self.waiters[i];
            proof {
                let s = self.waiters@.subrange(0, i + 1);
                assert(s.drop_last() =~= self.waiters@.subrange(0, i as int));
                assert(s.last() == e);
                reveal(Seq::filter);
                assert(tokens(s) =~= tokens(self.waiters@.subrange(0, i as int)).push(e.waker));
                lemma_push_contains(tokens(self.waiters@.subrange(0, i as int)), e.waker, target);
            }
            if e.waker != target {
                kept.push(e);
            } else {
                found = true;
            }
            i += 1;
        }
        proof {
            assert(self.waiters@.subrange(0, i as int) =~= self.waiters@);
        }
        self.waiters = kept;
        found
    }
}

/// Membership in a sequence after a push.
pub proof fn lemma_push_contains<A>(s: Seq<A>, x: A, t: A)
    ensures
        s.push(x).contains(t) <==> (s.contains(t) || x == t),
{
    if s.push(x).contains(t) {
        let w = choose|w: int| 0 <= w < s.push(x).len() && s.push(x)[w] == t;
        if w < s.len() {
            assert(s[w] == t);
        }
    }
    if s.contains(t) {
        let w = choose|w: int| 0 <= w < s.len() && s[w] == t;
        assert(s.push(x)[w] == t);
    }
    if x == t {
        assert(s.push(x)[s.len() as int] == t);
    }
}

/// Splits `entries` into the waiters to wake and the ones that stay, as
/// [`split_woken`] says.
fn partition_waiters(entries: Vec<WaiterEntry>, bits: u32, max_wake: usize) -> (r: (
    Vec<WaiterEntry>,
    Vec<WaiterEntry>,
))
    ensures
        r.0@ == split_woken(entries@, bits, max_wake as nat).0,
        r.1@ == split_woken(entries@, bits, max_wake as nat).1,
{
    let ghost all = entries@;
    let mut woken: Vec<WaiterEntry> = Vec::new();
    let mut kept: Vec<WaiterEntry> = Vec::new();
    let mut budget = max_wake;
    let mut i: usize = 0;
    proof {
        assert(all.subrange(0, all.len() as int) =~= all);
        assert(woken@ + split_woken(all, bits, max_wake as nat).0 =~= split_woken(all, bits, max_wake as nat).0);
        assert(kept@ + split_woken(all, bits, max_wake as nat).1 =~= split_woken(all, bits, max_wake as nat).1);
    }
    while i < entries.len()
        invariant
            i <= all.len(),
            entries@ == all,
            split_woken(all, bits, max_wake as nat) == (
                woken@ + split_woken(all.subrange(i as int, all.len() as int), bits, budget as nat).0,
                kept@ + split_woken(all.subrange(i as int, all.len() as int), bits, budget as nat).1,
            ),
        decreases entries.len() - i,
    {
        let ghost tail = all.subrange(i as int, all.len() as int);
        let e = entries[i];
        proof {
            assert(tail[0] == e);
            assert(tail.drop_first() =~= all.subrange(i + 1, all.len() as int));
        }
        if budget > 0 && e.mask & bits != 0 {
            let ghost w0 = woken@;
            woken.push(e);
            budget = budget - 1;
            proof {
                assert(woken@ =~= w0 + seq![e]);
                assert(w0 + (seq![e] + split_woken(tail.drop_first(), bits, budget as nat).0) =~= woken@ + split_woken(tail.drop_first(), bits, budget as nat).0);
            }
        } else {
            let ghost k0 = kept@;
            kept.push(e);
            proof {
                assert(kept@ =~= k0 + seq![e]);
                assert(k0 + (seq![e] + split_woken(tail.drop_first(), bits, budget as nat).1) =~= kept@ + split_woken(tail.drop_first(), bits, budget as nat).1);
            }
        }
        i += 1;
    }
    proof {
        assert(all.subrange(i as int, all.len() as int) =~= Seq::<WaiterEntry>::empty());
        assert(woken@ + seq![] =~= woken@);
        assert(kept@ + seq![] =~= kept@);
    }
    (woken, kept)
}

} // verus!
