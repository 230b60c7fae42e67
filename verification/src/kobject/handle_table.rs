//! Per-process table of handles, addressed by generation-checked ids.
//!
//! Slots are reused through a free list; each reuse bumps the slot's
//! generation so that an id of a closed handle never names the new entry.
//! A slot whose generation is exhausted is retired for good. Cancel tokens
//! registered on a slot, and revocation hooks fired by closing a handle, are
//! collected in outboxes that the caller drains and acts upon.

use std::sync::Arc;
use vstd::prelude::*;
use crate::memory::region::MemoryRegion;
use super::errors::IpcError;
use super::handle::{duplicate_error, is_duplicate_of, Handle};
use super::handle_id::{HandleId, MAX_GENERATION, MAX_SLOT_INDEX};
use super::lifecycle::{ProcessObject, ThreadObject};
use super::object::KObject;
use super::physical_resource::PhysicalResource;
use super::port::{Port, Reply};
use super::rev_node::{ancestors_held, subtree_hook, RevNodeView, RevTree};
use super::rights::Rights;
use super::signal::Signal;

verus! {

/// Number of slots of a table made by [`HandleTable::new`].
pub const DEFAULT_CAPACITY: u32 = 1024;

/// Largest capacity a table can have: one slot per slot index.
pub const MAX_CAPACITY: u32 = 0x1_0000;

/// State of a slot.
pub enum SlotState {
    /// Free, linked to the next free slot.
    Free { next_free: Option<u32> },
    /// Held between `reserve_slot` and `commit_reserved` or
    /// `release_reservation`.
    Reserved,
    /// Holds a live handle.
    Occupied(Handle),
    /// Its generation is exhausted: out of use for good.
    Retired,
}

struct Slot {
    generation: u16,
    state: SlotState,
    waiters: Vec<u64>,
}

/// Spec view of a slot.
pub struct SlotView {
    pub generation: u16,
    pub state: SlotState,
    pub waiters: Seq<u64>,
}

impl Slot {
    closed spec fn view(self) -> SlotView {
        SlotView { generation: self.generation, state: self.state, waiters: self.waiters@ }
    }
}

/// A reserved slot, closed by `commit_reserved` or `release_reservation`.
/// A forgotten reservation holds its slot for good.
#[derive(Debug, Clone, Copy)]
pub struct HandleReservation {
    slot: u32,
    generation: u16,
}

impl HandleReservation {
    #[verifier::type_invariant]
    spec fn reservation_inv(self) -> bool {
        &&& self.generation >= 1
        &&& self.slot <= MAX_SLOT_INDEX
    }

    pub closed spec fn spec_slot(self) -> u32 {
        self.slot
    }

    pub closed spec fn spec_generation(self) -> u16 {
        self.generation
    }

    /// 32-bit value of the id that the entry committed into this
    /// reservation will have.
    pub open spec fn predicted_raw(self) -> int {
        self.spec_generation() * 65536 + self.spec_slot()
    }

    /// The id that the entry committed into this reservation will have.
    pub fn handle_id(self) -> (r: HandleId)
        ensures
            r.spec_slot() == self.spec_slot(),
            r.spec_generation() == self.spec_generation(),
            r@ == self.predicted_raw(),
    {
        proof {
            use_type_invariant(self);
        }
        HandleId::pack(self.generation, self.slot)
    }
}

/// The id that committing into a reservation gives is the id that the
/// reservation predicted.
pub proof fn lemma_commit_gives_predicted_id(res: HandleReservation, predicted: HandleId, committed: HandleId)
    requires
        predicted@ == res.predicted_raw(),
        committed@ == res.predicted_raw(),
    ensures
        predicted == committed,
{
    super::handle_id::lemma_handle_id_determined(predicted, committed);
}

/// Life of a reservation: while its slot is reserved, the id it predicts
/// names no entry; once a handle is committed into the slot, that id names
/// the handle.
pub proof fn lemma_reservation_life(slots: Seq<SlotView>, res: HandleReservation, id: HandleId, h: Handle)
    requires
        slots.len() <= MAX_CAPACITY,
        reservations_held(slots, seq![res]),
        id@ == res.predicted_raw(),
    ensures
        resolve(slots, id) is None,
        resolve(
            slots.update(
                res.spec_slot() as int,
                SlotView { state: SlotState::Occupied(h), ..slots[res.spec_slot() as int] },
            ),
            id,
        ) == Some(h),
{
    assert(seq![res][0] == res);
    super::handle_id::lemma_raw_parts(res.spec_generation(), res.spec_slot());
}

/// Handle of the occupied slot that `id` names, if any.
pub open spec fn resolve(slots: Seq<SlotView>, id: HandleId) -> Option<Handle> {
    let i = id.spec_slot() as int;
    if i < slots.len() && slots[i].generation == id.spec_generation() {
        match slots[i].state {
            SlotState::Occupied(h) => Some(h),
            _ => None,
        }
    } else {
        None
    }
}

/// Outcome of looking `id` up: `BadHandle` where it names no entry,
/// `Revoked` where an ancestor of the entry's capability was closed.
pub open spec fn lookup_result(slots: Seq<SlotView>, id: HandleId, tree: Seq<RevNodeView>) -> Result<
    Handle,
    IpcError,
> {
    match resolve(slots, id) {
        None => Err(IpcError::BadHandle),
        Some(h) => if ancestors_held(tree, h.spec_node() as int) {
            Ok(h)
        } else {
            Err(IpcError::Revoked)
        },
    }
}

/// Outcome of looking `id` up with the rights `need` required.
pub open spec fn get_result(
    slots: Seq<SlotView>,
    id: HandleId,
    need: Rights,
    tree: Seq<RevNodeView>,
) -> Result<Handle, IpcError> {
    match lookup_result(slots, id, tree) {
        Ok(h) => if h.spec_rights().spec_contains(need) {
            Ok(h)
        } else {
            Err(IpcError::AccessDenied)
        },
        Err(e) => Err(e),
    }
}

/// Whether `id` names a slot that it can never name again: its generation
/// is behind the slot's, or the slot is free or retired at that generation.
pub open spec fn id_dead(slots: Seq<SlotView>, id: HandleId) -> bool {
    let i = id.spec_slot() as int;
    &&& i < slots.len()
    &&& (id.spec_generation() < slots[i].generation || (id.spec_generation()
        == slots[i].generation && (slots[i].state is Free || slots[i].state is Retired)))
}

/// Every id that was dead before is dead after.
pub open spec fn keeps_dead(before: Seq<SlotView>, after: Seq<SlotView>) -> bool {
    forall|id: HandleId| id_dead(before, id) ==> #[trigger] id_dead(after, id)
}

/// Position in the free list `fl` of the first slot whose generation is
/// not exhausted (`fl.len()` if none is).
pub open spec fn first_usable(slots: Seq<SlotView>, fl: Seq<u32>) -> int
    decreases fl.len(),
{
    if fl.len() == 0 {
        0
    } else if slots[fl[0] as int].generation < MAX_GENERATION {
        0
    } else {
        1 + first_usable(slots, fl.drop_first())
    }
}

/// Number of entries of the free list whose slot can still take an entry
/// (its generation has not reached the maximum).
pub open spec fn usable_count(slots: Seq<SlotView>, fl: Seq<u32>) -> nat
    decreases fl.len(),
{
    if fl.len() == 0 {
        0
    } else {
        (if slots[fl[0] as int].generation < MAX_GENERATION {
            1nat
        } else {
            0nat
        }) + usable_count(slots, fl.drop_first())
    }
}

/// Number of entries a table can still take: its usable free slots and the
/// slots its capacity still allows.
pub open spec fn room(slots: Seq<SlotView>, fl: Seq<u32>, capacity: u32) -> int {
    usable_count(slots, fl) + capacity - slots.len()
}

/// No usable free slot is left exactly when the search runs through the
/// whole free list.
proof fn lemma_usable_none(slots: Seq<SlotView>, fl: Seq<u32>)
    ensures
        (first_usable(slots, fl) >= fl.len()) <==> usable_count(slots, fl) == 0,
        0 <= first_usable(slots, fl) <= fl.len(),
    decreases fl.len(),
{
    if fl.len() > 0 {
        lemma_usable_none(slots, fl.drop_first());
    }
}

/// The first usable entry accounts for one usable slot; the rest are past it.
proof fn lemma_usable_split(slots: Seq<SlotView>, fl: Seq<u32>)
    requires
        first_usable(slots, fl) < fl.len(),
    ensures
        usable_count(slots, fl) == 1 + usable_count(slots, fl.skip(first_usable(slots, fl) + 1)),
    decreases fl.len(),
{
    if slots[fl[0] as int].generation < MAX_GENERATION {
        assert(fl.skip(1) =~= fl.drop_first());
    } else {
        lemma_usable_none(slots, fl.drop_first());
        assert(first_usable(slots, fl) == 1 + first_usable(slots, fl.drop_first()));
        lemma_usable_split(slots, fl.drop_first());
        assert(fl.drop_first().skip(first_usable(slots, fl.drop_first()) + 1) =~= fl.skip(
            first_usable(slots, fl) + 1,
        ));
    }
}

/// Usable entries depend only on the generations of the listed slots.
proof fn lemma_usable_frame(a: Seq<SlotView>, b: Seq<SlotView>, fl: Seq<u32>)
    requires
        forall|k: int| 0 <= k < fl.len() ==> a[#[trigger] fl[k] as int].generation == b[fl[k] as int].generation,
    ensures
        usable_count(a, fl) == usable_count(b, fl),
    decreases fl.len(),
{
    if fl.len() > 0 {
        assert(a[fl[0] as int].generation == b[fl[0] as int].generation);
        assert forall|k: int| 0 <= k < fl.drop_first().len() implies a[#[trigger] fl.drop_first()[k] as int].generation
            == b[fl.drop_first()[k] as int].generation by {
            assert(fl.drop_first()[k] == fl[k + 1]);
        }
        lemma_usable_frame(a, b, fl.drop_first());
    }
}

/// Taking a slot for an entry uses up exactly one unit of room, and a slot
/// can be taken exactly while room is left.
proof fn lemma_room_step(slots: Seq<SlotView>, fl: Seq<u32>, capacity: u32, state: SlotState)
    requires
        fl.no_duplicates(),
        forall|k: int| 0 <= k < fl.len() ==> (#[trigger] fl[k] as int) < slots.len(),
        slots.len() <= capacity,
    ensures
        room(slots, fl, capacity) >= 0,
        claim_target(slots, fl, capacity) is None <==> room(slots, fl, capacity) == 0,
        claim_target(slots, fl, capacity) is Some ==> room(
            placed(
                slots_after_search(slots, fl),
                claim_target(slots, fl, capacity)->Some_0,
                state,
            ),
            free_after_search(slots, fl),
            capacity,
        ) == room(slots, fl, capacity) - 1,
{
    lemma_usable_none(slots, fl);
    let k = first_usable(slots, fl);
    let s1 = slots_after_search(slots, fl);
    if k < fl.len() {
        lemma_usable_split(slots, fl);
        let i = fl[k] as int;
        let s2 = placed(s1, i, state);
        let rest = fl.skip(k + 1);
        assert forall|m: int| 0 <= m < rest.len() implies slots[#[trigger] rest[m] as int].generation
            == s2[rest[m] as int].generation by {
            assert(rest[m] == fl[k + 1 + m]);
            assert(fl[k + 1 + m] != fl[k]);
        }
        lemma_usable_frame(slots, s2, rest);
    }
}

/// `slots` with the slots of the first `j` entries of `fl` retired.
pub open spec fn retire_prefix(slots: Seq<SlotView>, fl: Seq<u32>, j: int) -> Seq<SlotView> {
    Seq::new(
        slots.len(),
        |i: int|
            if fl.take(j).contains(i as u32) {
                SlotView { state: SlotState::Retired, ..slots[i] }
            } else {
                slots[i]
            },
    )
}

/// Slots after the search for a usable free slot.
pub open spec fn slots_after_search(slots: Seq<SlotView>, fl: Seq<u32>) -> Seq<SlotView> {
    retire_prefix(slots, fl, first_usable(slots, fl))
}

/// Free list after the search for a usable free slot.
pub open spec fn free_after_search(slots: Seq<SlotView>, fl: Seq<u32>) -> Seq<u32> {
    let k = first_usable(slots, fl);
    if k < fl.len() {
        fl.skip(k + 1)
    } else {
        seq![]
    }
}

/// Slot that the next entry takes: the first usable free slot, else a new
/// slot while the capacity allows, else none.
pub open spec fn claim_target(slots: Seq<SlotView>, fl: Seq<u32>, capacity: u32) -> Option<int> {
    let k = first_usable(slots, fl);
    if k < fl.len() {
        Some(fl[k] as int)
    } else if slots.len() < capacity {
        Some(slots.len() as int)
    } else {
        None
    }
}

/// `slots` with slot `i` taken in `state` at the next generation, or a new
/// slot at generation 1 appended where `i` is past the end.
pub open spec fn placed(slots: Seq<SlotView>, i: int, state: SlotState) -> Seq<SlotView> {
    if i < slots.len() {
        slots.update(
            i,
            SlotView { generation: (slots[i].generation + 1) as u16, state, waiters: seq![] },
        )
    } else {
        slots.push(SlotView { generation: 1, state, waiters: seq![] })
    }
}

/// Number of occupied slots.
pub open spec fn count_occupied(slots: Seq<SlotView>) -> nat
    decreases slots.len(),
{
    if slots.len() == 0 {
        0
    } else {
        count_occupied(slots.drop_last()) + if slots.last().state is Occupied {
            1nat
        } else {
            0nat
        }
    }
}

/// Position of the first occurrence of `t` in `s` (`s.len()` if none).
pub open spec fn first_index(s: Seq<u64>, t: u64) -> int
    decreases s.len(),
{
    if s.len() == 0 {
        0
    } else if s[0] == t {
        0
    } else {
        1 + first_index(s.drop_first(), t)
    }
}

/// `slots` once the entry at slot `i` left: free at the same generation,
/// linked to `head`, with no waiters.
pub open spec fn freed(slots: Seq<SlotView>, i: int, head: Option<u32>) -> Seq<SlotView> {
    slots.update(
        i,
        SlotView {
            generation: slots[i].generation,
            state: SlotState::Free { next_free: head },
            waiters: seq![],
        },
    )
}

/// Head of a free list.
pub open spec fn list_head(fl: Seq<u32>) -> Option<u32> {
    if fl.len() == 0 {
        None
    } else {
        Some(fl[0])
    }
}

/// Whether some id occurs twice in `ids`.
pub open spec fn has_duplicate_id(ids: Seq<HandleId>) -> bool {
    exists|a: int, b: int| 0 <= a < b < ids.len() && #[trigger] ids[a] == #[trigger] ids[b]
}

/// Error of the first id of `ids` that fails the lookup with `need`.
pub open spec fn first_failure(
    slots: Seq<SlotView>,
    ids: Seq<HandleId>,
    need: Rights,
    tree: Seq<RevNodeView>,
) -> Option<IpcError>
    decreases ids.len(),
{
    if ids.len() == 0 {
        None
    } else {
        match get_result(slots, ids[0], need, tree) {
            Err(e) => Some(e),
            Ok(_) => first_failure(slots, ids.drop_first(), need, tree),
        }
    }
}

/// Slots, free list and canceled tokens after taking the entries of `ids`
/// out in order.
pub open spec fn drained(slots: Seq<SlotView>, fl: Seq<u32>, ids: Seq<HandleId>) -> (
    Seq<SlotView>,
    Seq<u32>,
    Seq<u64>,
)
    decreases ids.len(),
{
    if ids.len() == 0 {
        (slots, fl, seq![])
    } else {
        let prev = drained(slots, fl, ids.drop_last());
        let i = ids.last().spec_slot() as int;
        (
            freed(prev.0, i, list_head(prev.1)),
            seq![ids.last().spec_slot()] + prev.1,
            prev.2 + prev.0[i].waiters,
        )
    }
}

/// Waiters of all slots, slot by slot.
pub open spec fn all_waiters(slots: Seq<SlotView>) -> Seq<u64>
    decreases slots.len(),
{
    if slots.len() == 0 {
        seq![]
    } else {
        all_waiters(slots.drop_last()) + slots.last().waiters
    }
}

/// Whether an entry among the first `n` slots holds the derivation node `j`.
pub open spec fn holds_node(slots: Seq<SlotView>, n: int, j: int) -> bool {
    exists|i: int|
        0 <= i < n && #[trigger] slots[i].state is Occupied && slots[i].state->Occupied_0.spec_node()
            == j
}

/// Whether `t` is a hook in the live subtree of an entry among the first
/// `n` slots.
pub open spec fn fires_hook(slots: Seq<SlotView>, n: int, tree: Seq<RevNodeView>, t: u64) -> bool {
    exists|i: int|
        0 <= i < n && #[trigger] slots[i].state is Occupied && subtree_hook(
            tree,
            slots[i].state->Occupied_0.spec_node() as int,
            t,
        )
}

/// Whether each reservation of `res` holds its slot of `slots`, and no two
/// hold the same slot.
pub open spec fn reservations_held(slots: Seq<SlotView>, res: Seq<HandleReservation>) -> bool {
    &&& forall|a: int|
        0 <= a < res.len() ==> {
            let i = (#[trigger] res[a]).spec_slot() as int;
            &&& i < slots.len()
            &&& slots[i].state is Reserved
            &&& slots[i].generation == res[a].spec_generation()
        }
    &&& forall|a: int, b: int|
        0 <= a < b < res.len() ==> (#[trigger] res[a]).spec_slot() != (#[trigger] res[b]).spec_slot()
}

/// Whether every id resolves alike in both tables.
pub open spec fn same_entries(before: Seq<SlotView>, after: Seq<SlotView>) -> bool {
    forall|id: HandleId| #[trigger] resolve(after, id) == resolve(before, id)
}

/// Retiring one more entry of the free list retires exactly its slot.
proof fn lemma_retire_step(s0: Seq<SlotView>, fl0: Seq<u32>, j: int)
    requires
        0 <= j < fl0.len(),
        s0.len() <= MAX_CAPACITY,
        fl0.no_duplicates(),
        forall|k: int| 0 <= k < fl0.len() ==> (#[trigger] fl0[k] as int) < s0.len(),
    ensures
        retire_prefix(s0, fl0, j)[fl0[j] as int] == s0[fl0[j] as int],
        retire_prefix(s0, fl0, j + 1) == retire_prefix(s0, fl0, j).update(
            fl0[j] as int,
            SlotView { state: SlotState::Retired, ..s0[fl0[j] as int] },
        ),
{
    let x = fl0[j];
    assert(fl0.take(j + 1) =~= fl0.take(j).push(x));
    assert(!fl0.take(j).contains(x)) by {
        if fl0.take(j).contains(x) {
            let m = choose|m: int| 0 <= m < fl0.take(j).len() && #[trigger] fl0.take(j)[m] == x;
            assert(fl0[m] == fl0[j]);
        }
    }
    assert forall|i: int| 0 <= i < s0.len() implies (#[trigger] fl0.take(j + 1).contains(i as u32) <==> (
    fl0.take(j).contains(i as u32) || i == x as int)) by {
        if i == x as int {
            assert(fl0.take(j + 1)[j] == x);
        }
        if fl0.take(j + 1).contains(i as u32) && i != x as int {
            let m = choose|m: int| 0 <= m < fl0.take(j + 1).len() && #[trigger] fl0.take(j + 1)[m] == i as u32;
            assert(fl0.take(j + 1)[m] == fl0[m]);
            assert(m < j);
            assert(fl0.take(j)[m] == i as u32);
        }
        if fl0.take(j).contains(i as u32) {
            let m = choose|m: int| 0 <= m < fl0.take(j).len() && #[trigger] fl0.take(j)[m] == i as u32;
            assert(fl0.take(j + 1)[m] == i as u32);
        }
    }
    assert(retire_prefix(s0, fl0, j + 1) =~= retire_prefix(s0, fl0, j).update(
        fl0[j] as int,
        SlotView { state: SlotState::Retired, ..s0[fl0[j] as int] },
    ));
}

/// A per-process table of handles.
pub struct HandleTable {
    slots: Vec<Slot>,
    free_head: Option<u32>,
    capacity: u32,
    canceled: Vec<u64>,
    revoked: Vec<u64>,
    free_list: Ghost<Seq<u32>>,
}

impl HandleTable {
    pub closed spec fn slots(self) -> Seq<SlotView> {
        self.slots@.map_values(|s: Slot| s@)
    }

    /// Free slots, in the order in which they are reused.
    pub closed spec fn free_list(self) -> Seq<u32> {
        self.free_list@
    }

    pub closed spec fn spec_capacity(self) -> u32 {
        self.capacity
    }

    /// Number of entries the table can still take.
    pub open spec fn spec_room(self) -> int {
        room(self.slots(), self.free_list(), self.spec_capacity())
    }

    /// Cancel tokens of waits whose handle left the table, not yet taken.
    pub closed spec fn spec_canceled(self) -> Seq<u64> {
        self.canceled@
    }

    /// Revocation hooks fired by closing handles, not yet taken.
    pub closed spec fn spec_revoked(self) -> Seq<u64> {
        self.revoked@
    }

    /// The table's internal invariant.
    pub closed spec fn wf(self) -> bool {
        let fl = self.free_list@;
        let s = self.slots();
        &&& self.capacity <= MAX_CAPACITY
        &&& s.len() <= self.capacity
        &&& forall|i: int|
            0 <= i < s.len() ==> (#[trigger] s[i].state is Occupied || s[i].state is Reserved)
                ==> s[i].generation >= 1
        &&& fl.no_duplicates()
        &&& self.free_head == (if fl.len() == 0 {
            None::<u32>
        } else {
            Some(fl[0])
        })
        &&& forall|k: int|
            #![trigger fl[k]]
            0 <= k < fl.len() ==> {
                &&& (fl[k] as int) < s.len()
                &&& s[fl[k] as int].state == (SlotState::Free {
                    next_free: if k + 1 < fl.len() {
                        Some(fl[k + 1])
                    } else {
                        None
                    },
                })
            }
    }

    /// A table of [`DEFAULT_CAPACITY`] slots.
    pub fn new() -> (r: Self)
        ensures
            r.wf(),
            r.slots() == Seq::<SlotView>::empty(),
            r.free_list() == Seq::<u32>::empty(),
            r.spec_capacity() == DEFAULT_CAPACITY,
            r.spec_canceled() == Seq::<u64>::empty(),
            r.spec_revoked() == Seq::<u64>::empty(),
    {
        Self::with_capacity(DEFAULT_CAPACITY)
    }

    /// A table of `capacity` slots, at most [`MAX_CAPACITY`].
    pub fn with_capacity(capacity: u32) -> (r: Self)
        ensures
            r.wf(),
            r.slots() == Seq::<SlotView>::empty(),
            r.free_list() == Seq::<u32>::empty(),
            r.spec_capacity() == if capacity < MAX_CAPACITY {
                capacity
            } else {
                MAX_CAPACITY
            },
            r.spec_canceled() == Seq::<u64>::empty(),
            r.spec_revoked() == Seq::<u64>::empty(),
    {
        let capacity = if capacity < MAX_CAPACITY {
            capacity
        } else {
            MAX_CAPACITY
        };
        let r = HandleTable {
            slots: Vec::new(),
            free_head: None,
            capacity,
            canceled: Vec::new(),
            revoked: Vec::new(),
            free_list: Ghost(Seq::empty()),
        };
        proof {
            assert(r.slots() =~= Seq::<SlotView>::empty());
        }
        r
    }

    pub fn capacity(&self) -> (r: u32)
        ensures
            r == self.spec_capacity(),
    {
        self.capacity
    }

    /// Takes the first usable slot off the free list, retiring the slots
    /// before it whose generation is exhausted.
    #[verifier::rlimit(30)]
    fn pop_free_slot(&mut self) -> (r: Option<u32>)
        requires
            old(self).wf(),
        ensures
            final(self).wf(),
            final(self).slots() == slots_after_search(old(self).slots(), old(self).free_list()),
            final(self).free_list() == free_after_search(old(self).slots(), old(self).free_list()),
            final(self).spec_capacity() == old(self).spec_capacity(),
            final(self).spec_canceled() == old(self).spec_canceled(),
            final(self).spec_revoked() == old(self).spec_revoked(),
            first_usable(old(self).slots(), old(self).free_list()) < old(self).free_list().len()
                ==> r == Some(
                old(self).free_list()[first_usable(old(self).slots(), old(self).free_list())],
            ),
            first_usable(old(self).slots(), old(self).free_list()) >= old(self).free_list().len()
                ==> r is None,
            r matches Some(i) ==> {
                &&& (i as int) < final(self).slots().len()
                &&& final(self).slots()[i as int].generation < MAX_GENERATION
                &&& final(self).slots()[i as int].state is Free
                &&& forall|k: int|
                    0 <= k < final(self).free_list().len() ==> #[trigger] final(self).free_list()[k]
                        != i
            },
            keeps_dead(old(self).slots(), final(self).slots()),
    {
        let ghost s0 = self.slots();
        let ghost fl0 = self.free_list@;
        let ghost mut j: int = 0;
        proof {
            assert(fl0.skip(0) =~= fl0);
            assert(retire_prefix(s0, fl0, 0) =~= s0);
        }
        loop
            invariant
                self.capacity == old(self).capacity,
                self.canceled == old(self).canceled,
                self.revoked == old(self).revoked,
                s0 == old(self).slots(),
                fl0 == old(self).free_list(),
                old(self).wf(),
                self.wf(),
                0 <= j <= fl0.len(),
                first_usable(s0, fl0) == j + first_usable(s0, fl0.skip(j)),
                self.free_list@ == fl0.skip(j),
                self.slots() == retire_prefix(s0, fl0, j),
            decreases fl0.len() - j,
        {
            match self.free_head {
                None => {
                    proof {
                        assert(fl0.skip(j).len() == 0);
                        assert(first_usable(s0, fl0.skip(j)) == 0);
                    }
                    return None;
                },
                Some(idx) => {
                    proof {
                        assert(fl0.skip(j)[0] == fl0[j]);
                        assert(idx == fl0[j]);
                        assert(self.free_list@[0] == idx);
                        lemma_retire_step(s0, fl0, j);
                    }
                    let next = match &self.slots[idx as usize].state {
                        SlotState::Free { next_free } => *next_free,
                        _ => {
                            self.free_head = None;
                            return None;
                        },
                    };
                    self.free_head = next;
                    let ghost s_before = self.slots();
                    proof {
                        assert(fl0.skip(j).drop_first() =~= fl0.skip(j + 1));
                        assert(s_before[idx as int].generation == s0[idx as int].generation);
                    }
                    if self.slots[idx as usize].generation == MAX_GENERATION {
                        self.slots[idx as usize].state = SlotState::Retired;
                        proof {
                            self.free_list@ = fl0.skip(j + 1);
                            assert(self.slots() =~= s_before.update(
                                idx as int,
                                SlotView { state: SlotState::Retired, ..s_before[idx as int] },
                            ));
                            j = j + 1;
                            assert forall|k: int|
                                #![trigger self.free_list@[k]]
                                0 <= k < self.free_list@.len() implies self.free_list@[k]
                                != idx by {
                                assert(self.free_list@[k] == fl0[k + j]);
                            }
                        }
                        continue;
                    }
                    proof {
                        self.free_list@ = fl0.skip(j + 1);
                        assert forall|k: int|
                            #![trigger self.free_list@[k]]
                            0 <= k < self.free_list@.len() implies self.free_list@[k] != idx by {
                            assert(self.free_list@[k] == fl0[k + j + 1]);
                        }
                    }
                    return Some(idx);
                },
            }
        }
    }

    /// Puts `handle` in the first usable free slot, else in a new slot while
    /// the capacity allows. On `OutOfHandles` the handle comes back.
    pub fn try_insert(&mut self, handle: Handle) -> (r: Result<HandleId, (IpcError, Handle)>)
        requires
            old(self).wf(),
        ensures
            final(self).wf(),
            final(self).spec_capacity() == old(self).spec_capacity(),
            final(self).spec_canceled() == old(self).spec_canceled(),
            final(self).spec_revoked() == old(self).spec_revoked(),
            final(self).free_list() == free_after_search(old(self).slots(), old(self).free_list()),
            keeps_dead(old(self).slots(), final(self).slots()),
            ({
                let s1 = slots_after_search(old(self).slots(), old(self).free_list());
                match claim_target(old(self).slots(), old(self).free_list(), old(self).spec_capacity()) {
                    None => r == Err::<HandleId, (IpcError, Handle)>((IpcError::OutOfHandles, handle))
                        && final(self).slots() == s1,
                    Some(i) => r is Ok && r->Ok_0.spec_slot() == i && final(self).slots() == placed(
                        s1,
                        i,
                        SlotState::Occupied(handle),
                    ) && r->Ok_0.spec_generation() == final(self).slots()[i].generation,
                }
            }),
            r matches Ok(id) ==> resolve(final(self).slots(), id) == Some(handle),
    {
        let ghost s0 = self.slots();
        let ghost fl0 = self.free_list@;
        match self.pop_free_slot() {
            Some(idx) => {
                let ghost s1 = self.slots();
                let g = self.slots[idx as usize].generation + 1;
                self.slots[idx as usize].generation = g;
                self.slots[idx as usize].state = SlotState::Occupied(handle);
                self.slots[idx as usize].waiters = Vec::new();
                proof {
                    assert(self.slots() =~= placed(s1, idx as int, SlotState::Occupied(handle)));
                }
                Ok(HandleId::pack(g, idx))
            },
            None => {
                if self.slots.len() as u32 >= self.capacity {
                    return Err((IpcError::OutOfHandles, handle));
                }
                let ghost s1 = self.slots();
                let idx = self.slots.len() as u32;
                self.slots.push(Slot { generation: 1, state: SlotState::Occupied(handle), waiters: Vec::new() });
                proof {
                    assert(self.slots() =~= placed(s1, idx as int, SlotState::Occupied(handle)));
                }
                Ok(HandleId::pack(1, idx))
            },
        }
    }

    /// Like [`try_insert`](Self::try_insert), but a handle that finds no
    /// slot is closed.
    pub fn insert(&mut self, handle: Handle, tree: &mut RevTree) -> (r: Result<HandleId, IpcError>)
        requires
            old(self).wf(),
            old(tree).well_formed(),
        ensures
            final(self).wf(),
            final(tree).well_formed(),
            final(self).spec_capacity() == old(self).spec_capacity(),
            final(self).spec_canceled() == old(self).spec_canceled(),
            final(self).spec_revoked() == old(self).spec_revoked(),
            final(self).free_list() == free_after_search(old(self).slots(), old(self).free_list()),
            keeps_dead(old(self).slots(), final(self).slots()),
            ({
                let s1 = slots_after_search(old(self).slots(), old(self).free_list());
                match claim_target(old(self).slots(), old(self).free_list(), old(self).spec_capacity()) {
                    None => r == Err::<HandleId, IpcError>(IpcError::OutOfHandles)
                        && final(self).slots() == s1 && (handle.spec_node() < old(tree)@.len()
                        ==> final(tree)@ == old(tree)@.update(
                        handle.spec_node() as int,
                        RevNodeView { held: false, ..old(tree)@[handle.spec_node() as int] },
                    )) && (handle.spec_node() >= old(tree)@.len() ==> final(tree)@ == old(tree)@),
                    Some(i) => r is Ok && r->Ok_0.spec_slot() == i && final(self).slots() == placed(
                        s1,
                        i,
                        SlotState::Occupied(handle),
                    ) && r->Ok_0.spec_generation() == final(self).slots()[i].generation
                        && final(tree)@ == old(tree)@,
                }
            }),
            r matches Ok(id) ==> resolve(final(self).slots(), id) == Some(handle),
    {
        match self.try_insert(handle) {
            Ok(id) => Ok(id),
            Err((e, h)) => {
                h.close(tree);
                Err(e)
            },
        }
    }

    /// Reserves a slot for an entry to come; `OutOfHandles` where none is
    /// left.
    pub fn reserve_slot(&mut self) -> (r: Result<HandleReservation, IpcError>)
        requires
            old(self).wf(),
        ensures
            final(self).wf(),
            final(self).spec_capacity() == old(self).spec_capacity(),
            final(self).spec_canceled() == old(self).spec_canceled(),
            final(self).spec_revoked() == old(self).spec_revoked(),
            final(self).free_list() == free_after_search(old(self).slots(), old(self).free_list()),
            keeps_dead(old(self).slots(), final(self).slots()),
            ({
                let s1 = slots_after_search(old(self).slots(), old(self).free_list());
                match claim_target(old(self).slots(), old(self).free_list(), old(self).spec_capacity()) {
                    None => r == Err::<HandleReservation, IpcError>(IpcError::OutOfHandles)
                        && final(self).slots() == s1,
                    Some(i) => r is Ok && r->Ok_0.spec_slot() == i && final(self).slots() == placed(
                        s1,
                        i,
                        SlotState::Reserved,
                    ) && r->Ok_0.spec_generation() == final(self).slots()[i].generation,
                }
            }),
            r is Err <==> old(self).spec_room() == 0,
            r is Ok ==> final(self).spec_room() == old(self).spec_room() - 1,
    {
        proof {
            lemma_room_step(self.slots(), self.free_list(), self.spec_capacity(), SlotState::Reserved);
        }
        match self.pop_free_slot() {
            Some(idx) => {
                let ghost s1 = self.slots();
                let g = self.slots[idx as usize].generation + 1;
                self.slots[idx as usize].generation = g;
                self.slots[idx as usize].state = SlotState::Reserved;
                self.slots[idx as usize].waiters = Vec::new();
                proof {
                    assert(self.slots() =~= placed(s1, idx as int, SlotState::Reserved));
                }
                Ok(HandleReservation { slot: idx, generation: g })
            },
            None => {
                if self.slots.len() as u32 >= self.capacity {
                    return Err(IpcError::OutOfHandles);
                }
                let ghost s1 = self.slots();
                let idx = self.slots.len() as u32;
                self.slots.push(Slot { generation: 1, state: SlotState::Reserved, waiters: Vec::new() });
                proof {
                    assert(self.slots() =~= placed(s1, idx as int, SlotState::Reserved));
                }
                Ok(HandleReservation { slot: idx, generation: 1 })
            },
        }
    }

    /// Puts `handle` into the slot held by `reservation`; returns the id
    /// that the reservation predicted.
    pub fn commit_reserved(&mut self, reservation: HandleReservation, handle: Handle) -> (r: HandleId)
        requires
            old(self).wf(),
            (reservation.spec_slot() as int) < old(self).slots().len(),
            old(self).slots()[reservation.spec_slot() as int].state is Reserved,
            old(self).slots()[reservation.spec_slot() as int].generation
                == reservation.spec_generation(),
        ensures
            final(self).wf(),
            final(self).spec_capacity() == old(self).spec_capacity(),
            final(self).spec_canceled() == old(self).spec_canceled(),
            final(self).spec_revoked() == old(self).spec_revoked(),
            final(self).free_list() == old(self).free_list(),
            keeps_dead(old(self).slots(), final(self).slots()),
            final(self).slots() == old(self).slots().update(
                reservation.spec_slot() as int,
                SlotView {
                    state: SlotState::Occupied(handle),
                    ..old(self).slots()[reservation.spec_slot() as int]
                },
            ),
            r.spec_slot() == reservation.spec_slot(),
            r.spec_generation() == reservation.spec_generation(),
            r@ == reservation.predicted_raw(),
            resolve(final(self).slots(), r) == Some(handle),
    {
        proof {
            use_type_invariant(reservation);
        }
        let idx = reservation.slot as usize;
        self.slots[idx].state = SlotState::Occupied(handle);
        proof {
            assert(self.slots() =~= old(self).slots().update(
                idx as int,
                SlotView { state: SlotState::Occupied(handle), ..old(self).slots()[idx as int] },
            ));
        }
        HandleId::pack(reservation.generation, reservation.slot)
    }

    /// Gives the reserved slot back to the free list without using up its
    /// generation: no id was published for it.
    pub fn release_reservation(&mut self, reservation: HandleReservation)
        requires
            old(self).wf(),
            (reservation.spec_slot() as int) < old(self).slots().len(),
            old(self).slots()[reservation.spec_slot() as int].state is Reserved,
            old(self).slots()[reservation.spec_slot() as int].generation
                == reservation.spec_generation(),
        ensures
            final(self).wf(),
            final(self).spec_capacity() == old(self).spec_capacity(),
            final(self).spec_canceled() == old(self).spec_canceled(),
            final(self).spec_revoked() == old(self).spec_revoked(),
            final(self).free_list() == seq![reservation.spec_slot()] + old(self).free_list(),
            keeps_dead(old(self).slots(), final(self).slots()),
            final(self).slots() == old(self).slots().update(
                reservation.spec_slot() as int,
                SlotView {
                    generation: (reservation.spec_generation() - 1) as u16,
                    state: SlotState::Free {
                        next_free: if old(self).free_list().len() == 0 {
                            None
                        } else {
                            Some(old(self).free_list()[0])
                        },
                    },
                    ..old(self).slots()[reservation.spec_slot() as int]
                },
            ),
    {
        proof {
            use_type_invariant(reservation);
        }
        let idx = reservation.slot as usize;
        let prev_head = self.free_head;
        self.slots[idx].generation = reservation.generation - 1;
        self.slots[idx].state = SlotState::Free { next_free: prev_head };
        self.free_head = Some(reservation.slot);
        proof {
            let fl0 = self.free_list@;
            self.free_list@ = seq![reservation.slot] + fl0;
            assert forall|k: int| 0 <= k < fl0.len() implies #[trigger] fl0[k] != reservation.slot by {
                assert(old(self).slots()[fl0[k] as int].state is Free);
            }
            assert(self.slots() =~= old(self).slots().update(
                idx as int,
                SlotView {
                    generation: (reservation.generation - 1) as u16,
                    state: SlotState::Free { next_free: prev_head },
                    ..old(self).slots()[idx as int]
                },
            ));
            assert forall|k: int|
                #![trigger self.free_list@[k]]
                0 <= k < self.free_list@.len() implies {
                &&& (self.free_list@[k] as int) < self.slots().len()
                &&& self.slots()[self.free_list@[k] as int].state == (SlotState::Free {
                    next_free: if k + 1 < self.free_list@.len() {
                        Some(self.free_list@[k + 1])
                    } else {
                        None
                    },
                })
            } by {
                if k > 0 {
                    assert(self.free_list@[k] == fl0[k - 1]);
                }
            }
        }
    }

    /// Takes the entry that `id` names out of its slot, without revoking
    /// anything; its waiters are canceled.
    fn take_slot(&mut self, id: HandleId) -> (r: Result<Handle, IpcError>)
        requires
            old(self).wf(),
        ensures
            final(self).wf(),
            keeps_dead(old(self).slots(), final(self).slots()),
            final(self).spec_capacity() == old(self).spec_capacity(),
            final(self).spec_revoked() == old(self).spec_revoked(),
            resolve(old(self).slots(), id) is None ==> r == Err::<Handle, IpcError>(
                IpcError::BadHandle,
            ) && *final(self) == *old(self),
            resolve(old(self).slots(), id) matches Some(h) ==> {
                let i = id.spec_slot() as int;
                &&& r == Ok::<Handle, IpcError>(h)
                &&& final(self).slots() == freed(
                    old(self).slots(),
                    i,
                    list_head(old(self).free_list()),
                )
                &&& final(self).free_list() == seq![id.spec_slot()] + old(self).free_list()
                &&& final(self).spec_canceled() == old(self).spec_canceled() + old(self).slots()[i].waiters
                &&& id_dead(final(self).slots(), id)
            },
    {
        let idx = id.slot();
        if idx as usize >= self.slots.len() {
            return Err(IpcError::BadHandle);
        }
        if self.slots[idx as usize].generation != id.generation() {
            return Err(IpcError::BadHandle);
        }
        if let SlotState::Occupied(_) = &self.slots[idx as usize].state {
        } else {
            return Err(IpcError::BadHandle);
        }
        let prev_head = self.free_head;
        let mut taken = SlotState::Free { next_free: prev_head };
        core::mem::swap(&mut self.slots[idx as usize].state, &mut taken);
        let mut waiters: Vec<u64> = Vec::new();
        core::mem::swap(&mut self.slots[idx as usize].waiters, &mut waiters);
        self.canceled.append(&mut waiters);
        self.free_head = Some(idx);
        proof {
            let fl0 = self.free_list@;
            self.free_list@ = seq![idx] + fl0;
            assert forall|k: int| 0 <= k < fl0.len() implies #[trigger] fl0[k] != idx by {
                assert(old(self).slots()[fl0[k] as int].state is Free);
            }
            assert(self.slots() =~= freed(old(self).slots(), idx as int, prev_head));
            assert forall|k: int|
                #![trigger self.free_list@[k]]
                0 <= k < self.free_list@.len() implies {
                &&& (self.free_list@[k] as int) < self.slots().len()
                &&& self.slots()[self.free_list@[k] as int].state == (SlotState::Free {
                    next_free: if k + 1 < self.free_list@.len() {
                        Some(self.free_list@[k + 1])
                    } else {
                        None
                    },
                })
            } by {
                if k > 0 {
                    assert(self.free_list@[k] == fl0[k - 1]);
                }
            }
        }
        match taken {
            SlotState::Occupied(h) => Ok(h),
            _ => Err(IpcError::BadHandle),
        }
    }

    /// Takes the entry that `id` names out of the table: its waiters are
    /// canceled and the revocation hooks of its capability's live subtree
    /// fire. `BadHandle` where `id` names no entry. The handle comes back
    /// still holding its node; closing it revokes what was derived from it.
    pub fn remove(&mut self, id: HandleId, tree: &RevTree) -> (r: Result<Handle, IpcError>)
        requires
            old(self).wf(),
            tree.well_formed(),
        ensures
            final(self).wf(),
            keeps_dead(old(self).slots(), final(self).slots()),
            final(self).spec_capacity() == old(self).spec_capacity(),
            resolve(old(self).slots(), id) is None ==> r == Err::<Handle, IpcError>(
                IpcError::BadHandle,
            ) && *final(self) == *old(self),
            resolve(old(self).slots(), id) matches Some(h) ==> {
                let i = id.spec_slot() as int;
                let n = old(self).spec_revoked().len() as int;
                &&& r == Ok::<Handle, IpcError>(h)
                &&& final(self).slots() == freed(
                    old(self).slots(),
                    i,
                    list_head(old(self).free_list()),
                )
                &&& final(self).free_list() == seq![id.spec_slot()] + old(self).free_list()
                &&& final(self).spec_canceled() == old(self).spec_canceled() + old(self).slots()[i].waiters
                &&& id_dead(final(self).slots(), id)
                &&& final(self).spec_revoked().len() >= n
                &&& final(self).spec_revoked().take(n) == old(self).spec_revoked()
                &&& forall|t: u64|
                    #[trigger] final(self).spec_revoked().skip(n).contains(t) <==> subtree_hook(
                        tree@,
                        h.spec_node() as int,
                        t,
                    )
            },
    {
        let handle = self.take_slot(id)?;
        let mut fired = tree.revoke_subtree(handle.node());
        let ghost f = fired@;
        let ghost before = self.revoked@;
        self.revoked.append(&mut fired);
        proof {
            assert(self.revoked@.take(before.len() as int) =~= before);
            assert(self.revoked@.skip(before.len() as int) =~= f);
        }
        Ok(handle)
    }

    /// Registers the cancel token `target` on the entry that `id` names: it
    /// is canceled when the entry leaves the table. `BadHandle` where `id`
    /// names no entry.
    pub fn register_cancel(&mut self, id: HandleId, target: u64) -> (r: Result<(), IpcError>)
        requires
            old(self).wf(),
        ensures
            final(self).wf(),
            final(self).spec_capacity() == old(self).spec_capacity(),
            final(self).spec_canceled() == old(self).spec_canceled(),
            final(self).spec_revoked() == old(self).spec_revoked(),
            final(self).free_list() == old(self).free_list(),
            keeps_dead(old(self).slots(), final(self).slots()),
            resolve(old(self).slots(), id) is None ==> r == Err::<(), IpcError>(IpcError::BadHandle)
                && final(self).slots() == old(self).slots(),
            resolve(old(self).slots(), id) is Some ==> r is Ok && final(self).slots() == old(self).slots().update(
                id.spec_slot() as int,
                SlotView {
                    waiters: old(self).slots()[id.spec_slot() as int].waiters.push(target),
                    ..old(self).slots()[id.spec_slot() as int]
                },
            ),
    {
        let idx = id.slot() as usize;
        if idx >= self.slots.len() {
            return Err(IpcError::BadHandle);
        }
        if self.slots[idx].generation != id.generation() {
            return Err(IpcError::BadHandle);
        }
        if let SlotState::Occupied(_) = &self.slots[idx].state {
        } else {
            return Err(IpcError::BadHandle);
        }
        self.slots[idx].waiters.push(target);
        proof {
            assert(self.slots() =~= old(self).slots().update(
                idx as int,
                SlotView {
                    waiters: old(self).slots()[idx as int].waiters.push(target),
                    ..old(self).slots()[idx as int]
                },
            ));
        }
        Ok(())
    }

    /// Drops the first registration of `target` from the slot of `id`,
    /// whatever its generation; the last registration takes its place.
    pub fn unregister_cancel(&mut self, id: HandleId, target: u64)
        requires
            old(self).wf(),
        ensures
            final(self).wf(),
            final(self).spec_capacity() == old(self).spec_capacity(),
            final(self).spec_canceled() == old(self).spec_canceled(),
            final(self).spec_revoked() == old(self).spec_revoked(),
            final(self).free_list() == old(self).free_list(),
            keeps_dead(old(self).slots(), final(self).slots()),
            ({
                let i = id.spec_slot() as int;
                if i < old(self).slots().len() && old(self).slots()[i].waiters.contains(target) {
                    let w = old(self).slots()[i].waiters;
                    let pos = first_index(w, target);
                    final(self).slots() == old(self).slots().update(
                        i,
                        SlotView {
                            waiters: w.update(pos, w.last()).drop_last(),
                            ..old(self).slots()[i]
                        },
                    )
                } else {
                    final(self).slots() == old(self).slots()
                }
            }),
    {
        let idx = id.slot() as usize;
        if idx >= self.slots.len() {
            return;
        }
        let ghost w = self.slots()[idx as int].waiters;
        let mut pos: usize = 0;
        let n = self.slots[idx].waiters.len();
        proof {
            assert(w.skip(0) =~= w);
        }
        while pos < n
            invariant
                idx < self.slots@.len(),
                w == self.slots()[idx as int].waiters,
                n == w.len(),
                pos <= n,
                first_index(w, target) == pos + first_index(w.skip(pos as int), target),
                forall|m: int| 0 <= m < pos ==> w[m] != target,
            ensures
                pos <= n,
                pos < n ==> w[pos as int] == target,
                first_index(w, target) == pos + first_index(w.skip(pos as int), target),
                forall|m: int| 0 <= m < pos ==> w[m] != target,
            decreases n - pos,
        {
            proof {
                assert(w.skip(pos as int)[0] == w[pos as int]);
                assert(w.skip(pos as int).drop_first() =~= w.skip(pos + 1));
            }
            if self.slots[idx].waiters[pos] == target {
                break;
            }
            pos = pos + 1;
        }
        if pos < n {
            proof {
                assert(w.skip(pos as int)[0] == w[pos as int]);
                assert(w[pos as int] == target);
                assert(first_index(w, target) == pos);
            }
            self.slots[idx].waiters.swap_remove(pos);
            proof {
                assert(self.slots() =~= old(self).slots().update(
                    idx as int,
                    SlotView { waiters: w.update(pos as int, w.last()).drop_last(), ..old(self).slots()[idx as int] },
                ));
            }
        } else {
            proof {
                assert forall|m: int| 0 <= m < w.len() implies w[m] != target by {}
            }
        }
    }

    /// Takes the cancel tokens collected so far.
    pub fn take_canceled(&mut self) -> (r: Vec<u64>)
        requires
            old(self).wf(),
        ensures
            final(self).wf(),
            r@ == old(self).spec_canceled(),
            final(self).spec_canceled() == Seq::<u64>::empty(),
            final(self).slots() == old(self).slots(),
            final(self).free_list() == old(self).free_list(),
            final(self).spec_capacity() == old(self).spec_capacity(),
            final(self).spec_revoked() == old(self).spec_revoked(),
    {
        let mut out: Vec<u64> = Vec::new();
        core::mem::swap(&mut out, &mut self.canceled);
        out
    }

    /// Takes the revocation hooks fired so far.
    pub fn take_revoked(&mut self) -> (r: Vec<u64>)
        requires
            old(self).wf(),
        ensures
            final(self).wf(),
            r@ == old(self).spec_revoked(),
            final(self).spec_revoked() == Seq::<u64>::empty(),
            final(self).slots() == old(self).slots(),
            final(self).free_list() == old(self).free_list(),
            final(self).spec_capacity() == old(self).spec_capacity(),
            final(self).spec_canceled() == old(self).spec_canceled(),
    {
        let mut out: Vec<u64> = Vec::new();
        core::mem::swap(&mut out, &mut self.revoked);
        out
    }

    /// The entry that `id` names, where its capability is not revoked.
    fn lookup(&self, id: HandleId, tree: &RevTree) -> (r: Result<&Handle, IpcError>)
        requires
            self.wf(),
            tree.well_formed(),
        ensures
            match r {
                Ok(h) => lookup_result(self.slots(), id, tree@) == Ok::<Handle, IpcError>(*h),
                Err(e) => lookup_result(self.slots(), id, tree@) == Err::<Handle, IpcError>(e),
            },
    {
        let idx = id.slot() as usize;
        if idx >= self.slots.len() {
            return Err(IpcError::BadHandle);
        }
        let slot = &self.slots[idx];
        if slot.generation != id.generation() {
            return Err(IpcError::BadHandle);
        }
        match &slot.state {
            SlotState::Occupied(handle) => {
                if tree.is_alive(handle.node()) {
                    Ok(handle)
                } else {
                    Err(IpcError::Revoked)
                }
            },
            _ => Err(IpcError::BadHandle),
        }
    }

    /// The entry that `id` names, checking its rights but not its type:
    /// `BadHandle`, `Revoked` or `AccessDenied` otherwise.
    pub fn get(&self, id: HandleId, need: Rights, tree: &RevTree) -> (r: Result<&Handle, IpcError>)
        requires
            self.wf(),
            tree.well_formed(),
        ensures
            match r {
                Ok(h) => get_result(self.slots(), id, need, tree@) == Ok::<Handle, IpcError>(*h),
                Err(e) => get_result(self.slots(), id, need, tree@) == Err::<Handle, IpcError>(e),
            },
    {
        let handle = self.lookup(id, tree)?;
        if !handle.rights().contains(need) {
            return Err(IpcError::AccessDenied);
        }
        Ok(handle)
    }

    /// The port that `id` names, checking rights and type.
    pub fn get_port(&self, id: HandleId, need: Rights, tree: &RevTree) -> (r: Result<Arc<Port>, IpcError>)
        requires
            self.wf(),
            tree.well_formed(),
        ensures
            match get_result(self.slots(), id, need, tree@) {
                Err(e) => r == Err::<Arc<Port>, IpcError>(e),
                Ok(h) => match h.spec_object() {
                    KObject::Port(x) => r == Ok::<Arc<Port>, IpcError>(x),
                    _ => r == Err::<Arc<Port>, IpcError>(IpcError::WrongType),
                },
            },
    {
        let h = self.get(id, need, tree)?;
        match &h.object() {
            KObject::Port(x) => Ok(x.clone()),
            _ => Err(IpcError::WrongType),
        }
    }

    /// The reply object that `id` names, checking rights and type.
    pub fn get_reply(&self, id: HandleId, need: Rights, tree: &RevTree) -> (r: Result<Arc<Reply>, IpcError>)
        requires
            self.wf(),
            tree.well_formed(),
        ensures
            match get_result(self.slots(), id, need, tree@) {
                Err(e) => r == Err::<Arc<Reply>, IpcError>(e),
                Ok(h) => match h.spec_object() {
                    KObject::Reply(x) => r == Ok::<Arc<Reply>, IpcError>(x),
                    _ => r == Err::<Arc<Reply>, IpcError>(IpcError::WrongType),
                },
            },
    {
        let h = self.get(id, need, tree)?;
        match &h.object() {
            KObject::Reply(x) => Ok(x.clone()),
            _ => Err(IpcError::WrongType),
        }
    }

    /// The signal that `id` names, checking rights and type.
    pub fn get_signal(&self, id: HandleId, need: Rights, tree: &RevTree) -> (r: Result<Arc<Signal>, IpcError>)
        requires
            self.wf(),
            tree.well_formed(),
        ensures
            match get_result(self.slots(), id, need, tree@) {
                Err(e) => r == Err::<Arc<Signal>, IpcError>(e),
                Ok(h) => match h.spec_object() {
                    KObject::Signal(x) => r == Ok::<Arc<Signal>, IpcError>(x),
                    _ => r == Err::<Arc<Signal>, IpcError>(IpcError::WrongType),
                },
            },
    {
        let h = self.get(id, need, tree)?;
        match &h.object() {
            KObject::Signal(x) => Ok(x.clone()),
            _ => Err(IpcError::WrongType),
        }
    }

    /// The process that `id` names, checking rights and type.
    pub fn get_process(&self, id: HandleId, need: Rights, tree: &RevTree) -> (r: Result<Arc<ProcessObject>, IpcError>)
        requires
            self.wf(),
            tree.well_formed(),
        ensures
            match get_result(self.slots(), id, need, tree@) {
                Err(e) => r == Err::<Arc<ProcessObject>, IpcError>(e),
                Ok(h) => match h.spec_object() {
                    KObject::Process(x) => r == Ok::<Arc<ProcessObject>, IpcError>(x),
                    _ => r == Err::<Arc<ProcessObject>, IpcError>(IpcError::WrongType),
                },
            },
    {
        let h = self.get(id, need, tree)?;
        match &h.object() {
            KObject::Process(x) => Ok(x.clone()),
            _ => Err(IpcError::WrongType),
        }
    }

    /// The thread that `id` names, checking rights and type.
    pub fn get_thread(&self, id: HandleId, need: Rights, tree: &RevTree) -> (r: Result<Arc<ThreadObject>, IpcError>)
        requires
            self.wf(),
            tree.well_formed(),
        ensures
            match get_result(self.slots(), id, need, tree@) {
                Err(e) => r == Err::<Arc<ThreadObject>, IpcError>(e),
                Ok(h) => match h.spec_object() {
                    KObject::Thread(x) => r == Ok::<Arc<ThreadObject>, IpcError>(x),
                    _ => r == Err::<Arc<ThreadObject>, IpcError>(IpcError::WrongType),
                },
            },
    {
        let h = self.get(id, need, tree)?;
        match &h.object() {
            KObject::Thread(x) => Ok(x.clone()),
            _ => Err(IpcError::WrongType),
        }
    }

    /// The memory region that `id` names, checking rights and type.
    pub fn get_memory(&self, id: HandleId, need: Rights, tree: &RevTree) -> (r: Result<Arc<MemoryRegion>, IpcError>)
        requires
            self.wf(),
            tree.well_formed(),
        ensures
            match get_result(self.slots(), id, need, tree@) {
                Err(e) => r == Err::<Arc<MemoryRegion>, IpcError>(e),
                Ok(h) => match h.spec_object() {
                    KObject::Memory(x) => r == Ok::<Arc<MemoryRegion>, IpcError>(x),
                    _ => r == Err::<Arc<MemoryRegion>, IpcError>(IpcError::WrongType),
                },
            },
    {
        let h = self.get(id, need, tree)?;
        match &h.object() {
            KObject::Memory(x) => Ok(x.clone()),
            _ => Err(IpcError::WrongType),
        }
    }

    /// The physical resource that `id` names, checking rights and type.
    pub fn get_resource(&self, id: HandleId, need: Rights, tree: &RevTree) -> (r: Result<Arc<PhysicalResource>, IpcError>)
        requires
            self.wf(),
            tree.well_formed(),
        ensures
            match get_result(self.slots(), id, need, tree@) {
                Err(e) => r == Err::<Arc<PhysicalResource>, IpcError>(e),
                Ok(h) => match h.spec_object() {
                    KObject::Resource(x) => r == Ok::<Arc<PhysicalResource>, IpcError>(x),
                    _ => r == Err::<Arc<PhysicalResource>, IpcError>(IpcError::WrongType),
                },
            },
    {
        let h = self.get(id, need, tree)?;
        match &h.object() {
            KObject::Resource(x) => Ok(x.clone()),
            _ => Err(IpcError::WrongType),
        }
    }

    /// The port that `id` names together with the handle's badge.
    pub fn get_port_with_badge(&self, id: HandleId, need: Rights, tree: &RevTree) -> (r: Result<
        (Arc<Port>, u64),
        IpcError,
    >)
        requires
            self.wf(),
            tree.well_formed(),
        ensures
            match get_result(self.slots(), id, need, tree@) {
                Err(e) => r == Err::<(Arc<Port>, u64), IpcError>(e),
                Ok(h) => match h.spec_object() {
                    KObject::Port(x) => r == Ok::<(Arc<Port>, u64), IpcError>((x, h.spec_badge())),
                    _ => r == Err::<(Arc<Port>, u64), IpcError>(IpcError::WrongType),
                },
            },
    {
        let h = self.get(id, need, tree)?;
        match &h.object() {
            KObject::Port(x) => Ok((x.clone(), h.badge())),
            _ => Err(IpcError::WrongType),
        }
    }

    /// The memory region that `id` names together with all the handle's
    /// rights.
    pub fn get_memory_with_rights(&self, id: HandleId, need: Rights, tree: &RevTree) -> (r: Result<
        (Arc<MemoryRegion>, Rights),
        IpcError,
    >)
        requires
            self.wf(),
            tree.well_formed(),
        ensures
            match get_result(self.slots(), id, need, tree@) {
                Err(e) => r == Err::<(Arc<MemoryRegion>, Rights), IpcError>(e),
                Ok(h) => match h.spec_object() {
                    KObject::Memory(x) => r == Ok::<(Arc<MemoryRegion>, Rights), IpcError>(
                        (x, h.spec_rights()),
                    ),
                    _ => r == Err::<(Arc<MemoryRegion>, Rights), IpcError>(IpcError::WrongType),
                },
            },
    {
        let h = self.get(id, need, tree)?;
        match &h.object() {
            KObject::Memory(x) => Ok((x.clone(), h.rights())),
            _ => Err(IpcError::WrongType),
        }
    }

    /// The object that `id` names, of whatever type.
    pub fn clone_object(&self, id: HandleId, need: Rights, tree: &RevTree) -> (r: Result<
        KObject,
        IpcError,
    >)
        requires
            self.wf(),
            tree.well_formed(),
        ensures
            match get_result(self.slots(), id, need, tree@) {
                Err(e) => r == Err::<KObject, IpcError>(e),
                Ok(h) => r == Ok::<KObject, IpcError>(h.spec_object()),
            },
    {
        let h = self.get(id, need, tree)?;
        Ok(h.object().clone_object())
    }

    /// Registers the revocation hook `hook` on the capability that `id`
    /// names: it fires when the capability or one of its ancestors closes.
    pub fn register_revocation_hook(&self, id: HandleId, hook: u64, tree: &mut RevTree) -> (r:
        Result<(), IpcError>)
        requires
            self.wf(),
            old(tree).well_formed(),
        ensures
            final(tree).well_formed(),
            match lookup_result(self.slots(), id, old(tree)@) {
                Err(e) => r == Err::<(), IpcError>(e) && final(tree)@ == old(tree)@,
                Ok(h) => r is Ok && final(tree)@ == old(tree)@.update(
                    h.spec_node() as int,
                    RevNodeView {
                        hooks: old(tree)@[h.spec_node() as int].hooks.push(hook),
                        ..old(tree)@[h.spec_node() as int]
                    },
                ),
            },
    {
        let node = self.lookup(id, tree)?.node();
        tree.register_hook(node, hook);
        Ok(())
    }

    /// A new entry on the object of `id`, with a subset of its rights and,
    /// where it has none yet, a badge; the copy's capability derives from
    /// the source's. Errors of the lookup, of [`Handle::duplicate`], then
    /// `OutOfHandles`, on which the copy is closed.
    #[verifier::spinoff_prover]
    #[verifier::rlimit(100)]
    pub fn duplicate(&mut self, id: HandleId, new_rights: Rights, new_badge: u64, tree: &mut RevTree) -> (r:
        Result<HandleId, IpcError>)
        requires
            old(self).wf(),
            old(tree).well_formed(),
        ensures
            final(self).wf(),
            final(tree).well_formed(),
            keeps_dead(old(self).slots(), final(self).slots()),
            final(self).spec_capacity() == old(self).spec_capacity(),
            final(self).spec_canceled() == old(self).spec_canceled(),
            final(self).spec_revoked() == old(self).spec_revoked(),
            match lookup_result(old(self).slots(), id, old(tree)@) {
                Err(e) => r == Err::<HandleId, IpcError>(e) && *final(self) == *old(self) && final(tree)@ == old(tree)@,
                Ok(h) => match duplicate_error(h, new_rights, new_badge) {
                    Some(e) => r == Err::<HandleId, IpcError>(e) && *final(self) == *old(self)
                        && final(tree)@ == old(tree)@,
                    None => {
                        let s1 = slots_after_search(old(self).slots(), old(self).free_list());
                        let n = old(tree)@.len() as int;
                        let child = RevNodeView {
                            parent: Some(h.spec_node() as int),
                            held: true,
                            hooks: seq![],
                        };
                        &&& final(self).free_list() == free_after_search(
                            old(self).slots(),
                            old(self).free_list(),
                        )
                        &&& match claim_target(
                            old(self).slots(),
                            old(self).free_list(),
                            old(self).spec_capacity(),
                        ) {
                            None => r == Err::<HandleId, IpcError>(IpcError::OutOfHandles)
                                && final(self).slots() == s1 && final(tree)@ == old(tree)@.push(
                                RevNodeView { held: false, ..child },
                            ),
                            Some(i) => {
                                &&& r is Ok
                                &&& r->Ok_0.spec_slot() == i
                                &&& final(tree)@ == old(tree)@.push(child)
                                &&& resolve(final(self).slots(), r->Ok_0) matches Some(d)
                                &&& is_duplicate_of(d, h, new_rights, new_badge, n)
                                &&& final(self).slots() == placed(s1, i, SlotState::Occupied(d))
                            },
                        }
                    },
                },
            },
    {
        let dup = {
            let handle = self.lookup(id, tree)?;
            handle.duplicate(new_rights, new_badge, tree)?
        };
        let ghost t1 = tree@;
        let r = self.insert(dup, tree);
        proof {
            if r is Err {
                assert(tree@ =~= t1.update(
                    dup.spec_node() as int,
                    RevNodeView { held: false, ..t1[dup.spec_node() as int] },
                ));
            }
        }
        r
    }

    /// Takes the entries of `ids` out of the table for a transfer, all or
    /// none: `BadHandle` where an id occurs twice, else the error of the
    /// first id that fails the lookup with `min_rights`, with the table
    /// left unchanged. Their waiters are canceled; nothing is revoked.
    pub fn try_drain_for_transfer(&mut self, ids: &[HandleId], min_rights: Rights, tree: &RevTree) -> (r:
        Result<Vec<Handle>, IpcError>)
        requires
            old(self).wf(),
            tree.well_formed(),
        ensures
            final(self).wf(),
            keeps_dead(old(self).slots(), final(self).slots()),
            final(self).spec_capacity() == old(self).spec_capacity(),
            final(self).spec_revoked() == old(self).spec_revoked(),
            has_duplicate_id(ids@) ==> r == Err::<Vec<Handle>, IpcError>(IpcError::BadHandle)
                && *final(self) == *old(self),
            !has_duplicate_id(ids@) ==> (first_failure(old(self).slots(), ids@, min_rights, tree@)
                matches Some(e) ==> r == Err::<Vec<Handle>, IpcError>(e) && *final(self) == *old(self)),
            !has_duplicate_id(ids@) && first_failure(old(self).slots(), ids@, min_rights, tree@)
                is None ==> {
                let d = drained(old(self).slots(), old(self).free_list(), ids@);
                &&& r is Ok
                &&& r->Ok_0@.len() == ids@.len()
                &&& forall|k: int|
                    0 <= k < ids@.len() ==> resolve(old(self).slots(), #[trigger] ids@[k]) == Some(
                        r->Ok_0@[k],
                    )
                &&& final(self).slots() == d.0
                &&& final(self).free_list() == d.1
                &&& final(self).spec_canceled() == old(self).spec_canceled() + d.2
                &&& forall|k: int| 0 <= k < ids@.len() ==> id_dead(final(self).slots(), #[trigger] ids@[k])
            },
    {
        let n = ids.len();
        let mut i: usize = 0;
        while i < n
            invariant
                n == ids@.len(),
                i <= n,
                *self == *old(self),
                old(self).wf(),
                forall|a: int, b: int| 0 <= a < b < i ==> #[trigger] ids@[a] != #[trigger] ids@[b],
            decreases n - i,
        {
            let mut j: usize = 0;
            while j < i
                invariant
                    n == ids@.len(),
                    j <= i < n,
                    *self == *old(self),
                    old(self).wf(),
                    forall|a: int| 0 <= a < j ==> #[trigger] ids@[a] != ids@[i as int],
                decreases i - j,
            {
                if ids[j] == ids[i] {
                    proof {
                        assert(ids@[j as int] == ids@[i as int]);
                        assert(has_duplicate_id(ids@));
                    }
                    return Err(IpcError::BadHandle);
                }
                j = j + 1;
            }
            i = i + 1;
        }
        proof {
            assert(!has_duplicate_id(ids@));
        }
        let mut k: usize = 0;
        proof {
            assert(ids@.skip(0) =~= ids@);
        }
        while k < n
            invariant
                n == ids@.len(),
                k <= n,
                *self == *old(self),
                self.wf(),
                !has_duplicate_id(ids@),
                tree.well_formed(),
                first_failure(self.slots(), ids@, min_rights, tree@) == first_failure(
                    self.slots(),
                    ids@.skip(k as int),
                    min_rights,
                    tree@,
                ),
                forall|m: int|
                    0 <= m < k ==> get_result(self.slots(), #[trigger] ids@[m], min_rights, tree@) is Ok,
            decreases n - k,
        {
            proof {
                assert(ids@.skip(k as int)[0] == ids@[k as int]);
                assert(ids@.skip(k as int).drop_first() =~= ids@.skip(k + 1));
            }
            match self.get(ids[k], min_rights, tree) {
                Err(e) => {
                    return Err(e);
                },
                Ok(_) => {},
            }
            k = k + 1;
        }
        proof {
            assert(forall|m: int| 0 <= m < n ==> resolve(self.slots(), #[trigger] ids@[m]) is Some);
        }
        let ghost s0 = self.slots();
        let ghost fl0 = self.free_list();
        let ghost c0 = self.spec_canceled();
        let mut out: Vec<Handle> = Vec::new();
        let mut k: usize = 0;
        proof {
            assert(ids@.take(0) =~= Seq::<HandleId>::empty());
            assert(c0 + drained(s0, fl0, ids@.take(0)).2 =~= c0);
        }
        while k < n
            invariant
                n == ids@.len(),
                k <= n,
                self.wf(),
                keeps_dead(s0, self.slots()),
                s0 == old(self).slots(),
                self.spec_capacity() == old(self).spec_capacity(),
                self.spec_revoked() == old(self).spec_revoked(),
                c0 == old(self).spec_canceled(),
                fl0 == old(self).free_list(),
                forall|a: int, b: int| 0 <= a < b < n ==> #[trigger] ids@[a] != #[trigger] ids@[b],
                forall|m: int| 0 <= m < n ==> resolve(s0, #[trigger] ids@[m]) is Some,
                forall|m: int| k <= m < n ==> resolve(self.slots(), #[trigger] ids@[m]) == resolve(s0, ids@[m]),
                forall|m: int| 0 <= m < k ==> id_dead(self.slots(), #[trigger] ids@[m]),
                self.slots() == drained(s0, fl0, ids@.take(k as int)).0,
                self.free_list() == drained(s0, fl0, ids@.take(k as int)).1,
                self.spec_canceled() == c0 + drained(s0, fl0, ids@.take(k as int)).2,
                out@.len() == k,
                forall|m: int| 0 <= m < k ==> resolve(s0, #[trigger] ids@[m]) == Some(out@[m]),
            decreases n - k,
        {
            let ghost before = self.slots();
            let ghost cb = self.spec_canceled();
            let id = ids[k];
            proof {
                assert(ids@.take(k + 1).drop_last() =~= ids@.take(k as int));
                assert(ids@.take(k + 1).last() == id);
                assert(resolve(before, ids@[k as int]) == resolve(s0, ids@[k as int]));
                assert forall|m: int| k < m < n implies ids@[m].spec_slot() != id.spec_slot() by {
                    if ids@[m].spec_slot() == id.spec_slot() {
                        assert(resolve(before, ids@[m]) is Some);
                        assert(resolve(before, id) is Some);
                        super::handle_id::lemma_handle_id_determined(ids@[m], id);
                    }
                }
            }
            match self.take_slot(id) {
                Ok(h) => {
                    out.push(h);
                },
                Err(_) => {
                    return Err(IpcError::BadHandle);
                },
            }
            proof {
                assert(self.spec_canceled() =~= c0 + drained(s0, fl0, ids@.take(k + 1)).2);
                assert forall|m: int| 0 <= m < k + 1 implies id_dead(self.slots(), #[trigger] ids@[m]) by {
                    if m < k {
                        assert(id_dead(before, ids@[m]));
                    }
                }
            }
            k = k + 1;
        }
        proof {
            assert(ids@.take(n as int) =~= ids@);
        }
        Ok(out)
    }

    /// Ends the table with its process: every waiter is canceled, every
    /// entry's live subtree fires its revocation hooks (measured before any
    /// entry closes), then every entry closes. Returns the cancel tokens and
    /// the fired hooks, after those collected before.
    pub fn destroy(self, tree: &mut RevTree) -> (r: (Vec<u64>, Vec<u64>))
        requires
            self.wf(),
            old(tree).well_formed(),
        ensures
            final(tree).well_formed(),
            r.0@ == self.spec_canceled() + all_waiters(self.slots()),
            r.1@.len() >= self.spec_revoked().len(),
            r.1@.take(self.spec_revoked().len() as int) == self.spec_revoked(),
            forall|t: u64|
                #[trigger] r.1@.skip(self.spec_revoked().len() as int).contains(t) <==> fires_hook(
                    self.slots(),
                    self.slots().len() as int,
                    old(tree)@,
                    t,
                ),
            final(tree)@.len() == old(tree)@.len(),
            forall|j: int|
                0 <= j < old(tree)@.len() ==> #[trigger] final(tree)@[j] == if holds_node(
                    self.slots(),
                    self.slots().len() as int,
                    j,
                ) {
                    RevNodeView { held: false, ..old(tree)@[j] }
                } else {
                    old(tree)@[j]
                },
    {
        let ghost s0 = self.slots();
        let ghost t0 = tree@;
        let ghost r0 = self.revoked@;
        let ghost n0 = r0.len() as int;
        let mut slots = self.slots;
        let mut canceled = self.canceled;
        let mut revoked = self.revoked;
        let n = slots.len();
        let mut i: usize = 0;
        proof {
            assert(s0.take(0) =~= Seq::<SlotView>::empty());
            assert(canceled@ + all_waiters(s0.take(0)) =~= canceled@);
            assert(revoked@.skip(n0) =~= Seq::<u64>::empty());
        }
        while i < n
            invariant
                n == slots@.len(),
                n == s0.len(),
                i <= n,
                tree.well_formed(),
                tree@ == t0,
                forall|j: int| 0 <= j < n ==> (#[trigger] slots@[j]).state == s0[j].state,
                forall|j: int| i <= j < n ==> (#[trigger] slots@[j]).waiters@ == s0[j].waiters,
                canceled@ == self.spec_canceled() + all_waiters(s0.take(i as int)),
                n0 == r0.len(),
                revoked@.len() >= n0,
                revoked@.take(n0) == r0,
                forall|t: u64|
                    #[trigger] revoked@.skip(n0).contains(t) <==> fires_hook(s0, i as int, t0, t),
            decreases n - i,
        {
            let mut w: Vec<u64> = Vec::new();
            core::mem::swap(&mut slots[i].waiters, &mut w);
            canceled.append(&mut w);
            proof {
                assert(s0.take(i + 1).drop_last() =~= s0.take(i as int));
            }
            let ghost before = revoked@;
            if let SlotState::Occupied(h) = &slots[i].state {
                let mut fired = tree.revoke_subtree(h.node());
                let ghost f = fired@;
                revoked.append(&mut fired);
                proof {
                    assert(revoked@ == before + f);
                    assert(before.len() >= n0);
                    assert forall|m: int| 0 <= m < n0 implies revoked@.take(n0)[m] == before.take(n0)[m] by {
                        assert(revoked@[m] == before[m]);
                    }
                    assert(revoked@.take(n0) =~= before.take(n0));
                    assert(revoked@.skip(n0) =~= before.skip(n0) + f);
                    assert forall|t: u64| #[trigger] revoked@.skip(n0).contains(t) <==> fires_hook(s0, i + 1, t0, t) by {
                        if f.contains(t) {
                            assert(s0[i as int].state is Occupied);
                        }
                        if fires_hook(s0, i + 1, t0, t) && !fires_hook(s0, i as int, t0, t) {
                            assert(f.contains(t));
                        }
                        if before.skip(n0).contains(t) {
                            let m = choose|m: int| 0 <= m < before.skip(n0).len() && before.skip(n0)[m] == t;
                            assert(revoked@.skip(n0)[m] == t);
                        }
                        if f.contains(t) {
                            let m = choose|m: int| 0 <= m < f.len() && f[m] == t;
                            assert(revoked@.skip(n0)[before.skip(n0).len() + m] == t);
                        }
                    }
                }
            } else {
                proof {
                    assert forall|t: u64| #[trigger] revoked@.skip(n0).contains(t) <==> fires_hook(s0, i + 1, t0, t) by {
                        if fires_hook(s0, i + 1, t0, t) {
                            let m = choose|m: int| 0 <= m < i + 1 && #[trigger] s0[m].state is Occupied && subtree_hook(t0, s0[m].state->Occupied_0.spec_node() as int, t);
                            assert(m != i);
                        }
                    }
                }
            }
            i = i + 1;
        }
        proof {
            assert(s0.take(n as int) =~= s0);
        }
        let mut i: usize = 0;
        while i < n
            invariant
                n == slots@.len(),
                n == s0.len(),
                i <= n,
                tree.well_formed(),
                tree@.len() == t0.len(),
                forall|j: int| 0 <= j < n ==> (#[trigger] slots@[j]).state == s0[j].state,
                forall|j: int|
                    0 <= j < t0.len() ==> #[trigger] tree@[j] == if holds_node(s0, i as int, j) {
                        RevNodeView { held: false, ..t0[j] }
                    } else {
                        t0[j]
                    },
            decreases n - i,
        {
            if let SlotState::Occupied(h) = &slots[i].state {
                let node = h.node();
                let ghost tb = tree@;
                tree.release(node);
                proof {
                    assert(s0[i as int].state is Occupied);
                    assert forall|j: int| 0 <= j < t0.len() implies #[trigger] tree@[j] == if holds_node(s0, i + 1, j) {
                        RevNodeView { held: false, ..t0[j] }
                    } else {
                        t0[j]
                    } by {
                        if j == node as int {
                            assert(holds_node(s0, i + 1, j));
                        } else if holds_node(s0, i + 1, j) {
                            let m = choose|m: int| 0 <= m < i + 1 && #[trigger] s0[m].state is Occupied && s0[m].state->Occupied_0.spec_node() == j;
                            assert(m != i);
                            assert(holds_node(s0, i as int, j));
                        } else {
                            assert(!holds_node(s0, i as int, j));
                        }
                    }
                }
            } else {
                proof {
                    assert forall|j: int| 0 <= j < t0.len() implies #[trigger] tree@[j] == if holds_node(s0, i + 1, j) {
                        RevNodeView { held: false, ..t0[j] }
                    } else {
                        t0[j]
                    } by {
                        if holds_node(s0, i + 1, j) {
                            let m = choose|m: int| 0 <= m < i + 1 && #[trigger] s0[m].state is Occupied && s0[m].state->Occupied_0.spec_node() == j;
                            assert(m != i);
                            assert(holds_node(s0, i as int, j));
                        }
                    }
                }
            }
            i = i + 1;
        }
        (canceled, revoked)
    }

    /// Reserves `n` slots, all or none: on `OutOfHandles` the reservations
    /// made so far are released. No entry changes either way.
    pub fn reserve_slots(&mut self, n: usize) -> (r: Result<Vec<HandleReservation>, IpcError>)
        requires
            old(self).wf(),
        ensures
            final(self).wf(),
            final(self).spec_capacity() == old(self).spec_capacity(),
            final(self).spec_canceled() == old(self).spec_canceled(),
            final(self).spec_revoked() == old(self).spec_revoked(),
            keeps_dead(old(self).slots(), final(self).slots()),
            same_entries(old(self).slots(), final(self).slots()),
            r matches Ok(v) ==> v@.len() == n && reservations_held(final(self).slots(), v@),
            r matches Err(e) ==> e == IpcError::OutOfHandles,
            r is Ok <==> n <= old(self).spec_room(),
    {
        let mut out: Vec<HandleReservation> = Vec::new();
        let mut k: usize = 0;
        while k < n
            invariant
                k <= n,
                self.wf(),
                self.spec_room() == old(self).spec_room() - k,
                self.spec_capacity() == old(self).spec_capacity(),
                self.spec_canceled() == old(self).spec_canceled(),
                self.spec_revoked() == old(self).spec_revoked(),
                keeps_dead(old(self).slots(), self.slots()),
                same_entries(old(self).slots(), self.slots()),
                out@.len() == k,
                reservations_held(self.slots(), out@),
            decreases n - k,
        {
            let ghost s0 = self.slots();
            let ghost fl0 = self.free_list();
            proof {
                lemma_first_usable(s0, fl0);
            }
            match self.reserve_slot() {
                Ok(res) => {
                    proof {
                        let i = res.spec_slot() as int;
                        let s1 = slots_after_search(s0, fl0);
                        assert forall|x: int| 0 <= x < s0.len() implies (#[trigger] s1[x] == s0[x]
                            || (s0[x].state is Free && s1[x].state is Retired && s1[x].generation
                            == s0[x].generation)) by {
                            if fl0.take(first_usable(s0, fl0)).contains(x as u32) {
                                let m = choose|m: int|
                                    0 <= m < fl0.take(first_usable(s0, fl0)).len()
                                        && #[trigger] fl0.take(first_usable(s0, fl0))[m] == x as u32;
                                assert(fl0[m] == x as u32);
                            }
                        }
                        if i < s0.len() {
                            assert(s0[i].state is Free);
                        }
                        assert forall|a: int| 0 <= a < out@.len() implies (#[trigger] out@[a]).spec_slot() != i by {
                            assert(s0[out@[a].spec_slot() as int].state is Reserved);
                        }
                        assert forall|id: HandleId| #[trigger] resolve(self.slots(), id) == resolve(s0, id) by {
                            let x = id.spec_slot() as int;
                            if x < s0.len() {
                                assert(s1[x] == s0[x] || (s0[x].state is Free && s1[x].state is Retired));
                            }
                        }
                        assert(keeps_dead(s0, self.slots()));
                        assert forall|id: HandleId| id_dead(old(self).slots(), id) implies #[trigger] id_dead(self.slots(), id) by {
                            assert(id_dead(s0, id));
                        }
                    }
                    out.push(res);
                    proof {
                        assert forall|a: int| 0 <= a < out@.len() implies {
                            let i = (#[trigger] out@[a]).spec_slot() as int;
                            &&& i < self.slots().len()
                            &&& self.slots()[i].state is Reserved
                            &&& self.slots()[i].generation == out@[a].spec_generation()
                        } by {
                            if a < k {
                                let i = out@[a].spec_slot() as int;
                                assert(s0[i].state is Reserved);
                            }
                        }
                    }
                },
                Err(e) => {
                    proof {
                        assert forall|id: HandleId| #[trigger] resolve(self.slots(), id) == resolve(s0, id) by {
                            let x = id.spec_slot() as int;
                            if x < s0.len() && fl0.take(first_usable(s0, fl0)).contains(x as u32) {
                                let m = choose|m: int|
                                    0 <= m < fl0.take(first_usable(s0, fl0)).len()
                                        && #[trigger] fl0.take(first_usable(s0, fl0))[m] == x as u32;
                                assert(fl0[m] == x as u32);
                            }
                        }
                        assert forall|id: HandleId| id_dead(old(self).slots(), id) implies #[trigger] id_dead(self.slots(), id) by {
                            assert(id_dead(s0, id));
                        }
                    }
                    self.release_all(out.as_slice());
                    return Err(e);
                },
            }
            k = k + 1;
        }
        proof {
            lemma_room_step(self.slots(), self.free_list(), self.spec_capacity(), SlotState::Reserved);
        }
        Ok(out)
    }

    /// Releases every reservation of `reservations`.
    pub fn release_all(&mut self, reservations: &[HandleReservation])
        requires
            old(self).wf(),
            reservations_held(old(self).slots(), reservations@),
        ensures
            final(self).wf(),
            final(self).spec_capacity() == old(self).spec_capacity(),
            final(self).spec_canceled() == old(self).spec_canceled(),
            final(self).spec_revoked() == old(self).spec_revoked(),
            keeps_dead(old(self).slots(), final(self).slots()),
            same_entries(old(self).slots(), final(self).slots()),
            final(self).slots().len() == old(self).slots().len(),
            forall|a: int|
                0 <= a < reservations@.len() ==> {
                    let i = (#[trigger] reservations@[a]).spec_slot() as int;
                    &&& final(self).slots()[i].state is Free
                    &&& final(self).slots()[i].generation == reservations@[a].spec_generation() - 1
                },
    {
        let n = reservations.len();
        let mut k: usize = 0;
        while k < n
            invariant
                n == reservations@.len(),
                k <= n,
                self.wf(),
                self.spec_capacity() == old(self).spec_capacity(),
                self.spec_canceled() == old(self).spec_canceled(),
                self.spec_revoked() == old(self).spec_revoked(),
                keeps_dead(old(self).slots(), self.slots()),
                same_entries(old(self).slots(), self.slots()),
                self.slots().len() == old(self).slots().len(),
                forall|a: int| 0 <= a < n ==> ((#[trigger] reservations@[a]).spec_slot() as int) < self.slots().len(),
                reservations_held(self.slots(), reservations@.skip(k as int)),
                forall|a: int|
                    0 <= a < k ==> {
                        let i = (#[trigger] reservations@[a]).spec_slot() as int;
                        &&& self.slots()[i].state is Free
                        &&& self.slots()[i].generation == reservations@[a].spec_generation() - 1
                    },
                forall|a: int, b: int|
                    0 <= a < b < n ==> (#[trigger] reservations@[a]).spec_slot() != (#[trigger] reservations@[b]).spec_slot(),
            decreases n - k,
        {
            let ghost s0 = self.slots();
            let r = reservations[k];
            proof {
                assert(reservations@.skip(k as int)[0] == r);
            }
            proof {
                assert(s0[r.spec_slot() as int].generation >= 1);
            }
            self.release_reservation(r);
            proof {
                let i = r.spec_slot() as int;
                assert forall|a: int| 0 <= a < reservations@.skip(k + 1).len() implies {
                    let j = (#[trigger] reservations@.skip(k + 1)[a]).spec_slot() as int;
                    &&& j < self.slots().len()
                    &&& self.slots()[j].state is Reserved
                    &&& self.slots()[j].generation == reservations@.skip(k + 1)[a].spec_generation()
                } by {
                    assert(reservations@.skip(k + 1)[a] == reservations@.skip(k as int)[a + 1]);
                    assert(reservations@.skip(k + 1)[a] == reservations@[a + k + 1]);
                }
                assert forall|a: int, b: int| 0 <= a < b < reservations@.skip(k + 1).len() implies (#[trigger] reservations@.skip(k + 1)[a]).spec_slot() != (#[trigger] reservations@.skip(k + 1)[b]).spec_slot() by {
                    assert(reservations@.skip(k + 1)[a] == reservations@[a + k + 1]);
                    assert(reservations@.skip(k + 1)[b] == reservations@[b + k + 1]);
                }
                assert forall|a: int| 0 <= a < k + 1 implies {
                    let j = (#[trigger] reservations@[a]).spec_slot() as int;
                    &&& self.slots()[j].state is Free
                    &&& self.slots()[j].generation == reservations@[a].spec_generation() - 1
                } by {
                    if a < k {
                        assert(reservations@[a].spec_slot() != r.spec_slot());
                    } else {
                        assert(reservations@[a] == r);
                    }
                }
                assert forall|id: HandleId| #[trigger] resolve(self.slots(), id) == resolve(s0, id) by {}
                assert forall|id: HandleId| id_dead(old(self).slots(), id) implies #[trigger] id_dead(self.slots(), id) by {
                    assert(id_dead(s0, id));
                }
            }
            k = k + 1;
        }
    }

    /// Number of occupied slots.
    pub fn live_count(&self) -> (r: usize)
        requires
            self.wf(),
        ensures
            r == count_occupied(self.slots()),
    {
        let mut n: usize = 0;
        let mut i: usize = 0;
        while i < self.slots.len()
            invariant
                i <= self.slots@.len(),
                self.slots@.len() <= MAX_CAPACITY,
                n == count_occupied(self.slots().take(i as int)),
                n <= i,
            decreases self.slots@.len() - i,
        {
            proof {
                assert(self.slots().take(i as int + 1).drop_last() =~= self.slots().take(i as int));
            }
            if let SlotState::Occupied(_) = &self.slots[i].state {
                n = n + 1;
            }
            i = i + 1;
        }
        proof {
            assert(self.slots().take(i as int) =~= self.slots());
        }
        n
    }
}

impl Default for HandleTable {
    fn default() -> (r: Self)
        ensures
            r.wf(),
            r.slots() == Seq::<SlotView>::empty(),
            r.free_list() == Seq::<u32>::empty(),
            r.spec_capacity() == DEFAULT_CAPACITY,
            r.spec_canceled() == Seq::<u64>::empty(),
            r.spec_revoked() == Seq::<u64>::empty(),
    {
        HandleTable::new()
    }
}

/// An id that can never name an entry again resolves to nothing: a closed
/// handle's id stays dead whatever the table does next.
pub proof fn lemma_dead_id_unresolved(slots: Seq<SlotView>, id: HandleId)
    requires
        id_dead(slots, id),
    ensures
        resolve(slots, id) is None,
{
}

/// The slot that the search finds has a generation left.
proof fn lemma_first_usable(slots: Seq<SlotView>, fl: Seq<u32>)
    ensures
        0 <= first_usable(slots, fl) <= fl.len(),
        first_usable(slots, fl) < fl.len() ==> slots[fl[first_usable(slots, fl)] as int].generation
            < MAX_GENERATION,
    decreases fl.len(),
{
    if fl.len() > 0 && slots[fl[0] as int].generation >= MAX_GENERATION {
        lemma_first_usable(slots, fl.drop_first());
        if first_usable(slots, fl) < fl.len() {
            assert(fl.drop_first()[first_usable(slots, fl.drop_first())] == fl[first_usable(slots, fl)]);
        }
    }
}

/// Reserving a slot and releasing the reservation leaves the generation of
/// every slot that existed before as it was: no id is used up.
pub proof fn lemma_reserve_release_keeps_generations(t: HandleTable, i: int)
    requires
        t.wf(),
        claim_target(t.slots(), t.free_list(), t.spec_capacity()) == Some(i),
    ensures
        ({
            let s1 = placed(slots_after_search(t.slots(), t.free_list()), i, SlotState::Reserved);
            let s2 = s1.update(i, SlotView { generation: (s1[i].generation - 1) as u16, ..s1[i] });
            forall|j: int| 0 <= j < t.slots().len() ==> #[trigger] s2[j].generation == t.slots()[j].generation
        }),
{
    lemma_first_usable(t.slots(), t.free_list());
}

/// Number of occupied slots is at most the number of slots.
proof fn lemma_count_occupied_bound(slots: Seq<SlotView>)
    ensures
        count_occupied(slots) <= slots.len(),
    decreases slots.len(),
{
    if slots.len() > 0 {
        lemma_count_occupied_bound(slots.drop_last());
    }
}

/// A table never holds more entries, nor more slots, than its capacity.
pub proof fn lemma_within_capacity(t: HandleTable)
    requires
        t.wf(),
    ensures
        count_occupied(t.slots()) <= t.slots().len(),
        t.slots().len() <= t.spec_capacity(),
        t.spec_capacity() <= MAX_CAPACITY,
{
    lemma_count_occupied_bound(t.slots());
}

/// Whether some id of `ids` names slot `x`.
pub open spec fn slot_named(ids: Seq<HandleId>, x: int) -> bool {
    exists|k: int| 0 <= k < ids.len() && #[trigger] ids[k].spec_slot() == x
}

/// Taking the entries of `ids` out changes only their slots, which become
/// free with their generations kept.
proof fn lemma_drained_frame(slots: Seq<SlotView>, fl: Seq<u32>, ids: Seq<HandleId>)
    requires
        forall|k: int| 0 <= k < ids.len() ==> (#[trigger] ids[k].spec_slot() as int) < slots.len(),
    ensures
        drained(slots, fl, ids).0.len() == slots.len(),
        forall|x: int|
            0 <= x < slots.len() && !slot_named(ids, x) ==> #[trigger] drained(slots, fl, ids).0[x]
                == slots[x],
        forall|x: int|
            0 <= x < slots.len() ==> #[trigger] drained(slots, fl, ids).0[x].generation
                == slots[x].generation,
        forall|k: int|
            0 <= k < ids.len() ==> drained(slots, fl, ids).0[#[trigger] ids[k].spec_slot() as int].state is Free,
    decreases ids.len(),
{
    if ids.len() > 0 {
        let rest = ids.drop_last();
        assert forall|k: int| 0 <= k < rest.len() implies (#[trigger] rest[k].spec_slot() as int) < slots.len() by {
            assert(rest[k] == ids[k]);
        }
        lemma_drained_frame(slots, fl, rest);
        let prev = drained(slots, fl, rest);
        let i = ids.last().spec_slot() as int;
        let d = drained(slots, fl, ids).0;
        assert forall|x: int| 0 <= x < slots.len() && !slot_named(ids, x) implies #[trigger] d[x] == slots[x] by {
            if slot_named(rest, x) {
                let k = choose|k: int| 0 <= k < rest.len() && #[trigger] rest[k].spec_slot() == x;
                assert(ids[k].spec_slot() == x);
            }
            assert(ids[ids.len() - 1].spec_slot() != x);
        }
        assert forall|k: int| 0 <= k < ids.len() implies d[#[trigger] ids[k].spec_slot() as int].state is Free by {
            if k < ids.len() - 1 {
                assert(rest[k] == ids[k]);
            }
        }
    }
}

/// Commits `handles` into `reservations`, in order. Returns the ids the
/// entries now have: those the reservations predicted. No other id changes
/// what it resolves to.
pub fn commit_all(table: &mut HandleTable, reservations: &[HandleReservation], handles: Vec<Handle>) -> (r:
    Vec<HandleId>)
    requires
        old(table).wf(),
        reservations@.len() == handles@.len(),
        reservations_held(old(table).slots(), reservations@),
    ensures
        final(table).wf(),
        keeps_dead(old(table).slots(), final(table).slots()),
        r@.len() == handles@.len(),
        forall|k: int|
            0 <= k < handles@.len() ==> (#[trigger] r@[k]).spec_slot() == reservations@[k].spec_slot()
                && r@[k].spec_generation() == reservations@[k].spec_generation(),
        forall|k: int|
            0 <= k < handles@.len() ==> resolve(final(table).slots(), #[trigger] r@[k]) == Some(
                handles@[k],
            ),
        forall|id: HandleId|
            !r@.contains(id) ==> #[trigger] resolve(final(table).slots(), id) == resolve(
                old(table).slots(),
                id,
            ),
{
    let mut out: Vec<HandleId> = Vec::new();
    let n = handles.len();
    let ghost hs = handles@;
    let ghost r0 = table.slots();
    let mut handles = handles;
    let mut k: usize = 0;
    proof {
        assert(hs.skip(0) =~= hs);
    }
    while k < n
        invariant
            n == reservations@.len(),
            hs.len() == n,
            k <= n,
            handles@ == hs.skip(k as int),
            table.wf(),
            keeps_dead(r0, table.slots()),
            reservations_held(r0, reservations@),
            table.slots().len() == r0.len(),
            out@.len() == k,
            forall|a: int|
                0 <= a < k ==> {
                    &&& (#[trigger] out@[a]).spec_slot() == reservations@[a].spec_slot()
                    &&& out@[a].spec_generation() == reservations@[a].spec_generation()
                },
            forall|x: int|
                0 <= x < r0.len() ==> #[trigger] table.slots()[x] == if exists|a: int|
                    0 <= a < k && (#[trigger] reservations@[a]).spec_slot() == x {
                    SlotView {
                        state: SlotState::Occupied(hs[choose|a: int| 0 <= a < k && (#[trigger] reservations@[a]).spec_slot() == x]),
                        ..r0[x]
                    }
                } else {
                    r0[x]
                },
        decreases n - k,
    {
        let ghost before = table.slots();
        let h = handles.remove(0);
        proof {
            assert(h == hs[k as int]);
            assert(hs.skip(k as int).drop_first() =~= hs.skip(k + 1));
        }
        let res = reservations[k];
        proof {
            let x = res.spec_slot() as int;
            assert(forall|a: int| 0 <= a < k ==> (#[trigger] reservations@[a]).spec_slot() != res.spec_slot());
            assert(!exists|a: int| 0 <= a < k && (#[trigger] reservations@[a]).spec_slot() == x);
            assert(before[x] == r0[x]);
        }
        let id = table.commit_reserved(res, h);
        out.push(id);
        proof {
            assert forall|x: int| 0 <= x < r0.len() implies #[trigger] table.slots()[x] == if exists|a: int|
                0 <= a < k + 1 && (#[trigger] reservations@[a]).spec_slot() == x {
                SlotView {
                    state: SlotState::Occupied(hs[choose|a: int| 0 <= a < k + 1 && (#[trigger] reservations@[a]).spec_slot() == x]),
                    ..r0[x]
                }
            } else {
                r0[x]
            } by {
                if x == res.spec_slot() as int {
                    assert(reservations@[k as int].spec_slot() == x);
                    let c = choose|a: int| 0 <= a < k + 1 && (#[trigger] reservations@[a]).spec_slot() == x;
                    if c != k {
                        assert(reservations@[c].spec_slot() != reservations@[k as int].spec_slot());
                    }
                } else {
                    if exists|a: int| 0 <= a < k + 1 && (#[trigger] reservations@[a]).spec_slot() == x {
                        let c = choose|a: int| 0 <= a < k + 1 && (#[trigger] reservations@[a]).spec_slot() == x;
                        assert(c < k);
                        assert(exists|a: int| 0 <= a < k && (#[trigger] reservations@[a]).spec_slot() == x);
                    }
                }
            }
        }
        k = k + 1;
    }
    proof {
        assert forall|a: int| 0 <= a < n implies resolve(table.slots(), #[trigger] out@[a]) == Some(hs[a]) by {
            let x = reservations@[a].spec_slot() as int;
            assert(exists|b: int| 0 <= b < n && (#[trigger] reservations@[b]).spec_slot() == x) by {
                assert(reservations@[a].spec_slot() == x);
            }
            let c = choose|b: int| 0 <= b < n && (#[trigger] reservations@[b]).spec_slot() == x;
            if c != a {
                assert(reservations@[c].spec_slot() != reservations@[a].spec_slot());
            }
        }
        assert forall|id: HandleId| !out@.contains(id) implies #[trigger] resolve(table.slots(), id) == resolve(r0, id) by {
            let x = id.spec_slot() as int;
            assert(resolve(r0, id) == resolve(r0, id));
            if x < r0.len() && exists|a: int| 0 <= a < n && (#[trigger] reservations@[a]).spec_slot() == x {
                let c = choose|a: int| 0 <= a < n && (#[trigger] reservations@[a]).spec_slot() == x;
                if id.spec_generation() == reservations@[c].spec_generation() {
                    super::handle_id::lemma_handle_id_determined(id, out@[c]);
                    assert(out@.contains(id));
                }
            }
        }
    }
    out
}

/// Moves the entries of `ids` from `sender` to `receiver` for a message, all
/// or none: slots are reserved in `receiver` first (`OutOfHandles`), then
/// the transfer completes as [`transfer_reserved`] does. On an error
/// `sender` is unchanged and no entry of `receiver` changes. Returns the
/// ids that the entries have in `receiver`, in the order of `ids`.
pub fn transfer_handles(
    sender: &mut HandleTable,
    receiver: &mut HandleTable,
    ids: &[HandleId],
    tree: &RevTree,
) -> (r: Result<Vec<HandleId>, IpcError>)
    requires
        old(sender).wf(),
        old(receiver).wf(),
        tree.well_formed(),
    ensures
        final(sender).wf(),
        final(receiver).wf(),
        keeps_dead(old(sender).slots(), final(sender).slots()),
        keeps_dead(old(receiver).slots(), final(receiver).slots()),
        r matches Err(e) ==> {
            &&& *final(sender) == *old(sender)
            &&& same_entries(old(receiver).slots(), final(receiver).slots())
        },
        ids@.len() > old(receiver).spec_room() ==> r == Err::<Vec<HandleId>, IpcError>(
            IpcError::OutOfHandles,
        ),
        ids@.len() <= old(receiver).spec_room() && has_duplicate_id(ids@) ==> r == Err::<
            Vec<HandleId>,
            IpcError,
        >(IpcError::BadHandle),
        ids@.len() <= old(receiver).spec_room() && !has_duplicate_id(ids@) ==> match first_failure(
            old(sender).slots(),
            ids@,
            Rights::spec_transfer(),
            tree@,
        ) {
            Some(e) => r == Err::<Vec<HandleId>, IpcError>(e),
            None => r is Ok,
        },
        r matches Ok(v) ==> {
            let d = drained(old(sender).slots(), old(sender).free_list(), ids@);
            &&& v@.len() == ids@.len()
            &&& forall|k: int|
                0 <= k < ids@.len() ==> resolve(final(receiver).slots(), #[trigger] v@[k]) == resolve(
                    old(sender).slots(),
                    ids@[k],
                ) && resolve(old(sender).slots(), ids@[k]) is Some
            &&& forall|id: HandleId|
                !v@.contains(id) ==> #[trigger] resolve(final(receiver).slots(), id) == resolve(
                    old(receiver).slots(),
                    id,
                )
            &&& final(sender).slots() == d.0
            &&& final(sender).free_list() == d.1
            &&& final(sender).spec_canceled() == old(sender).spec_canceled() + d.2
        },
{
    let reservations = receiver.reserve_slots(ids.len())?;
    transfer_reserved(sender, receiver, reservations, ids, tree)
}

/// Completes a transfer into slots already reserved in `receiver`: drains
/// the entries of `ids` from `sender` with the `TRANSFER` right (errors of
/// [`HandleTable::try_drain_for_transfer`]; the reservations are then
/// released), then commits them into the reservations in order. On an
/// error `sender` is unchanged and no entry of `receiver` changes. Returns
/// the ids that the entries have in `receiver`: those the reservations
/// predicted.
pub fn transfer_reserved(
    sender: &mut HandleTable,
    receiver: &mut HandleTable,
    reservations: Vec<HandleReservation>,
    ids: &[HandleId],
    tree: &RevTree,
) -> (r: Result<Vec<HandleId>, IpcError>)
    requires
        old(sender).wf(),
        old(receiver).wf(),
        tree.well_formed(),
        reservations@.len() == ids@.len(),
        reservations_held(old(receiver).slots(), reservations@),
    ensures
        final(sender).wf(),
        final(receiver).wf(),
        keeps_dead(old(sender).slots(), final(sender).slots()),
        keeps_dead(old(receiver).slots(), final(receiver).slots()),
        r matches Err(e) ==> {
            &&& *final(sender) == *old(sender)
            &&& same_entries(old(receiver).slots(), final(receiver).slots())
        },
        has_duplicate_id(ids@) ==> r == Err::<Vec<HandleId>, IpcError>(IpcError::BadHandle),
        !has_duplicate_id(ids@) ==> match first_failure(
            old(sender).slots(),
            ids@,
            Rights::spec_transfer(),
            tree@,
        ) {
            Some(e) => r == Err::<Vec<HandleId>, IpcError>(e),
            None => r is Ok,
        },
        r matches Ok(v) ==> {
            let d = drained(old(sender).slots(), old(sender).free_list(), ids@);
            &&& v@.len() == ids@.len()
            &&& forall|k: int|
                0 <= k < ids@.len() ==> (#[trigger] v@[k]).spec_slot() == reservations@[k].spec_slot()
                    && v@[k].spec_generation() == reservations@[k].spec_generation()
            &&& forall|k: int|
                0 <= k < ids@.len() ==> resolve(final(receiver).slots(), #[trigger] v@[k]) == resolve(
                    old(sender).slots(),
                    ids@[k],
                ) && resolve(old(sender).slots(), ids@[k]) is Some
            &&& forall|id: HandleId|
                !v@.contains(id) ==> #[trigger] resolve(final(receiver).slots(), id) == resolve(
                    old(receiver).slots(),
                    id,
                )
            &&& final(sender).slots() == d.0
            &&& final(sender).free_list() == d.1
            &&& final(sender).spec_canceled() == old(sender).spec_canceled() + d.2
        },
{
    let n = ids.len();
    let ghost r0 = receiver.slots();
    let drained = match sender.try_drain_for_transfer(ids, Rights::TRANSFER(), tree) {
        Ok(d) => d,
        Err(e) => {
            receiver.release_all(reservations.as_slice());
            return Err(e);
        },
    };
    let out = commit_all(receiver, reservations.as_slice(), drained);
    proof {
        assert forall|id: HandleId| !out@.contains(id) implies #[trigger] resolve(receiver.slots(), id) == resolve(old(receiver).slots(), id) by {
            assert(resolve(r0, id) == resolve(old(receiver).slots(), id));
        }
    }
    Ok(out)
}


/// Completes a transfer of entries of `table` into slots already reserved
/// in the same table, as for a message between two threads of one process:
/// drains the entries of `ids` with the `TRANSFER` right (errors of
/// [`HandleTable::try_drain_for_transfer`]; the reservations are then
/// released), then commits them into the reservations in order. On an
/// error no entry changes. On success the entries answer to the ids that
/// the reservations predicted, and no longer to `ids`.
pub fn transfer_reserved_within(
    table: &mut HandleTable,
    reservations: Vec<HandleReservation>,
    ids: &[HandleId],
    tree: &RevTree,
) -> (r: Result<Vec<HandleId>, IpcError>)
    requires
        old(table).wf(),
        tree.well_formed(),
        reservations@.len() == ids@.len(),
        reservations_held(old(table).slots(), reservations@),
    ensures
        final(table).wf(),
        keeps_dead(old(table).slots(), final(table).slots()),
        r is Err ==> same_entries(old(table).slots(), final(table).slots()),
        has_duplicate_id(ids@) ==> r == Err::<Vec<HandleId>, IpcError>(IpcError::BadHandle),
        !has_duplicate_id(ids@) ==> match first_failure(
            old(table).slots(),
            ids@,
            Rights::spec_transfer(),
            tree@,
        ) {
            Some(e) => r == Err::<Vec<HandleId>, IpcError>(e),
            None => r is Ok,
        },
        r matches Ok(v) ==> {
            &&& v@.len() == ids@.len()
            &&& forall|k: int|
                0 <= k < ids@.len() ==> (#[trigger] v@[k]).spec_slot() == reservations@[k].spec_slot()
                    && v@[k].spec_generation() == reservations@[k].spec_generation()
            &&& forall|k: int|
                0 <= k < ids@.len() ==> resolve(final(table).slots(), #[trigger] v@[k]) == resolve(
                    old(table).slots(),
                    ids@[k],
                ) && resolve(old(table).slots(), ids@[k]) is Some
            &&& forall|k: int| 0 <= k < ids@.len() ==> #[trigger] resolve(final(table).slots(), ids@[k]) is None
            &&& forall|id: HandleId|
                !v@.contains(id) && !ids@.contains(id) ==> #[trigger] resolve(final(table).slots(), id)
                    == resolve(old(table).slots(), id)
        },
{
    let ghost s0 = table.slots();
    let ghost fl0 = table.free_list();
    let drained = match table.try_drain_for_transfer(ids, Rights::TRANSFER(), tree) {
        Ok(d) => d,
        Err(e) => {
            table.release_all(reservations.as_slice());
            return Err(e);
        },
    };
    let ghost s1 = table.slots();
    proof {
        assert forall|k: int| 0 <= k < ids@.len() implies (#[trigger] ids@[k].spec_slot() as int) < s0.len() by {
            assert(resolve(s0, ids@[k]) is Some);
        }
        lemma_drained_frame(s0, fl0, ids@);
        assert forall|a: int| 0 <= a < reservations@.len() implies !slot_named(ids@, (#[trigger] reservations@[a]).spec_slot() as int) by {
            let x = reservations@[a].spec_slot() as int;
            if slot_named(ids@, x) {
                let k = choose|k: int| 0 <= k < ids@.len() && #[trigger] ids@[k].spec_slot() == x;
                assert(resolve(s0, ids@[k]) is Some);
                assert(s0[x].state is Reserved);
            }
        }
        assert(reservations_held(s1, reservations@));
    }
    let out = commit_all(table, reservations.as_slice(), drained);
    proof {
        let s2 = table.slots();
        assert forall|k: int| 0 <= k < ids@.len() implies #[trigger] resolve(s2, ids@[k]) is None by {
            let x = ids@[k].spec_slot() as int;
            assert(s1[x].state is Free);
            if out@.contains(ids@[k]) {
                let j = choose|j: int| 0 <= j < out@.len() && out@[j] == ids@[k];
                assert(s0[x].state is Occupied);
                assert(s0[reservations@[j].spec_slot() as int].state is Reserved);
            }
        }
        assert forall|id: HandleId| !out@.contains(id) && !ids@.contains(id) implies #[trigger] resolve(s2, id) == resolve(s0, id) by {
            let x = id.spec_slot() as int;
            if 0 <= x < s0.len() && slot_named(ids@, x) {
                let k = choose|k: int| 0 <= k < ids@.len() && #[trigger] ids@[k].spec_slot() == x;
                assert(s1[x].state is Free);
                if id.spec_generation() == s0[x].generation {
                    super::handle_id::lemma_handle_id_determined(id, ids@[k]);
                }
            }
        }
    }
    Ok(out)
}

/// Where every id looks up alike in two tables, the first failure is alike.
pub proof fn lemma_first_failure_same(
    a: Seq<SlotView>,
    b: Seq<SlotView>,
    ids: Seq<HandleId>,
    need: Rights,
    tree: Seq<RevNodeView>,
)
    requires
        forall|id: HandleId| #[trigger] get_result(b, id, need, tree) == get_result(a, id, need, tree),
    ensures
        first_failure(b, ids, need, tree) == first_failure(a, ids, need, tree),
    decreases ids.len(),
{
    if ids.len() > 0 {
        assert(get_result(b, ids[0], need, tree) == get_result(a, ids[0], need, tree));
        lemma_first_failure_same(a, b, ids.drop_first(), need, tree);
    }
}

/// Moves the entries of `ids` to new slots of the same table for a message
/// between two threads of one process, all or none, as [`transfer_handles`]
/// does between two tables: slots are reserved first (`OutOfHandles`), then
/// the transfer completes as [`transfer_reserved_within`] does.
pub fn transfer_handles_within(table: &mut HandleTable, ids: &[HandleId], tree: &RevTree) -> (r: Result<
    Vec<HandleId>,
    IpcError,
>)
    requires
        old(table).wf(),
        tree.well_formed(),
    ensures
        final(table).wf(),
        keeps_dead(old(table).slots(), final(table).slots()),
        r is Err ==> same_entries(old(table).slots(), final(table).slots()),
        ids@.len() > old(table).spec_room() ==> r == Err::<Vec<HandleId>, IpcError>(
            IpcError::OutOfHandles,
        ),
        ids@.len() <= old(table).spec_room() && has_duplicate_id(ids@) ==> r == Err::<
            Vec<HandleId>,
            IpcError,
        >(IpcError::BadHandle),
        ids@.len() <= old(table).spec_room() && !has_duplicate_id(ids@) ==> match first_failure(
            old(table).slots(),
            ids@,
            Rights::spec_transfer(),
            tree@,
        ) {
            Some(e) => r == Err::<Vec<HandleId>, IpcError>(e),
            None => r is Ok,
        },
        r matches Ok(v) ==> {
            &&& v@.len() == ids@.len()
            &&& forall|k: int|
                0 <= k < ids@.len() ==> resolve(final(table).slots(), #[trigger] v@[k]) == resolve(
                    old(table).slots(),
                    ids@[k],
                ) && resolve(old(table).slots(), ids@[k]) is Some
            &&& forall|k: int| 0 <= k < ids@.len() ==> #[trigger] resolve(final(table).slots(), ids@[k]) is None
            &&& forall|id: HandleId|
                !v@.contains(id) && !ids@.contains(id) ==> #[trigger] resolve(final(table).slots(), id)
                    == resolve(old(table).slots(), id)
        },
{
    let ghost s0 = table.slots();
    let reservations = table.reserve_slots(ids.len())?;
    let ghost s1 = table.slots();
    proof {
        assert forall|id: HandleId| #[trigger] get_result(s1, id, Rights::spec_transfer(), tree@) == get_result(s0, id, Rights::spec_transfer(), tree@) by {
            assert(resolve(s1, id) == resolve(s0, id));
        }
        lemma_first_failure_same(s0, s1, ids@, Rights::spec_transfer(), tree@);
    }
    transfer_reserved_within(table, reservations, ids, tree)
}

} // verus!
