//! System-call level operations on a process's handle table, and the
//! decisions of waiting on several objects.

use vstd::prelude::*;
use super::errors::IpcError;
use super::handle::{duplicate_error, is_duplicate_of, Handle};
use super::handle_id::HandleId;
use super::handle_table::{
    claim_target, free_after_search, id_dead, keeps_dead, lookup_result, placed, resolve,
    slots_after_search, HandleTable, SlotState,
};
use super::rev_node::{subtree_hook, RevNodeView, RevTree};
use super::rights::Rights;

verus! {

/// Outcome of a wait on several objects: the index of the item that fired
/// and the bits observed on it (within its mask).
#[derive(Debug, Clone, Copy, PartialEq, Eq, Structural)]
pub struct WaitManyOutcome {
    pub index: usize,
    pub observed: u32,
}

/// Index of the first item whose state meets its mask (`states.len()` if
/// none).
pub open spec fn first_ready(states: Seq<u32>, masks: Seq<u32>) -> int
    decreases states.len(),
{
    if states.len() == 0 || masks.len() == 0 {
        0
    } else if states[0] & masks[0] != 0 {
        0
    } else {
        1 + first_ready(states.drop_first(), masks.drop_first())
    }
}

/// The index that a wait on several objects reports is that of the first
/// item whose state meets its mask: every item before it is unsignaled,
/// the item at it is signaled, and where it is the length of the list no
/// item, the last one included, is signaled.
pub proof fn lemma_first_ready_is_first(states: Seq<u32>, masks: Seq<u32>)
    requires
        states.len() == masks.len(),
    ensures
        0 <= first_ready(states, masks) <= states.len(),
        forall|j: int| 0 <= j < first_ready(states, masks) ==> (#[trigger] states[j]) & masks[j] == 0,
        first_ready(states, masks) < states.len() ==> states[first_ready(states, masks)] & masks[first_ready(
            states,
            masks,
        )] != 0,
    decreases states.len(),
{
    if states.len() > 0 && states[0] & masks[0] == 0 {
        let s1 = states.drop_first();
        let m1 = masks.drop_first();
        lemma_first_ready_is_first(s1, m1);
        assert forall|j: int| 0 <= j < first_ready(states, masks) implies (#[trigger] states[j]) & masks[j] == 0 by {
            if j > 0 {
                assert(states[j] == s1[j - 1]);
                assert(masks[j] == m1[j - 1]);
            }
        }
        if first_ready(states, masks) < states.len() {
            let f = first_ready(states, masks);
            assert(states[f] == s1[f - 1]);
            assert(masks[f] == m1[f - 1]);
        }
    }
}

/// What a wait on several objects does before it blocks, given the signal
/// state of each item's object: `BadHandle` for no items; the first item
/// already signaled, with its observed bits; `Timeout` for a poll
/// (`timeout_ns == Some(0)`) with none signaled; else `None`: block.
pub fn poll_wait_many(states: &[u32], masks: &[u32], timeout_ns: Option<u64>) -> (r: Result<
    Option<WaitManyOutcome>,
    IpcError,
>)
    requires
        states@.len() == masks@.len(),
    ensures
        states@.len() == 0 ==> r == Err::<Option<WaitManyOutcome>, IpcError>(IpcError::BadHandle),
        states@.len() > 0 && first_ready(states@, masks@) < states@.len() ==> {
            let i = first_ready(states@, masks@);
            r == Ok::<Option<WaitManyOutcome>, IpcError>(
                Some(WaitManyOutcome { index: i as usize, observed: states@[i] & masks@[i] }),
            )
        },
        states@.len() > 0 && first_ready(states@, masks@) >= states@.len() ==> r == if timeout_ns
            == Some(0u64) {
            Err::<Option<WaitManyOutcome>, IpcError>(IpcError::Timeout)
        } else {
            Ok::<Option<WaitManyOutcome>, IpcError>(None)
        },
        r matches Ok(Some(o)) ==> o.index < states@.len() && o.observed == states@[o.index as int]
            & masks@[o.index as int] && o.observed != 0 && forall|j: int|
            0 <= j < o.index ==> (#[trigger] states@[j]) & masks@[j] == 0,
        forall|i: int|
            0 <= i < states@.len() && (#[trigger] states@[i]) & masks@[i] != 0 ==> (r matches Ok(Some(o))
                && o.index <= i),
        r is Err && r != Err::<Option<WaitManyOutcome>, IpcError>(IpcError::BadHandle) || r == Ok::<
            Option<WaitManyOutcome>,
            IpcError,
        >(None) ==> forall|i: int| 0 <= i < states@.len() ==> (#[trigger] states@[i]) & masks@[i] == 0,
{
    let n = states.len();
    if n == 0 {
        return Err(IpcError::BadHandle);
    }
    let mut i: usize = 0;
    proof {
        assert(states@.skip(0) =~= states@);
        assert(masks@.skip(0) =~= masks@);
    }
    while i < n
        invariant
            n == states@.len(),
            n == masks@.len(),
            i <= n,
            first_ready(states@, masks@) == i + first_ready(states@.skip(i as int), masks@.skip(i as int)),
        decreases n - i,
    {
        let already = states[i] & masks[i];
        proof {
            assert(states@.skip(i as int)[0] == states@[i as int]);
            assert(masks@.skip(i as int)[0] == masks@[i as int]);
            assert(states@.skip(i as int).drop_first() =~= states@.skip(i + 1));
            assert(masks@.skip(i as int).drop_first() =~= masks@.skip(i + 1));
        }
        if already != 0 {
            proof {
                lemma_first_ready_is_first(states@, masks@);
            }
            return Ok(Some(WaitManyOutcome { index: i, observed: already }));
        }
        i = i + 1;
    }
    proof {
        lemma_first_ready_is_first(states@, masks@);
    }
    match timeout_ns {
        Some(t) => {
            if t == 0 {
                return Err(IpcError::Timeout);
            }
        },
        None => {},
    }
    Ok(None)
}

/// Installs `handle` in `table` and returns its new id; on
/// `OutOfHandles` the handle is closed.
pub fn install_handle(table: &mut HandleTable, handle: Handle, tree: &mut RevTree) -> (r: Result<
    HandleId,
    IpcError,
>)
    requires
        old(table).wf(),
        old(tree).well_formed(),
    ensures
        final(table).wf(),
        final(tree).well_formed(),
        keeps_dead(old(table).slots(), final(table).slots()),
        r matches Ok(id) ==> resolve(final(table).slots(), id) == Some(handle),
        r matches Err(e) ==> e == IpcError::OutOfHandles,
{
    table.insert(handle, tree)
}

/// Closes the handle `id`: takes it out of the table, firing its waiters
/// and hooks, and lets its derivation node go. `BadHandle` where `id`
/// names no entry. Needs no right.
pub fn handle_close(table: &mut HandleTable, id: HandleId, tree: &mut RevTree) -> (r: Result<
    (),
    IpcError,
>)
    requires
        old(table).wf(),
        old(tree).well_formed(),
    ensures
        final(table).wf(),
        final(tree).well_formed(),
        keeps_dead(old(table).slots(), final(table).slots()),
        resolve(old(table).slots(), id) is None ==> r == Err::<(), IpcError>(IpcError::BadHandle)
            && final(tree)@ == old(tree)@ && *final(table) == *old(table),
        resolve(old(table).slots(), id) matches Some(h) ==> {
            let n = old(table).spec_revoked().len() as int;
            &&& r is Ok
            &&& id_dead(final(table).slots(), id)
            &&& final(table).spec_canceled() == old(table).spec_canceled() + old(table).slots()[id.spec_slot() as int].waiters
            &&& final(table).spec_revoked().take(n) == old(table).spec_revoked()
            &&& forall|t: u64|
                #[trigger] final(table).spec_revoked().skip(n).contains(t) <==> subtree_hook(
                    old(tree)@,
                    h.spec_node() as int,
                    t,
                )
            &&& h.spec_node() < old(tree)@.len() ==> final(tree)@ == old(tree)@.update(
                h.spec_node() as int,
                RevNodeView { held: false, ..old(tree)@[h.spec_node() as int] },
            )
        },
{
    let handle = table.remove(id, tree)?;
    handle.close(tree);
    Ok(())
}

/// A new handle on the object of `id` with a subset of its rights; see
/// [`HandleTable::duplicate`].
pub fn handle_duplicate(table: &mut HandleTable, id: HandleId, new_rights: Rights, tree: &mut RevTree) -> (r:
    Result<HandleId, IpcError>)
    requires
        old(table).wf(),
        old(tree).well_formed(),
    ensures
        final(table).wf(),
        final(tree).well_formed(),
        keeps_dead(old(table).slots(), final(table).slots()),
            match lookup_result(old(table).slots(), id, old(tree)@) {
                Err(e) => r == Err::<HandleId, IpcError>(e) && *final(table) == *old(table) && final(tree)@ == old(tree)@,
                Ok(h) => match duplicate_error(h, new_rights, 0u64) {
                    Some(e) => r == Err::<HandleId, IpcError>(e) && *final(table) == *old(table)
                        && final(tree)@ == old(tree)@,
                    None => {
                        let s1 = slots_after_search(old(table).slots(), old(table).free_list());
                        let n = old(tree)@.len() as int;
                        let child = RevNodeView {
                            parent: Some(h.spec_node() as int),
                            held: true,
                            hooks: seq![],
                        };
                        &&& final(table).free_list() == free_after_search(
                            old(table).slots(),
                            old(table).free_list(),
                        )
                        &&& match claim_target(
                            old(table).slots(),
                            old(table).free_list(),
                            old(table).spec_capacity(),
                        ) {
                            None => r == Err::<HandleId, IpcError>(IpcError::OutOfHandles)
                                && final(table).slots() == s1 && final(tree)@ == old(tree)@.push(
                                RevNodeView { held: false, ..child },
                            ),
                            Some(i) => {
                                &&& r is Ok
                                &&& r->Ok_0.spec_slot() == i
                                &&& final(tree)@ == old(tree)@.push(child)
                                &&& resolve(final(table).slots(), r->Ok_0) matches Some(d)
                                &&& is_duplicate_of(d, h, new_rights, 0u64, n)
                                &&& final(table).slots() == placed(s1, i, SlotState::Occupied(d))
                            },
                        }
                    },
                },
            },
{
    table.duplicate(id, new_rights, 0, tree)
}

} // verus!
