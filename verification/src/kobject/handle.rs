//! Handles: a kernel object, the rights through which it may be used, a
//! badge and the derivation node of the capability.

use vstd::prelude::*;
use super::errors::IpcError;
use super::koid::Koid;
use super::object::KObject;
use super::rev_node::{RevNodeId, RevNodeView, RevTree};
use super::rights::{bits_contain, Rights};

verus! {

/// An entry of a handle table.
///
/// The badge belongs to the handle, not to the object: two handles on one
/// port may carry different badges. `0` means "no badge".
pub struct Handle {
    object: KObject,
    rights: Rights,
    badge: u64,
    node: RevNodeId,
    /// Identifier of the object, taken when the first handle on it is made
    /// and carried by every duplicate.
    koid: Koid,
}

/// The badge that a duplicate carries, or `None` where a badged handle is
/// asked for another badge.
pub open spec fn derived_badge(badge: u64, new_badge: u64) -> Option<u64> {
    if badge != 0 {
        if new_badge != 0 {
            None
        } else {
            Some(badge)
        }
    } else {
        Some(new_badge)
    }
}

/// Why duplicating `h` into `new_rights` and `new_badge` fails, if it does.
pub open spec fn duplicate_error(h: Handle, new_rights: Rights, new_badge: u64) -> Option<IpcError> {
    if !bits_contain(h.spec_rights()@, 1u32) || !h.spec_rights().spec_contains(new_rights) {
        Some(IpcError::AccessDenied)
    } else if derived_badge(h.spec_badge(), new_badge) is None {
        Some(IpcError::BadHandle)
    } else {
        None
    }
}

/// Whether `d` is the duplicate of `h` with `new_rights` and `new_badge`
/// that owns the node `node`.
pub open spec fn is_duplicate_of(d: Handle, h: Handle, new_rights: Rights, new_badge: u64, node: int) -> bool {
    &&& d.spec_object() == h.spec_object()
    &&& d.spec_rights() == new_rights
    &&& derived_badge(h.spec_badge(), new_badge) == Some(d.spec_badge())
    &&& d.spec_node() == node
    &&& d.spec_koid() == h.spec_koid()
}

impl Handle {
    pub closed spec fn spec_object(self) -> KObject {
        self.object
    }

    pub closed spec fn spec_rights(self) -> Rights {
        self.rights
    }

    pub closed spec fn spec_badge(self) -> u64 {
        self.badge
    }

    /// Derivation node of the handle in the revocation tree.
    pub closed spec fn spec_node(self) -> RevNodeId {
        self.node
    }

    /// Identifier of the handle's object.
    pub closed spec fn spec_koid(self) -> Koid {
        self.koid
    }

    /// An unbadged handle, owning a new root of `tree`.
    pub fn new(object: KObject, rights: Rights, tree: &mut RevTree) -> (r: Self)
        requires
            old(tree).well_formed(),
        ensures
            r.spec_object() == object,
            r.spec_rights() == rights,
            r.spec_badge() == 0,
            r.spec_node() == old(tree)@.len(),
            final(tree).well_formed(),
            final(tree)@ == old(tree)@.push(RevNodeView { parent: None, held: true, hooks: seq![] }),
    {
        Self::new_with_badge(object, rights, 0, tree)
    }

    /// A handle carrying `badge`, owning a new root of `tree`.
    pub fn new_with_badge(object: KObject, rights: Rights, badge: u64, tree: &mut RevTree) -> (r:
        Self)
        requires
            old(tree).well_formed(),
        ensures
            r.spec_object() == object,
            r.spec_rights() == rights,
            r.spec_badge() == badge,
            r.spec_node() == old(tree)@.len(),
            (r.spec_koid()@ >> 56u64) as u8 == object.spec_type_tag(),
            final(tree).well_formed(),
            final(tree)@ == old(tree)@.push(RevNodeView { parent: None, held: true, hooks: seq![] }),
    {
        let node = tree.new_root();
        let koid = object.koid();
        Handle { object, rights, badge, node, koid }
    }

    /// Derivation node of the handle.
    pub fn node(&self) -> (r: RevNodeId)
        ensures
            r == self.spec_node(),
    {
        self.node
    }

    pub fn rights(&self) -> (r: Rights)
        ensures
            r == self.spec_rights(),
    {
        self.rights
    }

    /// Badge of the handle; `0` means "no badge".
    pub fn badge(&self) -> (r: u64)
        ensures
            r == self.spec_badge(),
    {
        self.badge
    }

    /// Identifier of the handle's object; every duplicate of a handle
    /// gives the same one.
    pub fn koid(&self) -> (r: Koid)
        ensures
            r == self.spec_koid(),
    {
        self.koid
    }

    pub fn object(&self) -> (r: &KObject)
        ensures
            *r == self.spec_object(),
    {
        &self.object
    }

    /// A copy of the handle with a subset of its rights and, where it has
    /// none yet, a badge.
    ///
    /// `AccessDenied` without the `DUPLICATE` right or where `new_rights` is
    /// not a subset of the handle's rights; `BadHandle` where a badged handle
    /// is asked for another badge. The copy owns a child of this handle's
    /// node, so closing this handle revokes it.
    pub fn duplicate(&self, new_rights: Rights, new_badge: u64, tree: &mut RevTree) -> (r:
        Result<Self, IpcError>)
        requires
            old(tree).well_formed(),
            self.spec_node() < old(tree)@.len(),
        ensures
            final(tree).well_formed(),
            !bits_contain(self.spec_rights()@, 1u32) ==> r == Err::<
                Handle,
                IpcError,
            >(IpcError::AccessDenied) && final(tree)@ == old(tree)@,
            bits_contain(self.spec_rights()@, 1u32)
                && !self.spec_rights().spec_contains(new_rights) ==> r == Err::<Handle, IpcError>(
                IpcError::AccessDenied,
            ) && final(tree)@ == old(tree)@,
            bits_contain(self.spec_rights()@, 1u32)
                && self.spec_rights().spec_contains(new_rights) && derived_badge(
                self.spec_badge(),
                new_badge,
            ) is None ==> r == Err::<Handle, IpcError>(IpcError::BadHandle) && final(tree)@
                == old(tree)@,
            r is Ok ==> {
                &&& bits_contain(self.spec_rights()@, 1u32)
                &&& self.spec_rights().spec_contains(new_rights)
                &&& derived_badge(self.spec_badge(), new_badge) == Some(r->Ok_0.spec_badge())
                &&& r->Ok_0.spec_object() == self.spec_object()
                &&& r->Ok_0.spec_rights() == new_rights
                &&& r->Ok_0.spec_node() == old(tree)@.len()
                &&& r->Ok_0.spec_koid() == self.spec_koid()
                &&& final(tree)@ == old(tree)@.push(
                    RevNodeView { parent: Some(self.spec_node() as int), held: true, hooks: seq![] },
                )
            },
            bits_contain(self.spec_rights()@, 1u32)
                && self.spec_rights().spec_contains(new_rights) && derived_badge(
                self.spec_badge(),
                new_badge,
            ) is Some ==> r is Ok,
    {
        if !self.rights.contains(Rights::DUPLICATE()) {
            return Err(IpcError::AccessDenied);
        }
        if !new_rights.is_subset_of(self.rights) {
            return Err(IpcError::AccessDenied);
        }
        let badge = if self.badge != 0 {
            if new_badge != 0 {
                return Err(IpcError::BadHandle);
            }
            self.badge
        } else {
            new_badge
        };
        let node = tree.new_child(self.node);
        Ok(Handle { object: self.object.clone_object(), rights: new_rights, badge, node, koid: self.koid })
    }

    /// Closes the handle: its owner lets its derivation node go, which
    /// revokes every capability derived from it.
    pub fn close(self, tree: &mut RevTree)
        requires
            old(tree).well_formed(),
        ensures
            final(tree).well_formed(),
            self.spec_node() < old(tree)@.len() ==> final(tree)@ == old(tree)@.update(
                self.spec_node() as int,
                RevNodeView { held: false, ..old(tree)@[self.spec_node() as int] },
            ),
            self.spec_node() >= old(tree)@.len() ==> final(tree)@ == old(tree)@,
    {
        tree.release(self.node);
    }
}

} // verus!
