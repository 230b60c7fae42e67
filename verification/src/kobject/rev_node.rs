//! Derivation tree of capabilities, used for lazy revocation.
//!
//! Every handle owns a node. A handle derived by duplication owns a child of
//! its source's node. Closing (dropping) a handle kills its node; a node is
//! alive as long as every ancestor is, so closing a source revokes every
//! capability derived from it, in whatever table it now lives. Revocation
//! hooks are identified by tokens that the caller resolves.

use vstd::prelude::*;

verus! {

/// Undoes a side effect of a capability when it is revoked. The tree
/// stores hooks as tokens; whoever drains the fired tokens calls `revoke`
/// on the hook each token stands for.
pub trait RevocationHook {
    fn revoke(&self);
}

/// Index of a node in a [`RevTree`].
pub type RevNodeId = usize;

/// One node of the derivation tree.
pub struct RevNode {
    parent: Option<usize>,
    held: bool,
    hooks: Vec<u64>,
}

/// Spec view of a node: its parent, whether its owner still holds it, and
/// its hook tokens.
pub struct RevNodeView {
    pub parent: Option<int>,
    pub held: bool,
    pub hooks: Seq<u64>,
}

/// Arena holding the derivation tree. Nodes are never removed, and a child
/// always comes after its parent.
pub struct RevTree {
    nodes: Vec<RevNode>,
}

impl RevNode {
    pub closed spec fn view(self) -> RevNodeView {
        RevNodeView {
            parent: match self.parent {
                Some(p) => Some(p as int),
                None => None,
            },
            held: self.held,
            hooks: self.hooks@,
        }
    }
}

/// Whether the node `i` of `nodes` has every strict ancestor still held.
pub open spec fn ancestors_held(nodes: Seq<RevNodeView>, i: int) -> bool
    decreases i,
{
    if !(0 <= i < nodes.len()) {
        false
    } else {
        match nodes[i].parent {
            None => true,
            Some(p) => if 0 <= p < i {
                nodes[p].held && ancestors_held(nodes, p)
            } else {
                false
            },
        }
    }
}

/// Whether `i` is `root` or a held descendant of `root` reached through
/// held nodes only.
pub open spec fn in_live_subtree(nodes: Seq<RevNodeView>, root: int, i: int) -> bool
    decreases i - root,
{
    if i == root {
        0 <= root < nodes.len()
    } else if !(root < i < nodes.len()) {
        false
    } else {
        match nodes[i].parent {
            None => false,
            Some(p) => nodes[i].held && root <= p < i && in_live_subtree(nodes, root, p),
        }
    }
}

/// Whether `t` is a hook token of a node of the live subtree of `root`.
pub open spec fn subtree_hook(nodes: Seq<RevNodeView>, root: int, t: u64) -> bool {
    exists|i: int| #[trigger] in_live_subtree(nodes, root, i) && nodes[i].hooks.contains(t)
}

impl RevTree {
    pub closed spec fn view(self) -> Seq<RevNodeView> {
        self.nodes@.map_values(|n: RevNode| n@)
    }

    /// Parents precede their children.
    pub open spec fn well_formed(self) -> bool {
        forall|i: int|
            0 <= i < self@.len() ==> (#[trigger] self@[i].parent matches Some(p) ==> 0 <= p < i)
    }

    pub fn new() -> (r: Self)
        ensures
            r@.len() == 0,
            r.well_formed(),
    {
        RevTree { nodes: Vec::new() }
    }

    pub fn len(&self) -> (r: usize)
        ensures
            r == self@.len(),
    {
        self.nodes.len()
    }

    /// Adds a root node, held by its creator.
    pub fn new_root(&mut self) -> (r: RevNodeId)
        requires
            old(self).well_formed(),
        ensures
            final(self).well_formed(),
            r == old(self)@.len(),
            final(self)@ == old(self)@.push(RevNodeView { parent: None, held: true, hooks: seq![] }),
    {
        let r = self.nodes.len();
        self.nodes.push(RevNode { parent: None, held: true, hooks: Vec::new() });
        proof {
            assert(self.nodes@.last()@ == RevNodeView { parent: None, held: true, hooks: seq![] });
            assert(self@ =~= old(self)@.push(RevNodeView { parent: None, held: true, hooks: seq![] }));
        }
        r
    }

    /// Adds a held child of `parent`.
    pub fn new_child(&mut self, parent: RevNodeId) -> (r: RevNodeId)
        requires
            old(self).well_formed(),
            parent < old(self)@.len(),
        ensures
            final(self).well_formed(),
            r == old(self)@.len(),
            final(self)@ == old(self)@.push(
                RevNodeView { parent: Some(parent as int), held: true, hooks: seq![] },
            ),
    {
        let r = self.nodes.len();
        self.nodes.push(RevNode { parent: Some(parent), held: true, hooks: Vec::new() });
        proof {
            let v = RevNodeView { parent: Some(parent as int), held: true, hooks: seq![] };
            assert(self.nodes@.last()@ == v);
            assert(self@ =~= old(self)@.push(v));
        }
        r
    }

    /// Adds the hook token `hook` to `node`.
    pub fn register_hook(&mut self, node: RevNodeId, hook: u64)
        requires
            old(self).well_formed(),
        ensures
            final(self).well_formed(),
            node < old(self)@.len() ==> final(self)@ == old(self)@.update(
                node as int,
                RevNodeView { hooks: old(self)@[node as int].hooks.push(hook), ..old(self)@[node as int] },
            ),
            node >= old(self)@.len() ==> final(self)@ == old(self)@,
    {
        if node < self.nodes.len() {
            let mut n = self.nodes.remove(node);
            n.hooks.push(hook);
            self.nodes.insert(node, n);
            proof {
                let v = RevNodeView { hooks: old(self)@[node as int].hooks.push(hook), ..old(self)@[node as int] };
                assert(self.nodes@[node as int]@ == v);
                assert(self@ =~= old(self)@.update(node as int, v));
            }
        }
    }

    /// The owner of `node` lets it go: descendants derived through it lose
    /// their rights.
    pub fn release(&mut self, node: RevNodeId)
        requires
            old(self).well_formed(),
        ensures
            final(self).well_formed(),
            node < old(self)@.len() ==> final(self)@ == old(self)@.update(
                node as int,
                RevNodeView { held: false, ..old(self)@[node as int] },
            ),
            node >= old(self)@.len() ==> final(self)@ == old(self)@,
    {
        if node < self.nodes.len() {
            let mut n = self.nodes.remove(node);
            n.held = false;
            self.nodes.insert(node, n);
            proof {
                let v = RevNodeView { held: false, ..old(self)@[node as int] };
                assert(self.nodes@[node as int]@ == v);
                assert(self@ =~= old(self)@.update(node as int, v));
            }
        }
    }

    /// Whether every ancestor of `node` is still held.
    pub fn is_alive(&self, node: RevNodeId) -> (r: bool)
        requires
            self.well_formed(),
        ensures
            r == ancestors_held(self@, node as int),
    {
        if node >= self.nodes.len() {
            return false;
        }
        let mut current = node;
        loop
            invariant
                self.well_formed(),
                current < self@.len(),
                ancestors_held(self@, node as int) == ancestors_held(self@, current as int),
            decreases current,
        {
            match self.nodes[current].parent {
                None => {
                    return true;
                },
                Some(p) => {
                    proof {
                        assert(self@[current as int].parent == Some(p as int));
                    }
                    if !self.nodes[p].held {
                        proof {
                            assert(!self@[p as int].held);
                        }
                        return false;
                    }
                    proof {
                        assert(self@[p as int].held);
                    }
                    current = p;
                },
            }
        }
    }

    /// Hook tokens of `node` and of every descendant reached through held
    /// nodes: the hooks that closing `node` fires.
    pub fn revoke_subtree(&self, node: RevNodeId) -> (r: Vec<u64>)
        requires
            self.well_formed(),
        ensures
            forall|t: u64| r@.contains(t) <==> subtree_hook(self@, node as int, t),
    {
        let len = self.nodes.len();
        let mut out: Vec<u64> = Vec::new();
        if node >= len {
            proof {
                assert forall|t: u64| !subtree_hook(self@, node as int, t) by {
                    assert forall|i: int| !#[trigger] in_live_subtree(self@, node as int, i) by {}
                }
            }
            return out;
        }
        let mut marks: Vec<bool> = Vec::new();
        let mut i = node;
        while i < len
            invariant
                self.well_formed(),
                len == self@.len(),
                node < len,
                node <= i <= len,
                marks@.len() == i - node,
                forall|j: int|
                    node <= j < i ==> #[trigger] marks@[j - node] == in_live_subtree(
                        self@,
                        node as int,
                        j,
                    ),
                forall|t: u64|
                    out@.contains(t) <==> exists|j: int|
                        node <= j < i && #[trigger] in_live_subtree(self@, node as int, j)
                            && self@[j].hooks.contains(t),
            decreases len - i,
        {
            let m = if i == node {
                true
            } else {
                match self.nodes[i].parent {
                    None => false,
                    Some(p) => {
                        proof {
                            assert(self@[i as int].parent == Some(p as int));
                        }
                        self.nodes[i].held && node <= p && p < i && marks[p - node]
                    },
                }
            };
            proof {
                assert(m == in_live_subtree(self@, node as int, i as int));
            }
            marks.push(m);
            let ghost before = out@;
            if m {
                append_all(&mut out, &self.nodes[i].hooks);
            }
            proof {
                assert forall|t: u64|
                    out@.contains(t) <==> exists|j: int|
                        node <= j < i + 1 && #[trigger] in_live_subtree(self@, node as int, j)
                            && self@[j].hooks.contains(t) by {
                    if m {
                        lemma_concat_contains(before, self@[i as int].hooks, t);
                    }
                    if exists|j: int|
                        node <= j < i + 1 && #[trigger] in_live_subtree(self@, node as int, j)
                            && self@[j].hooks.contains(t) {
                        let j = choose|j: int|
                            node <= j < i + 1 && #[trigger] in_live_subtree(self@, node as int, j)
                                && self@[j].hooks.contains(t);
                        if j < i {
                            assert(before.contains(t));
                        }
                    }
                }
            }
            i += 1;
        }
        proof {
            assert forall|t: u64| out@.contains(t) <==> subtree_hook(self@, node as int, t) by {
                if subtree_hook(self@, node as int, t) {
                    let j = choose|j: int|
                        #[trigger] in_live_subtree(self@, node as int, j) && self@[j].hooks.contains(t);
                    assert(node <= j < len) by {
                        lemma_subtree_bounds(self@, node as int, j);
                    }
                }
            }
        }
        out
    }
}

/// Whether `a` is a strict ancestor of `i`: reached from `i` by following
/// parents.
pub open spec fn is_strict_ancestor(nodes: Seq<RevNodeView>, a: int, i: int) -> bool
    decreases i,
{
    if !(0 <= i < nodes.len()) {
        false
    } else {
        match nodes[i].parent {
            None => false,
            Some(p) => if 0 <= p < i {
                p == a || is_strict_ancestor(nodes, a, p)
            } else {
                false
            },
        }
    }
}

/// `nodes` once the owner of node `a` let it go.
pub open spec fn released(nodes: Seq<RevNodeView>, a: int) -> Seq<RevNodeView> {
    nodes.update(a, RevNodeView { held: false, ..nodes[a] })
}

/// An ancestor comes before its descendants.
pub proof fn lemma_ancestor_precedes(nodes: Seq<RevNodeView>, a: int, i: int)
    requires
        is_strict_ancestor(nodes, a, i),
    ensures
        0 <= a < i < nodes.len(),
    decreases i,
{
    let p = nodes[i].parent->Some_0;
    if p != a {
        lemma_ancestor_precedes(nodes, a, p);
    }
}

/// Letting a node go revokes every capability derived from it, directly or
/// through others.
pub proof fn lemma_release_revokes_descendants(nodes: Seq<RevNodeView>, a: int, i: int)
    requires
        is_strict_ancestor(nodes, a, i),
    ensures
        !ancestors_held(released(nodes, a), i),
    decreases i,
{
    lemma_ancestor_precedes(nodes, a, i);
    let p = nodes[i].parent->Some_0;
    let r = released(nodes, a);
    assert(r[i].parent == nodes[i].parent);
    if p != a {
        lemma_release_revokes_descendants(nodes, a, p);
    }
}

/// Letting a node go leaves the standing of every capability that does not
/// derive from it unchanged: siblings, ancestors and unrelated nodes.
pub proof fn lemma_release_spares_others(nodes: Seq<RevNodeView>, a: int, i: int)
    requires
        0 <= a < nodes.len(),
        !is_strict_ancestor(nodes, a, i),
    ensures
        ancestors_held(released(nodes, a), i) == ancestors_held(nodes, i),
    decreases i,
{
    let r = released(nodes, a);
    if 0 <= i < nodes.len() {
        assert(r[i].parent == nodes[i].parent);
        match nodes[i].parent {
            None => {},
            Some(p) => {
                if 0 <= p < i {
                    assert(r[p] == nodes[p]);
                    lemma_release_spares_others(nodes, a, p);
                }
            },
        }
    }
}

/// Creating a node, or adding a hook, never changes the standing of an
/// existing capability.
pub proof fn lemma_extension_keeps_standing(nodes: Seq<RevNodeView>, more: Seq<RevNodeView>, i: int)
    requires
        nodes.len() <= more.len(),
        forall|j: int|
            0 <= j < nodes.len() ==> (#[trigger] more[j]).parent == nodes[j].parent && more[j].held
                == nodes[j].held,
    ensures
        0 <= i < nodes.len() ==> ancestors_held(more, i) == ancestors_held(nodes, i),
    decreases i,
{
    if 0 <= i < nodes.len() {
        assert(more[i].parent == nodes[i].parent);
        match nodes[i].parent {
            None => {},
            Some(p) => {
                if 0 <= p < i {
                    assert(more[p].held == nodes[p].held);
                    lemma_extension_keeps_standing(nodes, more, p);
                }
            },
        }
    }
}

/// Members of a live subtree lie between its root and the end of the arena.
pub proof fn lemma_subtree_bounds(nodes: Seq<RevNodeView>, root: int, i: int)
    requires
        in_live_subtree(nodes, root, i),
    ensures
        root <= i < nodes.len(),
    decreases i,
{
}

/// Appends every element of `src` to `dst`.
fn append_all(dst: &mut Vec<u64>, src: &Vec<u64>)
    ensures
        final(dst)@ == old(dst)@ + src@,
{
    let mut k: usize = 0;
    while k < src.len()
        invariant
            k <= src@.len(),
            dst@ == old(dst)@ + src@.subrange(0, k as int),
        decreases src.len() - k,
    {
        dst.push(src[k]);
        proof {
            assert(src@.subrange(0, k + 1) =~= src@.subrange(0, k as int).push(src@[k as int]));
            assert(dst@ =~= old(dst)@ + src@.subrange(0, k + 1));
        }
        k += 1;
    }
    proof {
        assert(src@.subrange(0, src@.len() as int) =~= src@);
    }
}

/// An element of a concatenation comes from one of its parts.
pub proof fn lemma_concat_contains<A>(a: Seq<A>, b: Seq<A>, t: A)
    ensures
        (a + b).contains(t) <==> (a.contains(t) || b.contains(t)),
{
    if (a + b).contains(t) {
        let w = choose|w: int| 0 <= w < (a + b).len() && (a + b)[w] == t;
        if w < a.len() {
            assert(a[w] == t);
        } else {
            assert(b[w - a.len()] == t);
        }
    }
    if a.contains(t) {
        let w = choose|w: int| 0 <= w < a.len() && a[w] == t;
        assert((a + b)[w] == t);
    }
    if b.contains(t) {
        let w = choose|w: int| 0 <= w < b.len() && b[w] == t;
        assert((a + b)[w + a.len()] == t);
    }
}

} // verus!
