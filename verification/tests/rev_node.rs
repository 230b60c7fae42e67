use kernel::kobject::rev_node::RevTree;

#[test]
fn root_is_alive() {
    let mut tree = RevTree::new();
    let root = tree.new_root();
    assert!(tree.is_alive(root));
}

#[test]
fn child_alive_while_parent_alive() {
    let mut tree = RevTree::new();
    let root = tree.new_root();
    let child = tree.new_child(root);
    assert!(tree.is_alive(child));
}

#[test]
fn child_dies_when_parent_dropped() {
    let mut tree = RevTree::new();
    let root = tree.new_root();
    let child = tree.new_child(root);
    tree.release(root);
    assert!(!tree.is_alive(child));
}

#[test]
fn grandchild_dies_through_dead_ancestor() {
    let mut tree = RevTree::new();
    let root = tree.new_root();
    let mid = tree.new_child(root);
    let leaf = tree.new_child(mid);
    assert!(tree.is_alive(leaf));
    tree.release(root);
    assert!(!tree.is_alive(leaf));
    assert!(!tree.is_alive(mid));
}

#[test]
fn siblings_are_independent() {
    let mut tree = RevTree::new();
    let root = tree.new_root();
    let a = tree.new_child(root);
    let b = tree.new_child(root);
    tree.release(a);
    assert!(tree.is_alive(b));
}

#[test]
fn revoke_subtree_fires_node_and_descendant_hooks_only() {
    let mut tree = RevTree::new();
    let root = tree.new_root();
    let child = tree.new_child(root);
    let grandchild = tree.new_child(child);
    let sibling = tree.new_child(root);
    tree.register_hook(child, 1);
    tree.register_hook(grandchild, 2);
    tree.register_hook(sibling, 3);
    let mut fired = tree.revoke_subtree(child);
    fired.sort();
    assert_eq!(fired, vec![1, 2]);
}

#[test]
fn revoke_subtree_skips_dropped_hooks() {
    let mut tree = RevTree::new();
    let root = tree.new_root();
    tree.register_hook(root, 4);
    let fired = tree.revoke_subtree(root);
    assert_eq!(fired, vec![4]);
}

#[test]
fn revoke_subtree_refires_live_hooks_on_repeat() {
    let mut tree = RevTree::new();
    let root = tree.new_root();
    let child = tree.new_child(root);
    tree.register_hook(child, 5);
    assert_eq!(tree.revoke_subtree(root), vec![5]);
    assert_eq!(tree.revoke_subtree(root), vec![5]);
}

#[test]
fn released_descendants_are_not_walked() {
    let mut tree = RevTree::new();
    let root = tree.new_root();
    let child = tree.new_child(root);
    let leaf = tree.new_child(child);
    tree.register_hook(leaf, 6);
    tree.release(child);
    assert!(tree.revoke_subtree(root).is_empty());
    assert_eq!(tree.len(), 3);
    assert!(!tree.is_alive(99));
}
