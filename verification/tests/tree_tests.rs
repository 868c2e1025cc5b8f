//! Commitment tree behaviour: path/root agreement, merge/rebuild
//! agreement, and the empty-root padding rule.

use aarm::digest::{Digest, Hashable};
use aarm::tree::CommitmentTree;

fn d(x: u32) -> Digest {
    Digest::new([x, 0, 0, 0, 0, 0, 0, x])
}

/// The root climbed from every leaf's path equals the tree's root.
#[test]
fn path_roots_match_tree_root() {
    let leaves = vec![d(1), d(2), d(3), d(4), d(5)];
    let tree = CommitmentTree::<4, Digest>::new(&leaves);
    let root = tree.root();
    for i in 0..leaves.len() {
        let path = tree.path(i);
        assert_eq!(path.root(leaves[i]), root);
    }
}

/// A path to an unfilled slot authenticates the blank leaf.
#[test]
fn path_to_empty_slot_matches_root() {
    let leaves = vec![d(7), d(8), d(9)];
    let tree = CommitmentTree::<3, Digest>::new(&leaves);
    let root = tree.root();
    for i in leaves.len()..8 {
        let path = tree.path(i);
        assert_eq!(path.root(Digest::blank()), root);
    }
}

/// Merging equal-size full subtrees with a partial trailing one gives the
/// same root as rebuilding from the concatenated leaves.
#[test]
fn merge_matches_rebuild() {
    let all = vec![d(1), d(2), d(3), d(4), d(5)];
    let t1 = CommitmentTree::<4, Digest>::new(&all[0..2]);
    let t2 = CommitmentTree::<4, Digest>::new(&all[2..4]);
    let t3 = CommitmentTree::<4, Digest>::new(&all[4..5]);
    let merged = CommitmentTree::<4, Digest>::merge(&[t1, t2, t3]);
    let rebuilt = CommitmentTree::<4, Digest>::new(&all);
    assert_eq!(merged.size(), 5);
    assert_eq!(merged.root(), rebuilt.root());
}

/// Merging nothing gives the empty tree; merging one tree is the
/// identity.
#[test]
fn merge_degenerate_cases() {
    let empty = CommitmentTree::<4, Digest>::merge(&[]);
    assert_eq!(empty.size(), 0);
    assert_eq!(empty.root(), CommitmentTree::<4, Digest>::new(&[]).root());

    let leaves = vec![d(1), d(2), d(3)];
    let t = CommitmentTree::<4, Digest>::new(&leaves);
    let same = CommitmentTree::<4, Digest>::merge(&[t]);
    assert_eq!(same.size(), 3);
    assert_eq!(same.root(), CommitmentTree::<4, Digest>::new(&leaves).root());
}

/// Merging single-leaf subtrees also agrees with rebuilding.
#[test]
fn merge_single_leaf_subtrees() {
    let all = vec![d(10), d(11), d(12)];
    let t1 = CommitmentTree::<3, Digest>::new(&all[0..1]);
    let t2 = CommitmentTree::<3, Digest>::new(&all[1..2]);
    let t3 = CommitmentTree::<3, Digest>::new(&all[2..3]);
    let merged = CommitmentTree::<3, Digest>::merge(&[t1, t2, t3]);
    assert_eq!(merged.root(), CommitmentTree::<3, Digest>::new(&all).root());
}

/// An odd row is padded with the empty root of its height, never with a
/// blank leaf: the root of one committed leaf at depth two combines the
/// leaf row's blank pad, then the empty root of height one.
#[test]
fn odd_rows_pad_with_empty_roots() {
    let a = d(42);
    let blank = Digest::blank();
    let tree = CommitmentTree::<2, Digest>::new(&[a]);
    let c0 = Digest::combine(0, &a, &blank);
    let e1 = Digest::combine(0, &blank, &blank);
    let expected = Digest::combine(1, &c0, &e1);
    assert_eq!(tree.root(), expected);
}

/// The root of the empty tree is the all-blank root of the fixed depth.
#[test]
fn empty_tree_root_is_blank_root() {
    let blank = Digest::blank();
    let e1 = Digest::combine(0, &blank, &blank);
    let e2 = Digest::combine(1, &e1, &e1);
    let tree = CommitmentTree::<2, Digest>::new(&[]);
    assert_eq!(tree.size(), 0);
    assert_eq!(tree.root(), e2);
}

/// A tree holding a full power-of-two leaf row still answers paths and
/// roots consistently.
#[test]
fn full_tree_paths() {
    let leaves = vec![d(1), d(2), d(3), d(4)];
    let tree = CommitmentTree::<2, Digest>::new(&leaves);
    assert_eq!(tree.size(), 4);
    let root = tree.root();
    for i in 0..4 {
        assert_eq!(tree.path(i).root(leaves[i]), root);
    }
}
