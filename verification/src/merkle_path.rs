//! Authentication paths: the per-level siblings of a leaf, which let a
//! party recompute the tree's root from the leaf alone.

use crate::digest::Hashable;
use crate::tree::{
    auth_path_spec, leaf_or_blank, node_at, pos_at, root_spec, sibling_index,
};
use vstd::arithmetic::power2::{lemma_pow2_pos, lemma_pow2_unfold, pow2};
use vstd::prelude::*;

verus! {

/// The value reached by folding `cur` up the path from level `k`: at each
/// level the sibling joins on the side its flag says, with the level as
/// the combine height.
pub open spec fn path_root_from<N: Hashable>(auth: Seq<(N, bool)>, k: nat, cur: N) -> N
    decreases auth.len() - k,
{
    if k >= auth.len() {
        cur
    } else {
        let sib = auth[k as int].0;
        let is_right = auth[k as int].1;
        let next = if is_right {
            N::spec_combine(k as int, sib, cur)
        } else {
            N::spec_combine(k as int, cur, sib)
        };
        path_root_from(auth, k + 1, next)
    }
}

/// The root reached by climbing the whole path from the leaf.
pub open spec fn path_root_spec<N: Hashable>(auth: Seq<(N, bool)>, leaf: N) -> N {
    path_root_from(auth, 0, leaf)
}

/// A path from a position in a particular commitment tree to the root of
/// that tree: one sibling per level, with a flag that says whether the
/// climbing node is the right child there.
pub struct MerklePath<const DEPTH: usize, Node> {
    auth_path: Vec<(Node, bool)>,
}

impl<const DEPTH: usize, Node: Hashable> MerklePath<DEPTH, Node> {
    /// The per-level siblings and side flags.
    pub closed spec fn spec_auth(&self) -> Seq<(Node, bool)> {
        self.auth_path@
    }

    /// Well-formed: one entry per tree level.
    pub closed spec fn wf(&self) -> bool {
        self.auth_path@.len() == DEPTH
    }

    /// Constructs a Merkle path directly from the per-level siblings.
    pub fn from_path(auth_path: Vec<(Node, bool)>) -> (p: Self)
        requires
            auth_path@.len() == DEPTH,
        ensures
            p.wf(),
            p.spec_auth() == auth_path@,
    {
        MerklePath { auth_path }
    }

    /// The path's entries, for callers outside the tree.
    pub fn entries(&self) -> (r: &Vec<(Node, bool)>)
        ensures
            r@ == self.spec_auth(),
    {
        &self.auth_path
    }

    /// Returns the root of the tree corresponding to this path applied to
    /// `leaf`.
    pub fn root(&self, leaf: Node) -> (r: Node)
        requires
            self.wf(),
        ensures
            r == path_root_spec(self.spec_auth(), leaf),
    {
        let mut cur = leaf;
        let mut k: usize = 0;
        let len = self.auth_path.len();
        while k < len
            invariant
                k <= len,
                len == self.auth_path@.len(),
                path_root_from(self.spec_auth(), k as nat, cur) == path_root_spec(
                    self.spec_auth(),
                    leaf,
                ),
            decreases len - k,
        {
            let e = self.auth_path[k];
            cur = if e.1 {
                Node::combine(k, &e.0, &cur)
            } else {
                Node::combine(k, &cur, &e.0)
            };
            k = k + 1;
        }
        cur
    }
}

/// Climbing the authentication path of position `pos` from the leaf that
/// stands there reaches the root of the whole tree.
pub proof fn lemma_path_root<N: Hashable>(l: Seq<N>, depth: nat, pos: int)
    requires
        0 <= pos < pow2(depth),
    ensures
        path_root_spec(auth_path_spec(l, depth, pos), leaf_or_blank(l, pos)) == root_spec(
            l,
            depth,
        ),
{
    assert(pow2(0) == 1) by {
        vstd::arithmetic::power2::lemma2_to64();
    }
    assert(pos_at(pos, 0) == pos);
    assert(node_at(l, 0, pos) == leaf_or_blank(l, pos));
    lemma_path_root_from(l, depth, pos, 0);
}

/// Climbing from level `k` with the conceptual node standing at the
/// path's position there reaches the root.
proof fn lemma_path_root_from<N: Hashable>(l: Seq<N>, depth: nat, pos: int, k: nat)
    requires
        0 <= pos < pow2(depth),
        k <= depth,
    ensures
        path_root_from(auth_path_spec(l, depth, pos), k, node_at(l, k, pos_at(pos, k)))
            == root_spec(l, depth),
    decreases depth - k,
{
    let auth = auth_path_spec(l, depth, pos);
    if k == depth {
        vstd::arithmetic::div_mod::lemma_basic_div(pos, pow2(depth) as int);
        assert(pos_at(pos, depth) == 0);
        assert(path_root_from(auth, k, node_at(l, k, 0)) == node_at(l, depth, 0));
    } else {
        let pk = pos_at(pos, k);
        lemma_pow2_pos(k);
        vstd::arithmetic::div_mod::lemma_div_pos_is_pos(pos, pow2(k) as int);
        assert(pk >= 0);
        // One level up, the position halves.
        lemma_pow2_unfold((k + 1) as nat);
        vstd::arithmetic::div_mod::lemma_div_denominator(pos, pow2(k) as int, 2);
        assert(pos_at(pos, (k + 1) as nat) == pk / 2);
        let sib = sibling_index(pos, k);
        assert(auth[k as int] == (node_at(l, k, sib), pk % 2 == 1));
        if pk % 2 == 0 {
            assert(pk == 2 * (pk / 2) && sib == 2 * (pk / 2) + 1);
            assert(node_at(l, (k + 1) as nat, pk / 2) == N::spec_combine(
                k as int,
                node_at(l, k, pk),
                node_at(l, k, sib),
            ));
        } else {
            assert(sib == 2 * (pk / 2) && pk == 2 * (pk / 2) + 1);
            assert(node_at(l, (k + 1) as nat, pk / 2) == N::spec_combine(
                k as int,
                node_at(l, k, sib),
                node_at(l, k, pk),
            ));
        }
        assert(path_root_from(auth, k, node_at(l, k, pk)) == path_root_from(
            auth,
            k + 1,
            node_at(l, (k + 1) as nat, pk / 2),
        ));
        lemma_path_root_from(l, depth, pos, k + 1);
    }
}

} // verus!
