//! An immutable fixed-depth Merkle commitment tree, stored as one flat
//! row-major vector: leaves first, root last. Rows of odd width are padded
//! with the empty root of their height before combining, so a partly
//! filled tree has the same root as the same leaves padded with blanks.

use crate::digest::Hashable;
use vstd::arithmetic::power2::{lemma_pow2_adds, lemma_pow2_pos, lemma_pow2_unfold, pow2};
use vstd::prelude::*;

verus! {

/// The leaf at index `t`, or the blank node when `t` lies beyond the
/// committed leaves: the tree behaves as if padded with blanks.
pub open spec fn leaf_or_blank<N: Hashable>(l: Seq<N>, t: int) -> N {
    if 0 <= t < l.len() {
        l[t]
    } else {
        N::spec_blank()
    }
}

/// The node at height `h` and index `i` of the conceptual full tree over
/// the leaves `l` padded with blanks.
pub open spec fn node_at<N: Hashable>(l: Seq<N>, h: nat, i: int) -> N
    decreases h,
{
    if h == 0 {
        leaf_or_blank(l, i)
    } else {
        N::spec_combine(
            h - 1,
            node_at(l, (h - 1) as nat, 2 * i),
            node_at(l, (h - 1) as nat, 2 * i + 1),
        )
    }
}

/// The root of a subtree of height `h` all of whose leaves are blank.
pub open spec fn empty_root<N: Hashable>(h: nat) -> N
    decreases h,
{
    if h == 0 {
        N::spec_blank()
    } else {
        N::spec_combine(h - 1, empty_root((h - 1) as nat), empty_root((h - 1) as nat))
    }
}

/// The root of the full tree of the given depth over leaves `l`.
pub open spec fn root_spec<N: Hashable>(l: Seq<N>, depth: nat) -> N {
    node_at(l, depth, 0)
}

/// The width of row `r` before padding, for `n` leaves.
pub open spec fn row_width(n: nat, r: nat) -> nat
    decreases r,
{
    if r == 0 {
        n
    } else {
        let w = row_width(n, (r - 1) as nat);
        (w + w % 2) / 2
    }
}

/// The width of row `r` after padding to an even width.
pub open spec fn padded_width(n: nat, r: nat) -> nat {
    row_width(n, r) + row_width(n, r) % 2
}

/// Where row `r` starts in the flat node vector.
pub open spec fn row_start(n: nat, r: nat) -> nat
    decreases r,
{
    if r == 0 {
        0
    } else {
        row_start(n, (r - 1) as nat) + padded_width(n, (r - 1) as nat)
    }
}

/// A subtree whose leaf window lies entirely beyond the committed leaves
/// has the empty root of its height.
pub proof fn lemma_blank_subtree<N: Hashable>(l: Seq<N>, h: nat, i: int)
    requires
        i >= 0,
        i * pow2(h) >= l.len(),
    ensures
        node_at(l, h, i) == empty_root::<N>(h),
    decreases h,
{
    if h == 0 {
        assert(pow2(0) == 1) by {
            vstd::arithmetic::power2::lemma2_to64();
        }
    } else {
        let hm = (h - 1) as nat;
        lemma_pow2_unfold(h);
        lemma_pow2_pos(hm);
        assert((2 * i) * pow2(hm) == i * pow2(h)) by (nonlinear_arith)
            requires
                pow2(h) == 2 * pow2(hm),
        ;
        assert((2 * i + 1) * pow2(hm) >= (2 * i) * pow2(hm)) by (nonlinear_arith)
            requires
                pow2(hm) >= 1,
                i >= 0,
        ;
        lemma_blank_subtree(l, hm, 2 * i);
        lemma_blank_subtree(l, hm, 2 * i + 1);
    }
}

/// Row `r` has at least one node, and its width is the number of
/// height-`r` subtrees needed to cover `n` leaves.
pub proof fn lemma_row_width_bounds(n: nat, r: nat)
    requires
        n >= 1,
    ensures
        row_width(n, r) >= 1,
        (row_width(n, r) - 1) * pow2(r) < n,
        n <= row_width(n, r) * pow2(r),
    decreases r,
{
    if r == 0 {
        assert(pow2(0) == 1) by {
            vstd::arithmetic::power2::lemma2_to64();
        }
    } else {
        let rm = (r - 1) as nat;
        lemma_row_width_bounds(n, rm);
        lemma_pow2_unfold(r);
        lemma_pow2_pos(rm);
        let w = row_width(n, rm);
        let pw = padded_width(n, rm);
        let w2 = row_width(n, r);
        assert(w2 == pw / 2);
        if w % 2 == 0 {
            assert(pw == w && w2 == w / 2 && w == 2 * w2);
            assert((w2 - 1) * pow2(r) < n) by (nonlinear_arith)
                requires
                    pow2(r) == 2 * pow2(rm),
                    w == 2 * w2,
                    (w - 1) * pow2(rm) < n,
                    pow2(rm) >= 1,
            ;
            assert(n <= w2 * pow2(r)) by (nonlinear_arith)
                requires
                    pow2(r) == 2 * pow2(rm),
                    w == 2 * w2,
                    n <= w * pow2(rm),
            ;
        } else {
            assert(pw == w + 1 && w + 1 == 2 * w2);
            assert((w2 - 1) * pow2(r) < n) by (nonlinear_arith)
                requires
                    pow2(r) == 2 * pow2(rm),
                    w + 1 == 2 * w2,
                    (w - 1) * pow2(rm) < n,
                    pow2(rm) >= 1,
            ;
            assert(n <= w2 * pow2(r)) by (nonlinear_arith)
                requires
                    pow2(r) == 2 * pow2(rm),
                    w + 1 == 2 * w2,
                    n <= w * pow2(rm),
                    pow2(rm) >= 1,
            ;
        }
    }
}

/// With `n` leaves fitting the depth, the top row is the single root.
pub proof fn lemma_top_width(n: nat, d: nat)
    requires
        1 <= n,
        n <= pow2(d),
    ensures
        row_width(n, d) == 1,
{
    lemma_row_width_bounds(n, d);
    let w = row_width(n, d);
    if w >= 2 {
        assert((w - 1) * pow2(d) >= pow2(d)) by (nonlinear_arith)
            requires
                w >= 2,
                pow2(d) >= 0,
        ;
    }
}

/// Row starts together with their widths grow with the row index.
pub proof fn lemma_row_extent_mono(n: nat, r1: nat, r2: nat)
    requires
        r1 <= r2,
    ensures
        row_start(n, r1) + row_width(n, r1) <= row_start(n, r2) + row_width(n, r2),
        row_start(n, r1) <= row_start(n, r2),
    decreases r2 - r1,
{
    if r1 < r2 {
        let rm = (r2 - 1) as nat;
        lemma_row_extent_mono(n, r1, rm);
        assert(row_start(n, r2) == row_start(n, rm) + padded_width(n, rm));
    }
}

/// The flat vector of a tree over `n` leaves holds at most `2n + 2r`
/// nodes up to row `r`.
pub proof fn lemma_size_bound(n: nat, r: nat)
    ensures
        row_start(n, r) + 2 * row_width(n, r) <= 2 * n + 2 * r,
    decreases r,
{
    if r > 0 {
        let rm = (r - 1) as nat;
        lemma_size_bound(n, rm);
        let pw = padded_width(n, rm);
        assert(row_start(n, r) + 2 * row_width(n, r) <= row_start(n, rm) + 2 * pw);
    }
}

/// With no leaves, every row is empty.
pub proof fn lemma_zero_rows(r: nat)
    ensures
        row_width(0, r) == 0,
        row_start(0, r) == 0,
    decreases r,
{
    if r > 0 {
        lemma_zero_rows((r - 1) as nat);
    }
}

/// A row is never wider than the leaf row.
pub proof fn lemma_row_width_le(n: nat, r: nat)
    ensures
        row_width(n, r) <= n,
    decreases r,
{
    if r > 0 {
        lemma_row_width_le(n, (r - 1) as nat);
        if n == 0 {
            lemma_zero_rows(r);
        }
    }
}

/// A row index at or beyond the row's width covers only blank leaves.
proof fn lemma_blank_over_row<N: Hashable>(l: Seq<N>, n: nat, h: nat, i: int)
    requires
        l.len() == n,
        i >= row_width(n, h),
    ensures
        node_at(l, h, i) == empty_root::<N>(h),
{
    lemma_pow2_pos(h);
    if n == 0 {
        assert(i * pow2(h) >= 0) by (nonlinear_arith)
            requires
                i >= 0,
                pow2(h) >= 1,
        ;
        lemma_blank_subtree(l, h, i);
    } else {
        lemma_row_width_bounds(n, h);
        assert(i * pow2(h) >= row_width(n, h) * pow2(h)) by (nonlinear_arith)
            requires
                i >= row_width(n, h),
                pow2(h) >= 1,
        ;
        lemma_blank_subtree(l, h, i);
    }
}

/// Two leaf windows of the same height that hold the same values, blanks
/// beyond the leaves included, give the same tree node.
pub proof fn lemma_node_window<N: Hashable>(l1: Seq<N>, l2: Seq<N>, h: nat, i1: int, i2: int)
    requires
        i1 >= 0,
        i2 >= 0,
        forall|u: int|
            i1 * pow2(h) <= u < (i1 + 1) * pow2(h) ==> #[trigger] leaf_or_blank(l1, u)
                == leaf_or_blank(l2, u - i1 * pow2(h) + i2 * pow2(h)),
    ensures
        node_at(l1, h, i1) == node_at(l2, h, i2),
    decreases h,
{
    let p2 = pow2(h) as int;
    if h == 0 {
        assert(pow2(0) == 1) by {
            vstd::arithmetic::power2::lemma2_to64();
        }
        assert(i1 * 1 <= i1 < (i1 + 1) * 1);
        assert(leaf_or_blank(l1, i1) == leaf_or_blank(l2, i1 - i1 * 1 + i2 * 1));
    } else {
        let hm = (h - 1) as nat;
        lemma_pow2_unfold(h);
        lemma_pow2_pos(hm);
        let p = pow2(hm) as int;
        assert forall|u: int|
            (2 * i1) * p <= u < (2 * i1 + 1) * p implies #[trigger] leaf_or_blank(l1, u)
            == leaf_or_blank(l2, u - (2 * i1) * p + (2 * i2) * p) by {
            assert((2 * i1) * p == i1 * p2 && (2 * i2) * p == i2 * p2 && (i1 + 1) * p2 == i1 * p2
                + 2 * p && (2 * i1 + 1) * p == i1 * p2 + p) by (nonlinear_arith)
                requires
                    p2 == 2 * p,
            ;
            assert(leaf_or_blank(l1, u) == leaf_or_blank(l2, u - i1 * p2 + i2 * p2));
        }
        lemma_node_window(l1, l2, hm, 2 * i1, 2 * i2);
        assert forall|u: int|
            (2 * i1 + 1) * p <= u < (2 * i1 + 2) * p implies #[trigger] leaf_or_blank(l1, u)
            == leaf_or_blank(l2, u - (2 * i1 + 1) * p + (2 * i2 + 1) * p) by {
            assert((2 * i1 + 1) * p == i1 * p2 + p && (2 * i2 + 1) * p == i2 * p2 + p && (i1 + 1)
                * p2 == i1 * p2 + 2 * p && (2 * i1 + 2) * p == i1 * p2 + 2 * p) by (nonlinear_arith)
                requires
                    p2 == 2 * p,
            ;
            assert(leaf_or_blank(l1, u) == leaf_or_blank(l2, u - i1 * p2 + i2 * p2));
        }
        lemma_node_window(l1, l2, hm, 2 * i1 + 1, 2 * i2 + 1);
        assert(node_at(l1, h, i1) == N::spec_combine(
            hm as int,
            node_at(l1, hm, 2 * i1),
            node_at(l1, hm, 2 * i1 + 1),
        ));
        assert(node_at(l2, h, i2) == N::spec_combine(
            hm as int,
            node_at(l2, hm, 2 * i2),
            node_at(l2, hm, 2 * i2 + 1),
        ));
    }
}

/// The membership law at the tree level: the authentication path of any
/// position in a well-formed tree climbs from the leaf standing there
/// back to the tree's own root.
pub proof fn lemma_tree_path_root<const DEPTH: usize, Node: Hashable>(
    t: CommitmentTree<DEPTH, Node>,
    pos: int,
)
    requires
        t.wf(),
        0 <= pos < pow2(DEPTH as nat),
    ensures
        crate::merkle_path::path_root_spec(
            auth_path_spec(t.leaves(), DEPTH as nat, pos),
            leaf_or_blank(t.leaves(), pos),
        ) == root_spec(t.leaves(), DEPTH as nat),
{
    crate::merkle_path::lemma_path_root(t.leaves(), DEPTH as nat, pos);
}

/// Merging subtrees commits the same leaves as building one tree from
/// their concatenation, so the two trees share one root.
pub proof fn lemma_merge_matches_new<const DEPTH: usize, Node: Hashable>(
    merged: CommitmentTree<DEPTH, Node>,
    rebuilt: CommitmentTree<DEPTH, Node>,
)
    requires
        merged.leaves() == rebuilt.leaves(),
    ensures
        root_spec(merged.leaves(), DEPTH as nat) == root_spec(rebuilt.leaves(), DEPTH as nat),
{
}

/// The index, within row `h`, of the ancestor of the leaf at `pos`.
pub open spec fn pos_at(pos: int, h: nat) -> int {
    pos / pow2(h) as int
}

/// The index of the sibling of the leaf's ancestor at height `h`.
pub open spec fn sibling_index(pos: int, h: nat) -> int {
    if pos_at(pos, h) % 2 == 0 {
        pos_at(pos, h) + 1
    } else {
        pos_at(pos, h) - 1
    }
}

/// The authentication path of `pos`: for each height, the sibling of the
/// climbing node and whether the climbing node is a right child.
pub open spec fn auth_path_spec<N: Hashable>(l: Seq<N>, depth: nat, pos: int) -> Seq<(N, bool)> {
    Seq::new(
        depth,
        |h: int|
            (
                node_at(l, h as nat, sibling_index(pos, h as nat)),
                pos_at(pos, h as nat) % 2 == 1,
            ),
    )
}

/// An immutable commitment tree with a fixed depth: all rows of the tree
/// in one flat vector, and the number of committed leaves.
pub struct CommitmentTree<const DEPTH: usize, Node> {
    nodes: Vec<Node>,
    leaf_count: usize,
}

/// The leaves of the first `k` subtrees, in order.
pub open spec fn leaves_upto<const DEPTH: usize, Node: Hashable>(
    subs: Seq<CommitmentTree<DEPTH, Node>>,
    k: int,
) -> Seq<Node>
    decreases k,
{
    if k <= 0 {
        Seq::empty()
    } else {
        leaves_upto(subs, k - 1) + subs[k - 1].leaves()
    }
}

/// How many leaves the first `k` subtrees hold together.
pub open spec fn size_upto<const DEPTH: usize, Node: Hashable>(
    subs: Seq<CommitmentTree<DEPTH, Node>>,
    k: int,
) -> nat
    decreases k,
{
    if k <= 0 {
        0
    } else {
        size_upto(subs, k - 1) + subs[k - 1].spec_size()
    }
}

/// The concatenated leaves are as many as the subtree sizes say, and each
/// subtree's leaves stand at its offset; a prefix of equal-size subtrees
/// starts at multiples of that size.
pub proof fn lemma_leaves_upto<const DEPTH: usize, Node: Hashable>(
    subs: Seq<CommitmentTree<DEPTH, Node>>,
    k: int,
)
    requires
        0 <= k <= subs.len(),
        forall|i: int| 0 <= i < subs.len() ==> (#[trigger] subs[i]).leaves().len() == subs[
            i
        ].spec_size(),
    ensures
        leaves_upto(subs, k).len() == size_upto(subs, k),
        forall|t: int, x: int|
            0 <= t < k && 0 <= x < subs[t].leaves().len() ==> #[trigger] leaves_upto(subs, k)[
                size_upto(subs, t) + x
            ] == subs[t].leaves()[x],
    decreases k,
{
    if k > 0 {
        lemma_leaves_upto(subs, k - 1);
        assert(subs[k - 1].leaves().len() == subs[k - 1].spec_size());
        assert forall|t: int, x: int|
            0 <= t < k && 0 <= x < subs[t].leaves().len() implies #[trigger] leaves_upto(subs, k)[
            size_upto(subs, t) + x
        ] == subs[t].leaves()[x] by {
            if t < k - 1 {
                lemma_size_upto_mono(subs, t + 1, k - 1);
                assert(leaves_upto(subs, k - 1)[size_upto(subs, t) + x] == subs[t].leaves()[x]);
            }
        }
    }
}

/// The leaf total over a prefix grows with the prefix.
pub proof fn lemma_size_upto_mono<const DEPTH: usize, Node: Hashable>(
    subs: Seq<CommitmentTree<DEPTH, Node>>,
    k1: int,
    k2: int,
)
    requires
        k1 <= k2,
    ensures
        size_upto(subs, k1) <= size_upto(subs, k2),
    decreases k2 - k1,
{
    if k1 < k2 {
        lemma_size_upto_mono(subs, k1, k2 - 1);
    }
}

/// Over subtrees of one size `pow2(m)`, the prefix totals are multiples
/// of that size.
pub proof fn lemma_size_upto_uniform<const DEPTH: usize, Node: Hashable>(
    subs: Seq<CommitmentTree<DEPTH, Node>>,
    s: nat,
    k: int,
)
    requires
        0 <= k <= subs.len(),
        forall|i: int| 0 <= i < k ==> (#[trigger] subs[i]).spec_size() == s,
    ensures
        size_upto(subs, k) == k * s,
    decreases k,
{
    if k <= 0 {
        assert(k * s == 0) by (nonlinear_arith)
            requires
                k == 0,
        ;
    } else {
        lemma_size_upto_uniform(subs, s, k - 1);
        assert(subs[k - 1].spec_size() == s);
        assert(size_upto(subs, k) == size_upto(subs, k - 1) + subs[k - 1].spec_size());
        assert(k * s == (k - 1) * s + s) by (nonlinear_arith);
    }
}

/// The rows below `upto` are all stored: each padded row `r` stands at
/// `row_start(n, r)` inside the vector and holds the conceptual nodes of
/// the blank-padded full tree over the leaves `l`.
pub open spec fn rows_ok<N: Hashable>(nodes: Seq<N>, l: Seq<N>, n: nat, upto: nat) -> bool {
    forall|r: int, j: int|
        0 <= r < upto && 0 <= j < padded_width(n, r as nat) ==> #[trigger] node_at(l, r as nat, j)
            == nodes[row_start(n, r as nat) + j] && row_start(n, r as nat) + j < nodes.len()
}

/// Appending nodes to the vector keeps the stored rows as they are.
pub proof fn lemma_rows_ok_grow<N: Hashable>(
    pre: Seq<N>,
    post: Seq<N>,
    l: Seq<N>,
    n: nat,
    upto: nat,
)
    requires
        rows_ok(pre, l, n, upto),
        pre.len() <= post.len(),
        forall|i: int| 0 <= i < pre.len() ==> post[i] == pre[i],
    ensures
        rows_ok(post, l, n, upto),
{
    assert forall|r: int, j: int|
        0 <= r < upto && 0 <= j < padded_width(n, r as nat) implies #[trigger] node_at(
        l,
        r as nat,
        j,
    ) == post[row_start(n, r as nat) + j] && row_start(n, r as nat) + j < post.len() by {
        let nn = node_at(l, r as nat, j);
        let idx = row_start(n, r as nat) + j;
        assert(nn == pre[idx] && idx < pre.len());
        assert(post[idx] == pre[idx]);
    }
}

/// A fully stored next row extends the stored-rows property one row up.
pub proof fn lemma_rows_ok_extend<N: Hashable>(
    nodes: Seq<N>,
    l: Seq<N>,
    n: nat,
    upto: nat,
    start: int,
)
    requires
        rows_ok(nodes, l, n, upto),
        start == row_start(n, upto),
        forall|j: int|
            0 <= j < padded_width(n, upto) ==> #[trigger] node_at(l, upto, j) == nodes[start + j],
        start + padded_width(n, upto) <= nodes.len(),
    ensures
        rows_ok(nodes, l, n, (upto + 1) as nat),
{
    assert forall|r: int, j: int|
        0 <= r < upto + 1 && 0 <= j < padded_width(n, r as nat) implies #[trigger] node_at(
        l,
        r as nat,
        j,
    ) == nodes[row_start(n, r as nat) + j] && row_start(n, r as nat) + j < nodes.len() by {
        let nn = node_at(l, r as nat, j);
        if r < upto {
            assert(nn == nodes[row_start(n, r as nat) + j] && row_start(n, r as nat) + j
                < nodes.len());
        } else {
            assert(r as nat == upto);
            assert(nn == nodes[start + j]);
        }
    }
}

/// Reads one stored node out of a row the property covers.
pub proof fn lemma_rows_ok_read<N: Hashable>(nodes: Seq<N>, l: Seq<N>, n: nat, upto: nat, r: int, j: int)
    requires
        rows_ok(nodes, l, n, upto),
        0 <= r < upto,
        0 <= j < padded_width(n, r as nat),
    ensures
        row_start(n, r as nat) + j < nodes.len(),
        node_at(l, r as nat, j) == nodes[row_start(n, r as nat) + j],
{
    let nn = node_at(l, r as nat, j);
    assert(nn == nodes[row_start(n, r as nat) + j] && row_start(n, r as nat) + j < nodes.len());
}

/// Over `k1` full subtrees of `pow2(m)` leaves followed by a partial one
/// of `nl` leaves, each row of the joint tree is the subtrees' rows side
/// by side.
pub proof fn lemma_width_additive(k1: nat, m: nat, nl: nat, r: nat)
    requires
        k1 >= 1,
        nl <= pow2(m),
        r <= m,
    ensures
        row_width((k1 * pow2(m) + nl) as nat, r) == k1 * pow2((m - r) as nat) + row_width(nl, r),
        r < m ==> padded_width((k1 * pow2(m) + nl) as nat, r) == k1 * pow2((m - r) as nat)
            + padded_width(nl, r),
    decreases r,
{
    let n = (k1 * pow2(m) + nl) as nat;
    lemma_pow2_pos(m);
    if r == 0 {
        assert(row_width(n, 0) == k1 * pow2(m) + row_width(nl, 0));
        if 0 < m {
            lemma_pow2_unfold(m);
            let c = k1 * pow2((m - 1) as nat);
            assert(k1 * pow2(m) == 2 * c) by (nonlinear_arith)
                requires
                    pow2(m) == 2 * pow2((m - 1) as nat),
                    c == k1 * pow2((m - 1) as nat),
            ;
            vstd::arithmetic::div_mod::lemma_mod_multiples_vanish(c as int, nl as int, 2);
            assert(n % 2 == nl % 2);
        }
    } else {
        let rm = (r - 1) as nat;
        lemma_width_additive(k1, m, nl, rm);
        lemma_pow2_unfold((m - rm) as nat);
        let c = k1 * pow2((m - r) as nat);
        assert(k1 * pow2((m - rm) as nat) == 2 * c) by (nonlinear_arith)
            requires
                pow2((m - rm) as nat) == 2 * pow2((m - r) as nat),
                c == k1 * pow2((m - r) as nat),
        ;
        // padded widths are even, so division distributes over the halves
        let pnl = padded_width(nl, rm);
        assert(pnl % 2 == 0);
        let e = pnl / 2;
        assert(pnl == 2 * e);
        assert(padded_width(n, rm) == 2 * c + 2 * e);
        assert((2 * (c + e)) / 2 == c + e) by {
            vstd::arithmetic::div_mod::lemma_div_multiples_vanish((c + e) as int, 2);
        }
        assert(row_width(n, r) == c + e);
        assert(row_width(nl, r) == e);
        if r < m {
            lemma_pow2_unfold((m - r) as nat);
            let c2 = k1 * pow2((m - r - 1) as nat);
            assert(c == 2 * c2) by (nonlinear_arith)
                requires
                    pow2((m - r) as nat) == 2 * pow2((m - r - 1) as nat),
                    c == k1 * pow2((m - r) as nat),
                    c2 == k1 * pow2((m - r - 1) as nat),
            ;
            vstd::arithmetic::div_mod::lemma_mod_multiples_vanish(
                c2 as int,
                row_width(nl, r) as int,
                2,
            );
            assert(row_width(n, r) % 2 == row_width(nl, r) % 2);
        }
    }
}

/// A node of one subtree stands unchanged, at that subtree's offset, in
/// the joint tree over the concatenated leaves.
pub proof fn lemma_merge_element<const DEPTH: usize, Node: Hashable>(
    subs: Seq<CommitmentTree<DEPTH, Node>>,
    k: int,
    s: nat,
    m: nat,
    t: int,
    r: nat,
    j: int,
)
    requires
        2 <= k == subs.len(),
        forall|i: int| 0 <= i < subs.len() ==> (#[trigger] subs[i]).leaves().len() == subs[
            i
        ].spec_size(),
        forall|i: int| 0 <= i < k - 1 ==> (#[trigger] subs[i]).spec_size() == s,
        subs[k - 1].spec_size() <= s,
        pow2(m) == s,
        r <= m,
        0 <= t < k,
        j >= 0,
        t < k - 1 ==> j < pow2((m - r) as nat),
    ensures
        node_at(subs[t].leaves(), r, j) == node_at(
            leaves_upto(subs, k),
            r,
            t * pow2((m - r) as nat) + j,
        ),
{
    let lt = subs[t].leaves();
    let lcat = leaves_upto(subs, k);
    let q = pow2((m - r) as nat) as int;
    let p = pow2(r) as int;
    let i2 = t * q + j;
    lemma_pow2_pos(r);
    lemma_pow2_pos((m - r) as nat);
    lemma_pow2_adds((m - r) as nat, r);
    assert(q * p == s);
    lemma_leaves_upto(subs, k);
    lemma_size_upto_uniform(subs, s, t);
    lemma_size_upto_uniform(subs, s, k - 1);
    assert(i2 >= 0) by (nonlinear_arith)
        requires
            i2 == t * q + j,
            t >= 0,
            q >= 1,
            j >= 0,
    ;
    assert(i2 * p == t * s + j * p) by (nonlinear_arith)
        requires
            i2 == t * q + j,
            q * p == s,
    ;
    lemma_size_upto_mono(subs, t + 1, k);
    assert forall|u: int|
        j * p <= u < (j + 1) * p implies #[trigger] leaf_or_blank(lt, u) == leaf_or_blank(
        lcat,
        u - j * p + i2 * p,
    ) by {
        assert(u >= 0) by (nonlinear_arith)
            requires
                u >= j * p,
                j >= 0,
                p >= 1,
        ;
        let v = t * s + u;
        assert(u - j * p + i2 * p == v);
        assert(size_upto(subs, t) == t * s);
        if t < k - 1 {
            // The window lies inside this full subtree.
            assert((j + 1) * p <= q * p) by (nonlinear_arith)
                requires
                    j + 1 <= q,
                    p >= 1,
            ;
            assert(u < s);
            assert(lcat[size_upto(subs, t) + u] == lt[u]);
            assert(size_upto(subs, t + 1) == t * s + s);
            assert(v < size_upto(subs, t + 1));
            assert(v < lcat.len());
            assert(leaf_or_blank(lt, u) == leaf_or_blank(lcat, v));
        } else {
            // The last subtree: values match where it has leaves, and both
            // sides are blank beyond.
            assert(size_upto(subs, k) == t * s + subs[t].spec_size());
            assert(lcat.len() == t * s + lt.len());
            if u < lt.len() {
                assert(lcat[size_upto(subs, t) + u] == lt[u]);
                assert(leaf_or_blank(lt, u) == leaf_or_blank(lcat, v));
            } else {
                assert(v >= lcat.len());
                assert(leaf_or_blank(lt, u) == Node::spec_blank());
                assert(leaf_or_blank(lcat, v) == Node::spec_blank());
            }
        }
    }
    lemma_node_window(lt, lcat, r, j, i2);
}

impl<const DEPTH: usize, Node: Hashable> CommitmentTree<DEPTH, Node> {
    /// The committed leaves.
    pub closed spec fn leaves(&self) -> Seq<Node> {
        self.nodes@.take(self.leaf_count as int)
    }

    /// The number of committed leaves.
    pub closed spec fn spec_size(&self) -> nat {
        self.leaf_count as nat
    }

    /// Well-formed: every stored row holds the nodes of the conceptual
    /// blank-padded full tree over the committed leaves.
    pub closed spec fn wf(&self) -> bool {
        let n = self.leaf_count as nat;
        &&& n <= pow2(DEPTH as nat)
        &&& self.nodes@.len() >= self.leaf_count
        &&& if n == 0 {
            self.nodes@.len() == 0
        } else {
            &&& self.nodes@.len() == row_start(n, DEPTH as nat) + row_width(n, DEPTH as nat)
            &&& rows_ok(self.nodes@, self.leaves(), n, DEPTH as nat)
            &&& forall|j: int|
                0 <= j < row_width(n, DEPTH as nat) ==> #[trigger] node_at(
                    self.leaves(),
                    DEPTH as nat,
                    j,
                ) == self.nodes@[row_start(n, DEPTH as nat) + j]
        }
    }

    /// Completes the construction of a tree whose rows up to `heightp`
    /// are already laid down, inferring every higher row via `combine`.
    fn complete(tree: Vec<Node>, prev_start: usize, prev_width: usize, heightp: usize, leafs: usize) -> (t: Self)
        requires
            2 * (leafs as nat) + 2 * (DEPTH as nat) < usize::MAX,
            leafs as nat <= pow2(DEPTH as nat),
            heightp <= DEPTH,
            leafs == 0 ==> tree@.len() == 0 && prev_start == 0 && prev_width == 0 && heightp == 0,
            leafs >= 1 ==> {
                &&& tree@.len() >= leafs
                &&& prev_start as nat == row_start(leafs as nat, heightp as nat)
                &&& prev_width as nat == row_width(leafs as nat, heightp as nat)
                &&& tree@.len() == prev_start + prev_width
                &&& rows_ok(tree@, tree@.take(leafs as int), leafs as nat, heightp as nat)
                &&& forall|j: int|
                    0 <= j < prev_width ==> #[trigger] node_at(
                        tree@.take(leafs as int),
                        heightp as nat,
                        j,
                    ) == tree@[prev_start + j]
            },
        ensures
            t.wf(),
            t.leaves() == tree@.take(leafs as int),
            t.spec_size() == leafs as nat,
    {
        let ghost l = tree@.take(leafs as int);
        let ghost n = leafs as nat;
        let mut tree = tree;
        let mut prev_start = prev_start;
        let mut prev_width = prev_width;
        // Recompute the empty root for the entry height
        let mut empty = Node::blank();
        let mut h: usize = 0;
        while h < heightp
            invariant
                h <= heightp,
                empty == empty_root::<Node>(h as nat),
            decreases heightp - h,
        {
            empty = Node::combine(h, &empty, &empty);
            h += 1;
        }
        // Add higher and higher rows of the Merkle tree
        let mut height = heightp;
        while height < DEPTH
            invariant
                heightp <= height <= DEPTH,
                2 * n + 2 * (DEPTH as nat) < usize::MAX,
                n == leafs as nat,
                n <= pow2(DEPTH as nat),
                empty == empty_root::<Node>(height as nat),
                tree@.take(leafs as int) == l,
                leafs == 0 ==> tree@.len() == 0 && prev_start == 0 && prev_width == 0,
                leafs >= 1 ==> tree@.len() >= leafs,
                leafs >= 1 ==> prev_start as nat == row_start(n, height as nat),
                leafs >= 1 ==> prev_width as nat == row_width(n, height as nat),
                leafs >= 1 ==> tree@.len() == prev_start + prev_width,
                leafs >= 1 ==> rows_ok(tree@, l, n, height as nat),
                forall|j: int|
                    0 <= j < prev_width ==> #[trigger] node_at(l, height as nat, j)
                        == tree@[prev_start + j],
            decreases DEPTH - height,
        {
            proof {
                if leafs >= 1 {
                    lemma_row_width_bounds(n, height as nat);
                    lemma_size_bound(n, height as nat);
                }
            }
            let ghost pre = tree@;
            if prev_width % 2 == 1 {
                // The padding node stands where the leaves' cover ends, so
                // it equals the conceptual node there.
                proof {
                    lemma_blank_subtree(l, height as nat, prev_width as int);
                }
                tree.push(empty);
                prev_width = prev_width + 1;
                proof {
                    assert(tree@ == pre.push(empty));
                    assert(pre.push(empty)[pre.len() as int] == empty);
                    assert(forall|k: int|
                        0 <= k < pre.len() ==> #[trigger] tree@[k] == pre[k]);
                    assert(tree@.take(leafs as int) =~= l);
                    if leafs >= 1 {
                        lemma_rows_ok_grow(pre, tree@, l, n, height as nat);
                    }
                    assert forall|j: int|
                        0 <= j < prev_width implies #[trigger] node_at(l, height as nat, j)
                        == tree@[prev_start + j] by {
                        let nn = node_at(l, height as nat, j);
                        if j < prev_width - 1 {
                            assert(nn == pre[prev_start + j]);
                            assert(tree@[prev_start + j] == pre[prev_start + j]);
                        } else {
                            assert(prev_start + j == pre.len());
                        }
                    }
                }
            }
            proof {
                if leafs >= 1 {
                    assert(prev_width as nat == padded_width(n, height as nat));
                    assert(prev_start + prev_width <= 2 * n + 2 * (height as nat) + 1);
                }
            }
            let half = prev_width / 2;
            let ghost row_len = tree@.len();
            let mut j: usize = 0;
            while j < half
                invariant
                    j <= half,
                    prev_width == 2 * half,
                    prev_start + prev_width == row_len,
                    row_len < usize::MAX,
                    tree@.len() == row_len + j,
                    n == leafs as nat,
                    height < DEPTH,
                    tree@.take(leafs as int) == l,
                    tree@.len() >= leafs,
                    leafs >= 1 ==> prev_start as nat == row_start(n, height as nat),
                    leafs >= 1 ==> prev_width as nat == padded_width(n, height as nat),
                    leafs >= 1 ==> rows_ok(tree@, l, n, height as nat),
                    forall|jj: int|
                        0 <= jj < prev_width ==> #[trigger] node_at(l, height as nat, jj)
                            == tree@[prev_start + jj],
                    forall|jj: int|
                        0 <= jj < j ==> #[trigger] node_at(l, (height + 1) as nat, jj)
                            == tree@[row_len + jj],
                decreases half - j,
            {
                let a = tree[prev_start + 2 * j];
                let b = tree[prev_start + 2 * j + 1];
                let comb = Node::combine(height, &a, &b);
                let ghost pre2 = tree@;
                tree.push(comb);
                proof {
                    assert(tree@ == pre2.push(comb));
                    assert(pre2.push(comb)[pre2.len() as int] == comb);
                    assert(forall|k: int|
                        0 <= k < pre2.len() ==> #[trigger] tree@[k] == pre2[k]);
                    assert(node_at(l, (height + 1) as nat, j as int) == Node::spec_combine(
                        height as int,
                        node_at(l, height as nat, 2 * (j as int)),
                        node_at(l, height as nat, 2 * (j as int) + 1),
                    ));
                    assert(tree@.take(leafs as int) =~= l);
                    if leafs >= 1 {
                        lemma_rows_ok_grow(pre2, tree@, l, n, height as nat);
                    }
                    assert forall|jj: int|
                        0 <= jj < prev_width implies #[trigger] node_at(l, height as nat, jj)
                        == tree@[prev_start + jj] by {
                        let nn = node_at(l, height as nat, jj);
                        assert(nn == pre2[prev_start + jj]);
                        assert(tree@[prev_start + jj] == pre2[prev_start + jj]);
                    }
                    assert forall|jj: int|
                        0 <= jj < j + 1 implies #[trigger] node_at(l, (height + 1) as nat, jj)
                        == tree@[row_len + jj] by {
                        let nn = node_at(l, (height + 1) as nat, jj);
                        if jj < j {
                            assert(nn == pre2[row_len + jj]);
                            assert(tree@[row_len + jj] == pre2[row_len + jj]);
                        } else {
                            assert(row_len + jj == pre2.len());
                        }
                    }
                }
                j = j + 1;
            }
            proof {
                if leafs >= 1 {
                    assert(row_start(n, (height + 1) as nat) == row_start(n, height as nat)
                        + padded_width(n, height as nat));
                    assert(row_width(n, (height + 1) as nat) == prev_width as nat / 2);
                    assert forall|jj: int|
                        0 <= jj < padded_width(n, height as nat) implies #[trigger] node_at(
                        l,
                        height as nat,
                        jj,
                    ) == tree@[row_start(n, height as nat) + jj] by {
                        let nn = node_at(l, height as nat, jj);
                        assert(nn == tree@[prev_start + jj]);
                    }
                    lemma_rows_ok_extend(tree@, l, n, height as nat, prev_start as int);
                }
            }
            let ghost old_height = height as nat;
            prev_start = prev_start + prev_width;
            prev_width = prev_width / 2;
            empty = Node::combine(height, &empty, &empty);
            height = height + 1;
            proof {
                assert(empty == empty_root::<Node>(height as nat));
                if leafs >= 1 {
                    assert(rows_ok(tree@, l, n, height as nat));
                }
                assert forall|j: int|
                    0 <= j < prev_width implies #[trigger] node_at(l, height as nat, j)
                    == tree@[prev_start + j] by {
                    let nn = node_at(l, height as nat, j);
                    assert(nn == node_at(l, (old_height + 1) as nat, j));
                    assert(node_at(l, (old_height + 1) as nat, j) == tree@[row_len + j]);
                }
            }
        }
        proof {
            if leafs >= 1 {
                lemma_row_extent_mono(n, 0, DEPTH as nat);
            }
        }
        let t = CommitmentTree { nodes: tree, leaf_count: leafs };
        proof {
            assert(t.leaves() == l);
        }
        t
    }

    /// Merges the n-1 full Merkle trees with the last possibly unfilled
    /// one, without recomputing the rows the subtrees already hold. All
    /// full trees must have the same leaf count, a power of two, and the
    /// last tree must not be larger.
    pub fn merge(subtrees: &[Self]) -> (t: Self)
        requires
            forall|i: int| 0 <= i < subtrees@.len() ==> (#[trigger] subtrees@[i]).wf(),
            subtrees@.len() >= 2 ==> exists|mm: nat| pow2(mm) == subtrees@[0].spec_size(),
            subtrees@.len() >= 2 ==> forall|i: int|
                0 <= i < subtrees@.len() - 1 ==> (#[trigger] subtrees@[i]).spec_size()
                    == subtrees@[0].spec_size(),
            subtrees@.len() >= 2 ==> subtrees@[subtrees@.len() - 1].spec_size()
                <= subtrees@[0].spec_size(),
            size_upto(subtrees@, subtrees@.len() as int) <= pow2(DEPTH as nat),
            2 * size_upto(subtrees@, subtrees@.len() as int) + 2 * (DEPTH as nat) < usize::MAX,
        ensures
            t.wf(),
            t.spec_size() == size_upto(subtrees@, subtrees@.len() as int),
            t.leaves() == leaves_upto(subtrees@, subtrees@.len() as int),
    {
        let k = subtrees.len();
        let ghost subs = subtrees@;
        proof {
            assert forall|i: int|
                0 <= i < subs.len() implies (#[trigger] subs[i]).leaves().len() == subs[
                i
            ].spec_size() by {
                assert(subs[i].wf());
            }
            lemma_leaves_upto(subs, k as int);
        }
        if k == 0 {
            let t = CommitmentTree { nodes: Vec::new(), leaf_count: 0 };
            proof {
                assert(t.leaves() =~= leaves_upto(subs, 0));
            }
            return t;
        }
        if k == 1 {
            // A single subtree merges to itself.
            let t0 = &subtrees[0];
            let t0len = t0.nodes.len();
            let mut nodes: Vec<Node> = Vec::new();
            let mut i: usize = 0;
            while i < t0len
                invariant
                    i <= t0len,
                    t0len == t0.nodes@.len(),
                    nodes@ == t0.nodes@.take(i as int),
                decreases t0len - i,
            {
                let x = t0.nodes[i];
                nodes.push(x);
                proof {
                    assert(nodes@ =~= t0.nodes@.take(i + 1));
                }
                i = i + 1;
            }
            proof {
                assert(nodes@ =~= t0.nodes@);
            }
            let t = CommitmentTree { nodes, leaf_count: t0.leaf_count };
            proof {
                assert(subs[0].wf());
                assert(t.leaves() == t0.leaves());
                assert(t.wf());
                assert(leaves_upto(subs, 0) == Seq::<Node>::empty());
                assert(leaves_upto(subs, 1) =~= t0.leaves());
            }
            return t;
        }
        // Combine the two or more supplied subtrees row by row
        let s = subtrees[0].size();
        let nl = subtrees[k - 1].size();
        let ghost m = choose|mm: nat| pow2(mm) == s as nat;
        let ghost total = size_upto(subs, k as int);
        let ghost lcat = leaves_upto(subs, k as int);
        proof {
            lemma_pow2_pos(m);
            lemma_size_upto_uniform(subs, s as nat, (k - 1) as int);
            assert(total == (k - 1) * (s as nat) + (nl as nat));
            assert(m <= DEPTH) by {
                if m > DEPTH {
                    vstd::arithmetic::power2::lemma_pow2_strictly_increases(DEPTH as nat, m);
                    assert(subs[0].wf());
                }
            }
            lemma_size_upto_mono(subs, (k - 1) as int, k as int);
            assert((k - 1) * (s as nat) == size_upto(subs, (k - 1) as int));
        }
        let total_e: usize = (k - 1) * s + nl;
        let mut tree: Vec<Node> = Vec::new();
        let mut height: usize = 0;
        let mut pfs: usize = 0;
        let mut pfw: usize = s;
        let mut pls: usize = 0;
        let mut plw: usize = nl;
        let mut prev_start: usize = 0;
        let mut prev_width: usize = total_e;
        proof {
            assert(pow2((m - 0) as nat) == s as nat);
            assert(rows_ok(tree@, lcat, total, 0));
        }
        while pfw > 1
            invariant
                k == subs.len(),
                subs == subtrees@,
                k >= 2,
                forall|i: int| 0 <= i < subs.len() ==> (#[trigger] subs[i]).wf(),
                forall|i: int|
                    0 <= i < k - 1 ==> (#[trigger] subs[i]).spec_size() == s as nat,
                s as nat == subs[0].spec_size(),
                nl as nat == subs[subs.len() - 1].spec_size(),
                nl <= s,
                lcat == leaves_upto(subs, k as int),
                total == size_upto(subs, k as int),
                total == total_e as nat,
                total == (k - 1) * (s as nat) + (nl as nat),
                total <= pow2(DEPTH as nat),
                2 * total + 2 * (DEPTH as nat) < usize::MAX,
                pow2(m) == s as nat,
                m <= DEPTH,
                height as nat <= m,
                pfw as nat == pow2((m - height) as nat),
                pfs as nat == row_start(s as nat, height as nat),
                pls as nat == row_start(nl as nat, height as nat),
                plw as nat == row_width(nl as nat, height as nat),
                prev_start as nat == row_start(total, height as nat),
                prev_width as nat == row_width(total, height as nat),
                tree@.len() == prev_start,
                rows_ok(tree@, lcat, total, height as nat),
            decreases pfw,
        {
            proof {
                // Past the top of the full trees pfw would be 1, so this
                // row is below it.
                assert((height as nat) < m) by {
                    if height as nat == m {
                        assert(pow2(0) == 1) by {
                            vstd::arithmetic::power2::lemma2_to64();
                        }
                    }
                }
                lemma_row_width_le(nl as nat, height as nat);
                lemma_width_additive((k - 1) as nat, m, nl as nat, height as nat);
            }
            // Need to make sure that right child is present for parent
            if plw % 2 == 1 {
                plw = plw + 1;
            }
            proof {
                assert(plw as nat == padded_width(nl as nat, height as nat));
            }
            let ghost pre_tree = tree@;
            let ghost pre_len = tree@.len() as int;
            tree = Self::copy_row(tree, subtrees, height, pfs, pfw, pls, plw, Ghost(m));
            proof {
                assert(tree@.len() - pre_len == padded_width(total, height as nat));
                lemma_rows_ok_grow(pre_tree, tree@, lcat, total, height as nat);
                assert forall|j: int|
                    0 <= j < padded_width(total, height as nat) implies #[trigger] node_at(
                    lcat,
                    height as nat,
                    j,
                ) == tree@[row_start(total, height as nat) + j] by {
                    let nn = node_at(lcat, height as nat, j);
                    assert(nn == tree@[pre_len + j]);
                }
                lemma_rows_ok_extend(tree@, lcat, total, height as nat, prev_start as int);
                // The subtree row offsets move to the next row.
                lemma_width_additive(1, m, 0, height as nat);
                lemma_zero_rows(height as nat);
                assert(padded_width(s as nat, height as nat) == pow2((m - height) as nat));
                lemma_pow2_unfold((m - height) as nat);
                lemma_size_bound(s as nat, (height + 1) as nat);
                lemma_size_bound(nl as nat, (height + 1) as nat);
                assert(s as nat <= total) by (nonlinear_arith)
                    requires
                        total == (k - 1) * (s as nat) + (nl as nat),
                        k >= 2,
                        s >= 0,
                        nl >= 0,
                ;
                lemma_row_extent_mono(s as nat, (height + 1) as nat, (height + 1) as nat);
                lemma_row_width_le(total, height as nat);
            }
            pfs = pfs + pfw;
            pfw = pfw / 2;
            pls = pls + plw;
            plw = plw / 2;
            prev_start = tree.len();
            prev_width = (prev_width + prev_width % 2) / 2;
            height = height + 1;
        }
        // The loop stopped at the top of the full trees: lay their roots,
        // and the last tree's top row, side by side, then infer the rest.
        proof {
            assert(height as nat == m) by {
                if (height as nat) < m {
                    vstd::arithmetic::power2::lemma_pow2_strictly_increases(
                        0,
                        (m - height) as nat,
                    );
                    assert(pow2(0) == 1) by {
                        vstd::arithmetic::power2::lemma2_to64();
                    }
                }
            }
            lemma_width_additive((k - 1) as nat, m, nl as nat, m);
            assert(pow2(0) == 1) by {
                vstd::arithmetic::power2::lemma2_to64();
            }
            assert(pow2((m - height) as nat) == 1);
        }
        let ghost pre_tree = tree@;
        let ghost pre_len = tree@.len() as int;
        tree = Self::copy_row(tree, subtrees, height, pfs, pfw, pls, plw, Ghost(m));
        proof {
            assert((k - 1) as int * (pfw as nat) == (k - 1) as int) by (nonlinear_arith)
                requires
                    pfw as nat == 1,
            ;
            assert(tree@.len() - pre_len == row_width(total, m));
            lemma_rows_ok_grow(pre_tree, tree@, lcat, total, m);
            // The committed leaves of the merged vector are the
            // concatenated subtree leaves.
            assert(total >= 1) by (nonlinear_arith)
                requires
                    total == (k - 1) * (s as nat) + (nl as nat),
                    k >= 2,
                    s >= 1,
                    nl >= 0,
            ;
            lemma_row_extent_mono(total, 0, m);
            assert(tree@.len() >= total);
            assert forall|i: int| 0 <= i < total implies tree@[i] == lcat[i] by {
                if m == 0 {
                    assert(node_at(lcat, 0, i) == tree@[pre_len + i]);
                } else {
                    lemma_rows_ok_read(tree@, lcat, total, m, 0, i);
                }
                assert(node_at(lcat, 0, i) == leaf_or_blank(lcat, i));
            }
            assert(tree@.take(total_e as int) =~= lcat);
            assert forall|j: int|
                0 <= j < prev_width implies #[trigger] node_at(
                tree@.take(total_e as int),
                height as nat,
                j,
            ) == tree@[prev_start + j] by {
                let nn = node_at(lcat, height as nat, j);
                assert(nn == tree@[pre_len + j]);
            }
            assert(rows_ok(tree@, tree@.take(total_e as int), total, height as nat));
        }
        let result = Self::complete(tree, prev_start, prev_width, height, total_e);
        proof {
            assert(result.leaves() == lcat);
        }
        result
    }

    /// Lays down one row of the merged tree: the same row of each full
    /// subtree laid side by side, then the row of the partial last one.
    fn copy_row(
        tree: Vec<Node>,
        subtrees: &[Self],
        height: usize,
        pfs: usize,
        pfw: usize,
        pls: usize,
        plw: usize,
        Ghost(m): Ghost<nat>,
    ) -> (out: Vec<Node>)
        requires
            subtrees@.len() >= 2,
            forall|i: int| 0 <= i < subtrees@.len() ==> (#[trigger] subtrees@[i]).wf(),
            forall|i: int|
                0 <= i < subtrees@.len() - 1 ==> (#[trigger] subtrees@[i]).spec_size()
                    == subtrees@[0].spec_size(),
            subtrees@[subtrees@.len() - 1].spec_size() <= subtrees@[0].spec_size(),
            pow2(m) == subtrees@[0].spec_size(),
            m <= DEPTH,
            height as nat <= m,
            pfw as nat == pow2((m - height) as nat),
            pfs as nat == row_start(subtrees@[0].spec_size(), height as nat),
            pls as nat == row_start(subtrees@[subtrees@.len() - 1].spec_size(), height as nat),
            plw as nat == if (height as nat) < m {
                padded_width(subtrees@[subtrees@.len() - 1].spec_size(), height as nat)
            } else {
                row_width(subtrees@[subtrees@.len() - 1].spec_size(), height as nat)
            },
        ensures
            out@.len() == tree@.len() + (subtrees@.len() - 1) * (pfw as nat) + plw,
            forall|i: int| 0 <= i < tree@.len() ==> out@[i] == tree@[i],
            forall|j: int|
                0 <= j < out@.len() - tree@.len() ==> #[trigger] node_at(
                    leaves_upto(subtrees@, subtrees@.len() as int),
                    height as nat,
                    j,
                ) == out@[tree@.len() + j],
    {
        let k = subtrees.len();
        let ghost subs = subtrees@;
        let ghost s = subs[0].spec_size();
        let ghost nl = subs[subs.len() - 1].spec_size();
        let ghost lcat = leaves_upto(subs, k as int);
        let ghost orig = tree@;
        let ghost base = tree@.len() as int;
        let mut out = tree;
        proof {
            lemma_pow2_pos(m);
            lemma_pow2_pos((m - height) as nat);
            lemma_width_additive(1, m, 0, height as nat);
            lemma_zero_rows(height as nat);
            lemma_zero_rows((height + 1) as nat);
            assert(row_width(s, height as nat) == pow2((m - height) as nat));
        }
        let mut t: usize = 0;
        while t < k - 1
            invariant
                t <= k - 1,
                k == subs.len(),
                subs == subtrees@,
                k >= 2,
                forall|i: int| 0 <= i < subs.len() ==> (#[trigger] subs[i]).wf(),
                forall|i: int| 0 <= i < k - 1 ==> (#[trigger] subs[i]).spec_size() == s,
                s == subs[0].spec_size(),
                nl == subs[subs.len() - 1].spec_size(),
                nl <= s,
                lcat == leaves_upto(subs, k as int),
                pow2(m) == s,
                m <= DEPTH,
                height as nat <= m,
                pfw as nat == pow2((m - height) as nat),
                pfw as nat == row_width(s, height as nat),
                pfs as nat == row_start(s, height as nat),
                out@.len() == base + t * (pfw as nat),
                base == orig.len(),
                forall|i: int| 0 <= i < base ==> out@[i] == orig[i],
                forall|jj: int|
                    0 <= jj < t * (pfw as nat) ==> #[trigger] node_at(lcat, height as nat, jj)
                        == out@[base + jj],
            decreases k - 1 - t,
        {
            let sub = &subtrees[t];
            let sublen = sub.nodes.len();
            proof {
                assert(sub.wf());
                assert(sub.spec_size() == s);
            }
            let mut j: usize = 0;
            while j < pfw
                invariant
                    j <= pfw,
                    t < k - 1,
                    sublen == sub.nodes@.len(),
                    k == subs.len(),
                    subs == subtrees@,
                    k >= 2,
                    forall|i: int| 0 <= i < subs.len() ==> (#[trigger] subs[i]).wf(),
                    forall|i: int| 0 <= i < k - 1 ==> (#[trigger] subs[i]).spec_size() == s,
                    s == subs[0].spec_size(),
                    nl == subs[subs.len() - 1].spec_size(),
                    nl <= s,
                    lcat == leaves_upto(subs, k as int),
                    pow2(m) == s,
                    m <= DEPTH,
                    height as nat <= m,
                    pfw as nat == pow2((m - height) as nat),
                    pfw as nat == row_width(s, height as nat),
                    pfs as nat == row_start(s, height as nat),
                    sub == &subs[t as int],
                    out@.len() == base + t * (pfw as nat) + j,
                    base == orig.len(),
                    forall|i: int| 0 <= i < base ==> out@[i] == orig[i],
                    forall|jj: int|
                        0 <= jj < t * (pfw as nat) + j ==> #[trigger] node_at(
                            lcat,
                            height as nat,
                            jj,
                        ) == out@[base + jj],
                decreases pfw - j,
            {
                proof {
                    lemma_pow2_pos(m);
                    if (height as nat) < DEPTH as nat {
                        lemma_rows_ok_read(
                            sub.nodes@,
                            sub.leaves(),
                            s,
                            DEPTH as nat,
                            height as int,
                            j as int,
                        );
                        lemma_row_extent_mono(s, (height + 1) as nat, DEPTH as nat);
                    } else {
                        lemma_top_width(s, DEPTH as nat);
                        assert(j == 0);
                        assert(node_at(sub.leaves(), DEPTH as nat, 0) == sub.nodes@[row_start(
                            s,
                            DEPTH as nat,
                        ) as int + 0]);
                    }
                }
                proof {
                    assert(pfs + j < sublen);
                }
                let x = sub.nodes[pfs + j];
                let ghost pre = out@;
                out.push(x);
                proof {
                    assert(out@ == pre.push(x));
                    assert(pre.push(x)[pre.len() as int] == x);
                    assert(forall|i: int| 0 <= i < pre.len() ==> #[trigger] out@[i] == pre[i]);
                    lemma_merge_element(subs, k as int, s, m, t as int, height as nat, j as int);
                    assert(x == node_at(lcat, height as nat, (t as int) * (pfw as nat) + j));
                    assert forall|jj: int|
                        0 <= jj < t * (pfw as nat) + j + 1 implies #[trigger] node_at(
                        lcat,
                        height as nat,
                        jj,
                    ) == out@[base + jj] by {
                        let nn = node_at(lcat, height as nat, jj);
                        if jj < t * (pfw as nat) + j {
                            assert(nn == pre[base + jj]);
                            assert(out@[base + jj] == pre[base + jj]);
                        } else {
                            assert(base + jj == pre.len());
                        }
                    }
                    assert forall|i: int| 0 <= i < base implies out@[i] == orig[i] by {
                        assert(out@[i] == pre[i]);
                    }
                }
                j = j + 1;
            }
            proof {
                assert((t + 1) * (pfw as nat) == t * (pfw as nat) + (pfw as nat))
                    by (nonlinear_arith);
            }
            t = t + 1;
        }
        // Append the last, possibly partial, subtree's row
        let lastt = &subtrees[k - 1];
        let lastlen = lastt.nodes.len();
        let ghost done = ((k - 1) as int) * (pfw as nat);
        proof {
            assert(lastt.wf());
            if nl >= 1 {
                lemma_top_width(nl, DEPTH as nat);
            } else {
                lemma_zero_rows(height as nat);
            }
        }
        let mut j: usize = 0;
        while j < plw
            invariant
                j <= plw,
                k == subs.len(),
                subs == subtrees@,
                k >= 2,
                forall|i: int| 0 <= i < subs.len() ==> (#[trigger] subs[i]).wf(),
                forall|i: int| 0 <= i < k - 1 ==> (#[trigger] subs[i]).spec_size() == s,
                s == subs[0].spec_size(),
                nl == subs[subs.len() - 1].spec_size(),
                nl <= s,
                lcat == leaves_upto(subs, k as int),
                pow2(m) == s,
                m <= DEPTH,
                height as nat <= m,
                pfw as nat == pow2((m - height) as nat),
                pls as nat == row_start(nl, height as nat),
                plw as nat == if (height as nat) < m {
                    padded_width(nl, height as nat)
                } else {
                    row_width(nl, height as nat)
                },
                lastt == &subs[k - 1],
                lastlen == lastt.nodes@.len(),
                done == ((k - 1) as int) * (pfw as nat),
                out@.len() == base + done + j,
                base == orig.len(),
                forall|i: int| 0 <= i < base ==> out@[i] == orig[i],
                forall|jj: int|
                    0 <= jj < done + j ==> #[trigger] node_at(lcat, height as nat, jj)
                        == out@[base + jj],
            decreases plw - j,
        {
            proof {
                lemma_pow2_pos(m);
                assert(nl >= 1) by {
                    if nl == 0 {
                        lemma_zero_rows(height as nat);
                    }
                }
                if (height as nat) < DEPTH as nat {
                    lemma_rows_ok_read(
                        lastt.nodes@,
                        lastt.leaves(),
                        nl,
                        DEPTH as nat,
                        height as int,
                        j as int,
                    );
                } else {
                    lemma_top_width(nl, DEPTH as nat);
                    assert(j == 0);
                    assert(node_at(lastt.leaves(), DEPTH as nat, 0) == lastt.nodes@[row_start(
                        nl,
                        DEPTH as nat,
                    ) as int + 0]);
                }
            }
            proof {
                assert(pls + j < lastlen);
            }
            let x = lastt.nodes[pls + j];
            let ghost pre = out@;
            out.push(x);
            proof {
                assert(out@ == pre.push(x));
                assert(pre.push(x)[pre.len() as int] == x);
                assert(forall|i: int| 0 <= i < pre.len() ==> #[trigger] out@[i] == pre[i]);
                lemma_merge_element(
                    subs,
                    k as int,
                    s,
                    m,
                    (k - 1) as int,
                    height as nat,
                    j as int,
                );
                assert(x == node_at(lcat, height as nat, done + j));
                assert forall|jj: int|
                    0 <= jj < done + j + 1 implies #[trigger] node_at(lcat, height as nat, jj)
                    == out@[base + jj] by {
                    let nn = node_at(lcat, height as nat, jj);
                    if jj < done + j {
                        assert(nn == pre[base + jj]);
                        assert(out@[base + jj] == pre[base + jj]);
                    } else {
                        assert(base + jj == pre.len());
                    }
                }
                assert forall|i: int| 0 <= i < base implies out@[i] == orig[i] by {
                    assert(out@[i] == pre[i]);
                }
            }
            j = j + 1;
        }
        out
    }

    /// Constructs a commitment tree with the given leaf nodes.
    pub fn new(leafs: &[Node]) -> (t: Self)
        requires
            leafs@.len() <= pow2(DEPTH as nat),
            2 * leafs@.len() + 2 * (DEPTH as nat) < usize::MAX,
        ensures
            t.wf(),
            t.leaves() == leafs@,
            t.spec_size() == leafs@.len(),
    {
        let num = leafs.len();
        let mut tree: Vec<Node> = Vec::new();
        let mut i: usize = 0;
        while i < num
            invariant
                i <= num,
                num == leafs@.len(),
                tree@ == leafs@.take(i as int),
            decreases num - i,
        {
            let x = leafs[i];
            tree.push(x);
            proof {
                assert(tree@ =~= leafs@.take(i + 1));
            }
            i = i + 1;
        }
        proof {
            assert(tree@ =~= leafs@);
            assert(tree@.take(num as int) =~= leafs@);
        }
        Self::complete(tree, 0, num, 0, num)
    }

    /// Returns the root node of the commitment tree.
    pub fn root(&self) -> (r: Node)
        requires
            self.wf(),
        ensures
            r == root_spec(self.leaves(), DEPTH as nat),
    {
        let len = self.nodes.len();
        if len == 0 {
            let mut empty = Node::blank();
            let mut h: usize = 0;
            while h < DEPTH
                invariant
                    h <= DEPTH,
                    empty == empty_root::<Node>(h as nat),
                decreases DEPTH - h,
            {
                empty = Node::combine(h, &empty, &empty);
                h = h + 1;
            }
            proof {
                lemma_blank_subtree(self.leaves(), DEPTH as nat, 0);
            }
            empty
        } else {
            proof {
                let n = self.leaf_count as nat;
                lemma_top_width(n, DEPTH as nat);
                assert(node_at(self.leaves(), DEPTH as nat, 0) == self.nodes@[row_start(
                    n,
                    DEPTH as nat,
                ) as int + 0]);
            }
            self.nodes[len - 1]
        }
    }

    /// Constructs a Merkle path to the given position in the tree. The
    /// position may point at an unfilled slot: the path then authenticates
    /// the blank leaf there.
    pub fn path(&self, pos: usize) -> (p: crate::merkle_path::MerklePath<DEPTH, Node>)
        requires
            self.wf(),
            pos < pow2(DEPTH as nat),
            pow2(DEPTH as nat) <= usize::MAX,
        ensures
            p.wf(),
            p.spec_auth() == auth_path_spec(self.leaves(), DEPTH as nat, pos as int),
    {
        let ghost l = self.leaves();
        let ghost n = self.leaf_count as nat;
        let nodes_len = self.nodes.len();
        let mut auth: Vec<(Node, bool)> = Vec::new();
        let mut start: usize = 0;
        let mut width: usize = self.leaf_count;
        let mut cur: usize = pos;
        let mut empty = Node::blank();
        let mut height: usize = 0;
        proof {
            assert(pow2(0) == 1) by {
                vstd::arithmetic::power2::lemma2_to64();
            }
        }
        while height < DEPTH
            invariant
                self.wf(),
                height <= DEPTH,
                l == self.leaves(),
                n == self.leaf_count as nat,
                nodes_len == self.nodes@.len(),
                start as nat == row_start(n, height as nat),
                width as nat == row_width(n, height as nat),
                cur as int == pos_at(pos as int, height as nat),
                empty == empty_root::<Node>(height as nat),
                auth@.len() == height,
                forall|h: int|
                    0 <= h < height ==> auth@[h] == (
                        node_at(l, h as nat, sibling_index(pos as int, h as nat)),
                        pos_at(pos as int, h as nat) % 2 == 1,
                    ),
            decreases DEPTH - height,
        {
            proof {
                // The stored row, padding included, lies inside the vector.
                assert(row_start(n, (height + 1) as nat) == row_start(n, height as nat)
                    + padded_width(n, height as nat));
                lemma_row_extent_mono(n, (height + 1) as nat, DEPTH as nat);
                if n >= 1 {
                    lemma_row_width_bounds(n, height as nat);
                }
            }
            if width % 2 == 1 {
                width = width + 1;
            }
            proof {
                assert(width as nat == padded_width(n, height as nat));
                assert(start + width == row_start(n, (height + 1) as nat));
                assert(row_start(n, (height + 1) as nat) <= row_start(n, DEPTH as nat));
                if n >= 1 {
                    assert(nodes_len == row_start(n, DEPTH as nat) + row_width(n, DEPTH as nat));
                } else {
                    lemma_zero_rows((height + 1) as nat);
                }
                assert(start + width <= nodes_len);
            }
            let entry = if cur % 2 == 0 {
                // The climbing node is a left child
                let node = if cur + 1 < width {
                    proof {
                        assert(node_at(l, height as nat, cur + 1) == self.nodes@[row_start(
                            n,
                            height as nat,
                        ) + (cur + 1)]);
                    }
                    self.nodes[start + cur + 1]
                } else {
                    // The sibling slot lies beyond the row: its subtree is
                    // all blanks.
                    proof {
                        lemma_blank_over_row(l, n, height as nat, cur as int + 1);
                    }
                    empty
                };
                (node, false)
            } else {
                // The climbing node is a right child
                let node = if cur - 1 < width {
                    proof {
                        assert(node_at(l, height as nat, cur - 1) == self.nodes@[row_start(
                            n,
                            height as nat,
                        ) + (cur - 1)]);
                    }
                    self.nodes[start + cur - 1]
                } else {
                    proof {
                        lemma_blank_over_row(l, n, height as nat, cur as int - 1);
                    }
                    empty
                };
                (node, true)
            };
            auth.push(entry);
            proof {
                assert(auth@[height as int] == (
                    node_at(l, height as nat, sibling_index(pos as int, height as nat)),
                    pos_at(pos as int, height as nat) % 2 == 1,
                ));
                // One level up, the position halves.
                lemma_pow2_unfold((height + 1) as nat);
                lemma_pow2_pos(height as nat);
                vstd::arithmetic::div_mod::lemma_div_denominator(
                    pos as int,
                    pow2(height as nat) as int,
                    2,
                );
            }
            start = start + width;
            width = width / 2;
            cur = cur / 2;
            empty = Node::combine(height, &empty, &empty);
            height = height + 1;
        }
        proof {
            assert(auth@ =~= auth_path_spec(l, DEPTH as nat, pos as int));
        }
        crate::merkle_path::MerklePath::from_path(auth)
    }

    /// Returns the number of leaf nodes in the tree.
    pub fn size(&self) -> (n: usize)
        ensures
            n as nat == self.spec_size(),
    {
        self.leaf_count
    }
}

impl<const DEPTH: usize, Node: Hashable> Default for CommitmentTree<DEPTH, Node> {
    /// The empty tree.
    fn default() -> (t: Self)
        ensures
            t.wf(),
            t.spec_size() == 0,
            t.leaves() == Seq::<Node>::empty(),
    {
        let t = CommitmentTree { nodes: Vec::new(), leaf_count: 0 };
        proof {
            assert(t.leaves() =~= Seq::<Node>::empty());
        }
        t
    }
}

} // verus!
