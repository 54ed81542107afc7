//! The complete binary Merkle tree over a list of leaves, as a model: what
//! its nodes are, what the proof for one leaf holds, and that such a proof
//! leads to the root.
//!
//! A tree over `n` leaves has `2 * n - 1` nodes. Node 0 is the root, the
//! children of node `i` are `2 * i + 1` and `2 * i + 2`, and the leaves are
//! the last `n` nodes, in their order.

use crate::hash::merge_spec;
use crate::merkle::{climb, is_left_child, parent_of, proof_root};
use vstd::prelude::*;

verus! {

/// The position of leaf `k` among the nodes of a tree over `n` leaves.
pub open spec fn leaf_position(n: int, k: int) -> int {
    n - 1 + k
}

/// Node `i` of the tree over `leaves`.
pub open spec fn node_at(leaves: Seq<Seq<u8>>, i: int) -> Seq<u8>
    decreases 2 * leaves.len() - i,
{
    if 0 <= i < leaves.len() - 1 {
        merge_spec(node_at(leaves, 2 * i + 1), node_at(leaves, 2 * i + 2))
    } else if leaves.len() - 1 <= i < 2 * leaves.len() - 1 {
        leaves[i - (leaves.len() - 1)]
    } else {
        Seq::empty()
    }
}

/// The root of the tree over `leaves`.
pub open spec fn tree_root(leaves: Seq<Seq<u8>>) -> Seq<u8> {
    node_at(leaves, 0)
}

/// The other child of the parent of node `i`, for a node below the root.
pub open spec fn sibling_of(i: int) -> int {
    if i % 2 == 1 {
        i + 1
    } else {
        i - 1
    }
}

/// The lemmas of the proof for node `i`: the sibling on each level, from
/// the node's own level up to the level below the root.
pub open spec fn path_lemmas(leaves: Seq<Seq<u8>>, i: int) -> Seq<Seq<u8>>
    decreases i,
{
    if i <= 0 {
        Seq::empty()
    } else {
        seq![node_at(leaves, sibling_of(i))] + path_lemmas(leaves, (i - 1) / 2)
    }
}

/// Every node of the tree is a hash value of 32 bytes.
pub open spec fn is_hash_tree(leaves: Seq<Seq<u8>>) -> bool {
    forall|i: int| 0 <= i < 2 * leaves.len() - 1 ==> (#[trigger] node_at(leaves, i)).len() == 32
}

/// A path has at most as many lemmas as its node has nodes before it.
pub proof fn lemma_path_len(leaves: Seq<Seq<u8>>, i: int)
    requires
        0 <= i,
    ensures
        path_lemmas(leaves, i).len() <= i,
    decreases i,
{
    if i > 0 {
        lemma_path_len(leaves, (i - 1) / 2);
    }
}

/// In a tree of hash values, every lemma of a path is a hash value.
pub proof fn lemma_path_hashes(leaves: Seq<Seq<u8>>, i: int)
    requires
        is_hash_tree(leaves),
        0 <= i < 2 * leaves.len() - 1,
    ensures
        crate::wire::all_hashes(path_lemmas(leaves, i)),
    decreases i,
{
    if i > 0 {
        lemma_path_hashes(leaves, (i - 1) / 2);
        let path = path_lemmas(leaves, i);
        let rest = path_lemmas(leaves, (i - 1) / 2);
        assert forall|j: int| 0 <= j < path.len() implies (#[trigger] path[j]).len() == 32 by {
            if j == 0 {
                assert(path[0] == node_at(leaves, sibling_of(i)));
            } else {
                assert(path[j] == rest[j - 1]);
            }
        }
    }
}

/// From any node of the tree, the walk along the node's path ends in the
/// root of the tree.
pub proof fn lemma_path_reaches_root(leaves: Seq<Seq<u8>>, i: int)
    requires
        0 <= i < 2 * leaves.len() - 1,
        2 * leaves.len() - 1 <= u32::MAX,
    ensures
        climb(i as u32, node_at(leaves, i), path_lemmas(leaves, i)) == Some(tree_root(leaves)),
    decreases i,
{
    if i > 0 {
        let index = i as u32;
        let above = (i - 1) / 2;
        let path = path_lemmas(leaves, i);
        let node = node_at(leaves, i);
        assert(parent_of(index) == above);
        assert(0 <= above < leaves.len() - 1);
        assert(path[0] == node_at(leaves, sibling_of(i)));
        assert(path.skip(1) =~= path_lemmas(leaves, above));
        if is_left_child(index) {
            assert(i == 2 * above + 1);
            assert(sibling_of(i) == 2 * above + 2);
            assert(merge_spec(node, path[0]) == node_at(leaves, above));
        } else {
            assert(i == 2 * above + 2);
            assert(sibling_of(i) == 2 * above + 1);
            assert(merge_spec(path[0], node) == node_at(leaves, above));
        }
        lemma_path_reaches_root(leaves, above);
    }
}

/// The proof that a tree gives for one of its leaves leads from that leaf
/// to the root of the tree, for a tree of any size.
pub proof fn lemma_tree_proof_verifies(leaves: Seq<Seq<u8>>, k: int)
    requires
        0 <= k < leaves.len(),
        2 * leaves.len() - 1 <= u32::MAX,
    ensures
        proof_root(
            seq![leaf_position(leaves.len() as int, k) as u32],
            path_lemmas(leaves, leaf_position(leaves.len() as int, k)),
            leaves[k],
        ) == Some(tree_root(leaves)),
{
    lemma_path_reaches_root(leaves, leaf_position(leaves.len() as int, k));
}

} // verus!
