//! Recomputing the root of a complete binary Merkle tree from one leaf and
//! its proof.
//!
//! The nodes of the tree are numbered from the root, which is node 0; the
//! children of node `i` are `2 * i + 1`, on the left, and `2 * i + 2`.

use crate::hash::{hashes_view, merge_spec, Blake2bHash, Data};
use crate::proof_reader::Proof;
use vstd::prelude::*;

verus! {

/// The node above node `index`.
pub open spec fn parent_of(index: u32) -> u32 {
    ((index - 1) / 2) as u32
}

/// Node `index` is the left child of its parent.
pub open spec fn is_left_child(index: u32) -> bool {
    index % 2 == 1
}

/// The root reached from `node` at position `index`, taking one lemma as the
/// sibling on each level. There is none if the lemmas run out before the
/// root or are not used up at it.
pub open spec fn climb(index: u32, node: Seq<u8>, lemmas: Seq<Seq<u8>>) -> Option<Seq<u8>>
    decreases index,
{
    if index == 0 {
        if lemmas.len() == 0 {
            Some(node)
        } else {
            None
        }
    } else if lemmas.len() == 0 {
        None
    } else {
        let above = if is_left_child(index) {
            merge_spec(node, lemmas[0])
        } else {
            merge_spec(lemmas[0], node)
        };
        climb(parent_of(index), above, lemmas.skip(1))
    }
}

/// The root that a proof gives for a single leaf. The proof must name
/// exactly one position.
pub open spec fn proof_root(indices: Seq<u32>, lemmas: Seq<Seq<u8>>, leaf: Seq<u8>) -> Option<
    Seq<u8>,
> {
    if indices.len() == 1 {
        climb(indices[0], leaf, lemmas)
    } else {
        None
    }
}

/// `MerkleProof::new(indices, lemmas).root(&[leaf])` of `merkle-cbt`, with
/// this library's merge rule. For a single leaf that function walks from the
/// one index up to node 0, merging the node with the next lemma on each
/// level, the node on the left when its index is odd, and gives the node it
/// holds at 0 if it has then used every lemma; it gives nothing if the
/// proof does not name exactly one index, if the lemmas run out on the way,
/// or if some are left at the root.
#[verifier::external_body]
fn cbmt_root(indices: &Vec<u32>, lemmas: &Vec<Data>, leaf: &Data) -> (r: Option<Data>)
    ensures
        r.is_some() == proof_root(indices@, hashes_view(lemmas@), leaf@).is_some(),
        r matches Some(root) ==> proof_root(indices@, hashes_view(lemmas@), leaf@) == Some(root@),
{
    merkle_cbt::MerkleProof::<Data, Blake2bHash>::new(indices.clone(), lemmas.clone()).root(
        &[leaf.clone()],
    )
}

impl Proof {
    /// The root that this proof gives for `leaf`, if it gives one.
    pub fn root(&self, leaf: &Data) -> (r: Option<Data>)
        ensures
            r.is_some() == proof_root(self.indices@, hashes_view(self.lemmas@), leaf@).is_some(),
            r matches Some(root) ==> proof_root(self.indices@, hashes_view(self.lemmas@), leaf@)
                == Some(root@),
    {
        cbmt_root(&self.indices, &self.lemmas, leaf)
    }

    /// Whether this proof leads from `leaf` to exactly `root`.
    pub fn verify(&self, root: &Data, leaf: &Data) -> (r: bool)
        ensures
            r == (proof_root(self.indices@, hashes_view(self.lemmas@), leaf@) == Some(root@)),
    {
        match self.root(leaf) {
            Some(actual) => actual == *root,
            None => false,
        }
    }
}

/// A tree of one leaf has that leaf as its root: the proof for it names
/// node 0 and holds no lemma.
pub proof fn lemma_single_leaf_tree(leaf: Seq<u8>)
    ensures
        proof_root(seq![0u32], Seq::<Seq<u8>>::empty(), leaf) == Some(leaf),
{
}

} // verus!
