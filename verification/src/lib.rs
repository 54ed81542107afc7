//! Verification of a cell upgrade against a Merkle root committed in a header
//! extension: proof decoding, leaf hashing and root recomputation.

pub mod buffer;
pub mod error;
pub mod hash;
pub mod header;
pub mod leaf;
pub mod merkle;
pub mod proof_reader;
pub mod shape;
pub mod tree;
pub mod wire;
pub mod witness_reader;

use crate::error::{exit_code, exit_code_spec, VerifyError};
use crate::hash::{hashes_view, Data};
use crate::header::{extension_root, root_in_extension};
use crate::leaf::{leaf_hash, start_leaf};
use crate::merkle::proof_root;
use crate::shape::{find_single_output, is_only_match};
use crate::tree::{
    is_hash_tree, leaf_position, lemma_path_hashes, lemma_path_len, lemma_tree_proof_verifies,
    path_lemmas, tree_root,
};
use crate::wire::{
    decoded_header_index, decoded_indices, decoded_lemmas, is_complete, lemma_decode_serialized,
    lemma_truncated_incomplete, serialize,
};
use crate::witness_reader::{field_view, fits_envelope, read_witness, Witness};
use vstd::prelude::*;

verus! {

/// An output of the transaction, as far as the verification reads it.
#[derive(Debug)]
pub struct OutputCell {
    /// The hash of the output's lock script.
    pub lock_hash: Data,
    /// The hash of the output's data.
    pub data_hash: Data,
    /// The serialized structure of the output: capacity, lock and type.
    pub structure: Vec<u8>,
}

/// A transaction, as far as the verification reads it.
#[derive(Debug)]
pub struct Transaction {
    /// The hash of the lock script that is run.
    pub script_hash: Data,
    /// The out points of the inputs under this lock, in their order.
    pub group_inputs: Vec<Vec<u8>>,
    /// All outputs, in their order.
    pub outputs: Vec<OutputCell>,
    /// The witness of the first input under this lock.
    pub witness: Witness,
    /// For each header that the transaction refers to, its extension, if it
    /// has one.
    pub header_extensions: Vec<Option<Vec<u8>>>,
}

/// The lock hashes of the outputs, in their order.
pub open spec fn output_locks(tx: Transaction) -> Seq<Seq<u8>> {
    Seq::new(tx.outputs@.len(), |i: int| tx.outputs@[i].lock_hash@)
}

/// Exactly one output carries the lock that is run.
pub open spec fn has_single_output(tx: Transaction) -> bool {
    exists|i: int| is_only_match(output_locks(tx), tx.script_hash@, i)
}

/// The output that carries the lock, where there is exactly one.
pub open spec fn single_output(tx: Transaction) -> int {
    choose|i: int| is_only_match(output_locks(tx), tx.script_hash@, i)
}

/// The leaf that the transaction claims to be part of the tree.
pub open spec fn leaf_of(tx: Transaction) -> Seq<u8> {
    let output = tx.outputs@[single_output(tx)];
    leaf_hash(
        tx.group_inputs@[0]@,
        output.data_hash@,
        output.structure@,
        field_view(tx.witness.input_type),
        field_view(tx.witness.output_type),
    )
}

/// The root that the header selected by `header_index` commits to, if that
/// header is there and its extension holds one.
pub open spec fn root_of(tx: Transaction, header_index: u32) -> Option<Seq<u8>> {
    if header_index < tx.header_extensions@.len() {
        extension_root(field_view(tx.header_extensions@[header_index as int]))
    } else {
        None
    }
}

/// The verdict on a transaction.
///
/// The shape comes first: one input under the lock, one output under it.
/// Then the lock field of the witness must be exactly one proof. Then the
/// selected header must hold a root. Last, the proof must lead from the
/// leaf to that root.
pub open spec fn run_spec(tx: Transaction) -> Result<(), VerifyError> {
    if tx.group_inputs@.len() != 1 || !has_single_output(tx) {
        Err(VerifyError::ShapeViolation)
    } else {
        match tx.witness.lock {
            None => Err(VerifyError::ParseError),
            Some(lock) => if !is_complete(lock@) {
                Err(VerifyError::ParseError)
            } else {
                match root_of(tx, decoded_header_index(lock@)) {
                    None => Err(VerifyError::LookupFailure),
                    Some(root) => if proof_root(
                        decoded_indices(lock@),
                        decoded_lemmas(lock@),
                        leaf_of(tx),
                    ) == Some(root) {
                        Ok(())
                    } else {
                        Err(VerifyError::ProofMismatch)
                    },
                }
            },
        }
    }
}

/// Verifies a transaction that is held in memory.
pub fn run(tx: &Transaction) -> (r: Result<(), VerifyError>)
    requires
        fits_envelope(tx.witness),
    ensures
        r == run_spec(*tx),
{
    if tx.group_inputs.len() != 1 {
        return Err(VerifyError::ShapeViolation);
    }
    let mut locks: Vec<Data> = Vec::with_capacity(tx.outputs.len());
    let mut i: usize = 0;
    while i < tx.outputs.len()
        invariant
            i <= tx.outputs@.len(),
            locks@.len() == i,
            forall|j: int| 0 <= j < i ==> locks@[j]@ == tx.outputs@[j].lock_hash@,
        decreases tx.outputs@.len() - i,
    {
        locks.push(tx.outputs[i].lock_hash.clone());
        i += 1;
    }
    proof {
        assert(hashes_view(locks@) =~= output_locks(*tx));
    }
    let output_index = match find_single_output(locks.as_slice(), &tx.script_hash) {
        Ok(index) => index,
        Err(e) => {
            return Err(e);
        },
    };
    proof {
        let chosen = single_output(*tx);
        assert(is_only_match(output_locks(*tx), tx.script_hash@, chosen));
        assert(chosen == output_index);
    }
    let output = &tx.outputs[output_index];
    let mut hasher = start_leaf(tx.group_inputs[0].as_slice(), &output.data_hash);
    hasher.update(output.structure.as_slice());
    let (proof_visitor, hasher) = match read_witness(&tx.witness, hasher) {
        Some(parts) => parts,
        None => {
            return Err(VerifyError::ParseError);
        },
    };
    let ghost lock = proof_visitor@;
    let (header_index, merkle_proof) = match proof_visitor.build() {
        Some(parts) => parts,
        None => {
            return Err(VerifyError::ParseError);
        },
    };
    let leaf = hasher.finalize();
    proof {
        assert(leaf@ == leaf_of(*tx));
    }
    if header_index as usize >= tx.header_extensions.len() {
        return Err(VerifyError::LookupFailure);
    }
    let merkle_root = match &tx.header_extensions[header_index as usize] {
        Some(extension) => root_in_extension(Some(extension.as_slice())),
        None => root_in_extension(None),
    };
    let merkle_root = match merkle_root {
        Ok(root) => root,
        Err(e) => {
            return Err(e);
        },
    };
    if merkle_proof.verify(&merkle_root, &leaf) {
        Ok(())
    } else {
        Err(VerifyError::ProofMismatch)
    }
}

/// Verifies a transaction that is held in memory and gives the status code:
/// zero when it is accepted, the code of the reason when it is refused.
pub fn program_entry(tx: &Transaction) -> (code: i8)
    requires
        fits_envelope(tx.witness),
    ensures
        code == exit_code_spec(run_spec(*tx)),
{
    let verdict = run(tx);
    exit_code(&verdict)
}

/// Two transactions that differ at most in the extensions of their headers.
pub open spec fn same_but_headers(a: Transaction, b: Transaction) -> bool {
    &&& a.script_hash == b.script_hash
    &&& a.group_inputs == b.group_inputs
    &&& a.outputs == b.outputs
    &&& a.witness == b.witness
}

/// Two transactions that differ at most in the lock field of their witness.
pub open spec fn same_but_lock(a: Transaction, b: Transaction) -> bool {
    &&& a.script_hash == b.script_hash
    &&& a.group_inputs == b.group_inputs
    &&& a.outputs == b.outputs
    &&& a.witness.input_type == b.witness.input_type
    &&& a.witness.output_type == b.witness.output_type
    &&& a.header_extensions == b.header_extensions
}

/// Two transactions that differ at most in their outputs.
pub open spec fn same_but_outputs(a: Transaction, b: Transaction) -> bool {
    &&& a.script_hash == b.script_hash
    &&& a.group_inputs == b.group_inputs
    &&& a.witness == b.witness
    &&& a.header_extensions == b.header_extensions
}

/// A transaction that is accepted under the root of its header is refused
/// for a mismatch under any other root, be it one bit away.
pub proof fn lemma_other_root_refused(tx: Transaction, other: Transaction, lock: Vec<u8>)
    requires
        run_spec(tx) is Ok,
        same_but_headers(tx, other),
        tx.witness.lock == Some(lock),
        root_of(other, decoded_header_index(lock@)) is Some,
        root_of(other, decoded_header_index(lock@)) != root_of(tx, decoded_header_index(lock@)),
    ensures
        run_spec(other) == Err::<(), VerifyError>(VerifyError::ProofMismatch),
{
    assert(output_locks(other) == output_locks(tx));
    assert(leaf_of(other) == leaf_of(tx));
}

/// A transaction whose shape is right and whose witness held one complete
/// proof is refused for a parse error once that proof is cut short by one
/// byte or more.
pub proof fn lemma_truncated_proof_refused(
    tx: Transaction,
    other: Transaction,
    lock: Vec<u8>,
    cut: Vec<u8>,
)
    requires
        tx.group_inputs@.len() == 1,
        has_single_output(tx),
        tx.witness.lock == Some(lock),
        is_complete(lock@),
        same_but_lock(tx, other),
        other.witness.lock == Some(cut),
        cut@.len() < lock@.len(),
        cut@ == lock@.take(cut@.len() as int),
    ensures
        run_spec(other) == Err::<(), VerifyError>(VerifyError::ParseError),
{
    assert(output_locks(other) == output_locks(tx));
    lemma_truncated_incomplete(lock@, cut@.len() as int);
}

/// A transaction with a second input under the lock, or with a second
/// output under it, is refused for its shape, whatever else it holds.
pub proof fn lemma_second_cell_refused(tx: Transaction)
    requires
        tx.group_inputs@.len() >= 2 || exists|i: int, j: int|
            0 <= i < j < tx.outputs@.len() && tx.outputs@[i].lock_hash@ == tx.script_hash@
                && tx.outputs@[j].lock_hash@ == tx.script_hash@,
    ensures
        run_spec(tx) == Err::<(), VerifyError>(VerifyError::ShapeViolation),
{
    if tx.group_inputs@.len() < 2 {
        let (i, j) = choose|i: int, j: int|
            0 <= i < j < tx.outputs@.len() && tx.outputs@[i].lock_hash@ == tx.script_hash@
                && tx.outputs@[j].lock_hash@ == tx.script_hash@;
        crate::shape::lemma_two_matches(output_locks(tx), tx.script_hash@, i, j);
    }
}

/// An output under another lock changes nothing, wherever it is put among
/// the outputs: the verdict is the same with it and without it.
pub proof fn lemma_unrelated_output(tx: Transaction, other: Transaction, at: int, cell: OutputCell)
    requires
        same_but_outputs(tx, other),
        0 <= at <= tx.outputs@.len(),
        other.outputs@ == tx.outputs@.insert(at, cell),
        cell.lock_hash@ != tx.script_hash@,
    ensures
        run_spec(other) == run_spec(tx),
{
    let own = tx.script_hash@;
    let before = output_locks(tx);
    let after = output_locks(other);
    assert(after =~= before.insert(at, cell.lock_hash@));
    assert forall|i: int| is_only_match(before, own, i) implies is_only_match(
        after,
        own,
        if i < at {
            i
        } else {
            i + 1
        },
    ) by {
        let moved = if i < at {
            i
        } else {
            i + 1
        };
        assert forall|j: int| 0 <= j < after.len() && j != moved implies after[j] != own by {
            if j < at {
                assert(after[j] == before[j]);
            } else if j > at {
                assert(after[j] == before[j - 1]);
            }
        }
    }
    assert forall|i: int| is_only_match(after, own, i) implies i != at && is_only_match(
        before,
        own,
        if i < at {
            i
        } else {
            i - 1
        },
    ) by {
        let moved = if i < at {
            i
        } else {
            i - 1
        };
        assert forall|j: int| 0 <= j < before.len() && j != moved implies before[j] != own by {
            if j < at {
                assert(after[j] == before[j]);
            } else {
                assert(after[j + 1] == before[j]);
            }
        }
    }
    if has_single_output(tx) {
        let i = single_output(tx);
        let moved = if i < at {
            i
        } else {
            i + 1
        };
        assert(is_only_match(after, own, moved));
        assert(has_single_output(other));
        assert(single_output(other) == moved);
        assert(other.outputs@[moved] == tx.outputs@[i]);
        assert(leaf_of(other) == leaf_of(tx));
    } else {
        if has_single_output(other) {
            let i = single_output(other);
            assert(is_only_match(
                before,
                own,
                if i < at {
                    i
                } else {
                    i - 1
                },
            ));
        }
    }
}

/// A transaction is accepted when its shape is right, its leaf is one of
/// the leaves of a tree, its witness holds the serialized proof that the
/// tree gives for that leaf, and the selected header holds the root of the
/// tree: for a tree of any size and a leaf at any place in it.
pub proof fn lemma_built_proof_accepted(
    tx: Transaction,
    lock: Vec<u8>,
    header_index: u32,
    leaves: Seq<Seq<u8>>,
    k: int,
)
    requires
        tx.group_inputs@.len() == 1,
        has_single_output(tx),
        0 <= k < leaves.len(),
        2 * leaves.len() - 1 <= u32::MAX,
        is_hash_tree(leaves),
        leaves[k] == leaf_of(tx),
        tx.witness.lock == Some(lock),
        lock@ == serialize(
            header_index,
            seq![leaf_position(leaves.len() as int, k) as u32],
            path_lemmas(leaves, leaf_position(leaves.len() as int, k)),
        ),
        root_of(tx, header_index) == Some(tree_root(leaves)),
    ensures
        run_spec(tx) == Ok::<(), VerifyError>(()),
{
    let position = leaf_position(leaves.len() as int, k);
    let indices = seq![position as u32];
    let lemmas = path_lemmas(leaves, position);
    lemma_path_len(leaves, position);
    lemma_path_hashes(leaves, position);
    lemma_decode_serialized(header_index, indices, lemmas);
    lemma_tree_proof_verifies(leaves, k);
}

} // verus!
