//! Whole transactions, verified in memory against a tree built by
//! `merkle-cbt`.

use blake2b_ref::Blake2bBuilder;
use ckb_std::ckb_types::packed::{Byte, Byte32, Bytes, CellOutput, OutPoint, Script, ScriptOpt, Uint32, Uint64};
use ckb_std::ckb_types::prelude::{Builder, Entity, Pack};
use merkle_cbt::merkle_tree::Merge;
use merkle_cbt::{MerkleTree, CBMT};
use zero_lock::error::VerifyError;
use zero_lock::hash::Data;
use zero_lock::witness_reader::Witness;
use zero_lock::{program_entry, run, OutputCell, Transaction};

/// A small deterministic generator: the tests need varied bytes, not
/// unpredictable ones.
struct Rng(u64);

impl Rng {
    fn next(&mut self) -> u64 {
        self.0 ^= self.0 << 13;
        self.0 ^= self.0 >> 7;
        self.0 ^= self.0 << 17;
        self.0
    }

    fn fill(&mut self, buf: &mut [u8]) {
        for b in buf.iter_mut() {
            *b = (self.next() >> 24) as u8;
        }
    }

    fn below(&mut self, n: usize) -> usize {
        (self.next() % (n as u64)) as usize
    }
}

fn ckb_blake2b(chunks: &[&[u8]]) -> [u8; 32] {
    let mut hasher = Blake2bBuilder::new(32).personal(b"ckb-default-hash").build();
    for chunk in chunks {
        hasher.update(chunk);
    }
    let mut out = [0u8; 32];
    hasher.finalize(&mut out);
    out
}

/// The merge rule, written again here on plain arrays.
struct ArrayMerge;

impl Merge for ArrayMerge {
    type Item = [u8; 32];

    fn merge(left: &[u8; 32], right: &[u8; 32]) -> [u8; 32] {
        ckb_blake2b(&[&left[..], &right[..]])
    }
}

#[derive(Clone)]
struct Cell {
    out_point: OutPoint,
    output: CellOutput,
    data: Vec<u8>,
}

const BYTE: u64 = 100_000_000;

fn random_out_point(rng: &mut Rng) -> OutPoint {
    let mut buf = [0u8; 32];
    rng.fill(&mut buf);
    let tx_hash: Byte32 = buf.pack();
    let index: Uint32 = 0u32.pack();
    OutPoint::new_builder().tx_hash(tx_hash).index(index).build()
}

fn random_type_id_script(rng: &mut Rng) -> Script {
    let mut args = vec![0u8; 32];
    rng.fill(&mut args);
    let code_hash: Byte32 = ckb_blake2b(&[b"type id"]).pack();
    let args: Bytes = args[..].pack();
    Script::new_builder().code_hash(code_hash).hash_type(Byte::new(1)).args(args).build()
}

fn zero_lock_script() -> Script {
    let code_hash: Byte32 = ckb_blake2b(&[b"zero lock"]).pack();
    Script::new_builder().code_hash(code_hash).hash_type(Byte::new(4)).build()
}

fn always_success_script() -> Script {
    let code_hash: Byte32 = ckb_blake2b(&[b"always success"]).pack();
    Script::new_builder().code_hash(code_hash).hash_type(Byte::new(4)).build()
}

fn cell_with(rng: &mut Rng, lock: Script, type_script: Option<Script>, capacity_bytes: usize, data: &[u8]) -> Cell {
    let capacity: Uint64 = (capacity_bytes as u64 * BYTE).pack();
    let type_: ScriptOpt = type_script.pack();
    let output = CellOutput::new_builder().capacity(capacity).lock(lock).type_(type_).build();
    Cell { out_point: random_out_point(rng), output, data: data.to_vec() }
}

fn zero_lock_cell(rng: &mut Rng, data: &[u8], type_script: Option<Script>) -> Cell {
    cell_with(rng, zero_lock_script(), type_script, data.len(), data)
}

fn always_success_cell(rng: &mut Rng, capacity_bytes: usize) -> Cell {
    cell_with(rng, always_success_script(), None, capacity_bytes, &[])
}

fn script_hash(script: &Script) -> [u8; 32] {
    ckb_blake2b(&[script.as_slice()])
}

fn side_tag(field: &Option<Vec<u8>>, into: &mut Vec<u8>) {
    match field {
        Some(bytes) => {
            into.push(1);
            into.extend_from_slice(&(bytes.len() as u32).to_le_bytes());
            into.extend_from_slice(bytes);
        }
        None => into.push(0),
    }
}

fn hash_upgrade_data(old_cell: &Cell, new_cell: &Cell, input_type: &Option<Vec<u8>>, output_type: &Option<Vec<u8>>) -> [u8; 32] {
    let mut preimage = vec![1u8];
    preimage.extend_from_slice(old_cell.out_point.as_slice());
    preimage.extend_from_slice(&ckb_blake2b(&[&new_cell.data]));
    preimage.extend_from_slice(new_cell.output.as_slice());
    side_tag(input_type, &mut preimage);
    side_tag(output_type, &mut preimage);
    ckb_blake2b(&[&preimage])
}

fn serialize_proof(header_index: u32, indices: &[u32], lemmas: &[[u8; 32]]) -> Vec<u8> {
    let mut data = vec![];
    data.extend_from_slice(&header_index.to_le_bytes());
    data.extend_from_slice(&(indices.len() as u32).to_le_bytes());
    for index in indices {
        data.extend_from_slice(&index.to_le_bytes());
    }
    data.extend_from_slice(&(lemmas.len() as u32).to_le_bytes());
    for lemma in lemmas {
        data.extend_from_slice(lemma);
    }
    data
}

/// The root of the tree over all upgrades, and the witness that proves the
/// selected one.
fn build_merkle_root_n_proof(
    all_leaves: &[(&Cell, &Cell)],
    selected: u32,
    header_index: u32,
    input_type: Option<Vec<u8>>,
    output_type: Option<Vec<u8>>,
) -> ([u8; 32], Witness) {
    let mut hashed_leaves = Vec::with_capacity(all_leaves.len());
    for (i, (old_cell, new_cell)) in all_leaves.iter().enumerate() {
        let leaf = if i == selected as usize {
            hash_upgrade_data(old_cell, new_cell, &input_type, &output_type)
        } else {
            hash_upgrade_data(old_cell, new_cell, &None, &None)
        };
        hashed_leaves.push(leaf);
    }
    let tree: MerkleTree<[u8; 32], ArrayMerge> = CBMT::build_merkle_tree(&hashed_leaves);
    let proof = tree.build_proof(&[selected]).expect("build merkle proof");
    let lock = serialize_proof(header_index, proof.indices(), proof.lemmas());
    (tree.root(), Witness { lock: Some(lock), input_type, output_type })
}

fn bury_in_merkle_tree(input: &Cell, output: &Cell, entries: u32, rng: &mut Rng) -> ([u8; 32], Witness) {
    let mut others = Vec::new();
    for _ in 0..entries {
        let type_id = if rng.below(2) == 0 { Some(random_type_id_script(rng)) } else { None };
        let mut input_data = vec![1u8; 1 + rng.below(99)];
        rng.fill(&mut input_data);
        let other_input = zero_lock_cell(rng, &input_data, type_id.clone());
        let mut output_data = vec![1u8; 1 + rng.below(99)];
        rng.fill(&mut output_data);
        let other_output = zero_lock_cell(rng, &output_data, type_id);
        others.push((other_input, other_output));
    }
    let mut leaves: Vec<(&Cell, &Cell)> = others.iter().map(|(a, b)| (a, b)).collect();
    let index = rng.below(leaves.len());
    leaves.insert(index, (input, output));
    build_merkle_root_n_proof(&leaves, index as u32, 0, None, None)
}

/// The extension of a header that commits to `root`: 180 bytes, the root at
/// offset 128.
fn header(rng: &mut Rng, root: &[u8; 32]) -> Option<Vec<u8>> {
    let mut extension = vec![0u8; 180];
    rng.fill(&mut extension);
    extension[128..160].copy_from_slice(root);
    Some(extension)
}

/// Puts a transaction together as the script would see it: the inputs under
/// its own lock form the group, and the witness is that of the first of
/// them.
fn complete_tx(inputs: Vec<Cell>, outputs: Vec<Cell>, witnesses: Vec<Witness>, headers: Vec<Option<Vec<u8>>>) -> Transaction {
    let own = script_hash(&zero_lock_script());
    let mut group_inputs = Vec::new();
    let mut first = None;
    for (i, input) in inputs.iter().enumerate() {
        if script_hash(&input.output.lock()) == own {
            group_inputs.push(input.out_point.as_slice().to_vec());
            if first.is_none() {
                first = Some(i);
            }
        }
    }
    let mut witnesses = witnesses;
    let at = first.expect("an input under the lock");
    let witness = if at < witnesses.len() {
        witnesses.swap_remove(at)
    } else {
        Witness { lock: None, input_type: None, output_type: None }
    };
    let outputs = outputs
        .iter()
        .map(|cell| OutputCell {
            lock_hash: Data::new(script_hash(&cell.output.lock())),
            data_hash: Data::new(ckb_blake2b(&[&cell.data])),
            structure: cell.output.as_slice().to_vec(),
        })
        .collect();
    Transaction { script_hash: Data::new(own), group_inputs, outputs, witness, header_extensions: headers }
}

fn empty_witness() -> Witness {
    Witness { lock: None, input_type: None, output_type: None }
}

#[test]
fn test_single_zero_lock_upgrade() {
    let mut rng = Rng(0x1234_5678_9abc_def1);
    let type_id = random_type_id_script(&mut rng);
    let input_cell = zero_lock_cell(&mut rng, &vec![1u8; 100], Some(type_id.clone()));
    let output_cell = zero_lock_cell(&mut rng, &vec![2u8; 100], Some(type_id));

    let (root, proof_witness) = build_merkle_root_n_proof(&[(&input_cell, &output_cell)], 0, 0, None, None);
    let header_dep = header(&mut rng, &root);

    let tx = complete_tx(vec![input_cell], vec![output_cell], vec![proof_witness], vec![header_dep]);
    run(&tx).expect("pass verification");
    assert_eq!(program_entry(&tx), 0);
}

#[test]
fn test_single_zero_lock_no_type_script_upgrade() {
    let mut rng = Rng(0x0fed_cba9_8765_4321);
    let input_cell = zero_lock_cell(&mut rng, &vec![1u8; 100], None);
    let output_cell = zero_lock_cell(&mut rng, &vec![2u8; 100], None);

    let (root, proof_witness) = build_merkle_root_n_proof(&[(&input_cell, &output_cell)], 0, 0, None, None);
    let header_dep = header(&mut rng, &root);

    let tx = complete_tx(vec![input_cell], vec![output_cell], vec![proof_witness], vec![header_dep]);
    run(&tx).expect("pass verification");
}

#[test]
fn test_zero_lock_with_other_cells_upgrade() {
    let mut rng = Rng(0x5151_5151_0000_0001);
    let type_id = random_type_id_script(&mut rng);
    let input_cell = zero_lock_cell(&mut rng, &vec![1u8; 100], Some(type_id.clone()));
    let output_cell = zero_lock_cell(&mut rng, &vec![2u8; 120], Some(type_id));

    let input_cell2 = always_success_cell(&mut rng, 150);
    let input_cell3 = always_success_cell(&mut rng, 200);
    let output_cell2 = always_success_cell(&mut rng, 320);

    let (root, proof_witness) = build_merkle_root_n_proof(&[(&input_cell, &output_cell)], 0, 0, None, None);
    let header_dep = header(&mut rng, &root);

    let tx = complete_tx(
        vec![input_cell, input_cell2, input_cell3],
        vec![output_cell, output_cell2],
        vec![proof_witness],
        vec![header_dep],
    );
    run(&tx).expect("pass verification");
}

#[test]
fn test_more_than_one_input_zero_lock_fails_verification() {
    let mut rng = Rng(0x2222_3333_4444_5555);
    let input_cell = zero_lock_cell(&mut rng, &vec![1u8; 100], None);
    let output_cell = zero_lock_cell(&mut rng, &vec![2u8; 100], None);
    let input_cell2 = zero_lock_cell(&mut rng, &vec![3u8; 100], None);

    let (root, proof_witness) = build_merkle_root_n_proof(&[(&input_cell, &output_cell)], 0, 0, None, None);
    let header_dep = header(&mut rng, &root);

    let tx = complete_tx(vec![input_cell, input_cell2], vec![output_cell], vec![proof_witness], vec![header_dep]);
    assert_eq!(run(&tx), Err(VerifyError::ShapeViolation));
    assert_eq!(program_entry(&tx), -61);
}

#[test]
fn test_more_than_one_output_zero_lock_fails_verification() {
    let mut rng = Rng(0x6666_7777_8888_9999);
    let input_cell = zero_lock_cell(&mut rng, &vec![1u8; 200], None);
    let output_cell = zero_lock_cell(&mut rng, &vec![2u8; 100], None);
    let output_cell2 = zero_lock_cell(&mut rng, &vec![3u8; 100], None);

    let (root, proof_witness) = build_merkle_root_n_proof(&[(&input_cell, &output_cell)], 0, 0, None, None);
    let header_dep = header(&mut rng, &root);

    let tx = complete_tx(vec![input_cell], vec![output_cell, output_cell2], vec![proof_witness], vec![header_dep]);
    assert_eq!(run(&tx), Err(VerifyError::ShapeViolation));
    assert_eq!(program_entry(&tx), -61);
}

#[test]
fn test_input_zero_lock_at_other_indices() {
    let mut rng = Rng(0xaaaa_bbbb_cccc_dddd);
    let type_id = random_type_id_script(&mut rng);
    let input_cell = zero_lock_cell(&mut rng, &vec![1u8; 100], Some(type_id.clone()));
    let output_cell = zero_lock_cell(&mut rng, &vec![2u8; 120], Some(type_id));

    let input_cell2 = always_success_cell(&mut rng, 150);
    let input_cell3 = always_success_cell(&mut rng, 200);
    let output_cell2 = always_success_cell(&mut rng, 320);

    let (root, proof_witness) = build_merkle_root_n_proof(&[(&input_cell, &output_cell)], 0, 0, None, None);
    let header_dep = header(&mut rng, &root);

    let tx = complete_tx(
        vec![input_cell2, input_cell, input_cell3],
        vec![output_cell, output_cell2],
        vec![empty_witness(), proof_witness],
        vec![header_dep],
    );
    run(&tx).expect("pass verification");
}

#[test]
fn test_output_zero_lock_at_other_indices() {
    let mut rng = Rng(0x0101_0202_0303_0404);
    let type_id = random_type_id_script(&mut rng);
    let input_cell = zero_lock_cell(&mut rng, &vec![1u8; 100], Some(type_id.clone()));
    let output_cell = zero_lock_cell(&mut rng, &vec![2u8; 120], Some(type_id));

    let input_cell2 = always_success_cell(&mut rng, 150);
    let input_cell3 = always_success_cell(&mut rng, 200);
    let output_cell2 = always_success_cell(&mut rng, 320);

    let (root, proof_witness) = build_merkle_root_n_proof(&[(&input_cell, &output_cell)], 0, 0, None, None);
    let header_dep = header(&mut rng, &root);

    let tx = complete_tx(
        vec![input_cell, input_cell2, input_cell3],
        vec![output_cell2, output_cell],
        vec![proof_witness],
        vec![header_dep],
    );
    run(&tx).expect("pass verification");
}

#[test]
fn test_missing_header_fails_verification() {
    let mut rng = Rng(0x0bad_cafe_0bad_cafe);
    let type_id = random_type_id_script(&mut rng);
    let input_cell = zero_lock_cell(&mut rng, &vec![1u8; 100], Some(type_id.clone()));
    let output_cell = zero_lock_cell(&mut rng, &vec![2u8; 100], Some(type_id));

    let (root, proof_witness) = build_merkle_root_n_proof(&[(&input_cell, &output_cell)], 0, 0, None, None);
    let _header_dep = header(&mut rng, &root);

    let tx = complete_tx(vec![input_cell], vec![output_cell], vec![proof_witness], vec![]);
    assert_eq!(run(&tx), Err(VerifyError::LookupFailure));
    assert!(program_entry(&tx) < 0);
    assert_eq!(program_entry(&tx), VerifyError::LookupFailure.status_code());
}

#[test]
fn test_single_zero_lock_long_witness_upgrade() {
    for (seed, extra) in [(1u64, 1usize), (2, 4095), (3, 4096), (4, 4097), (5, 409_599)] {
        let mut rng = Rng(seed.wrapping_mul(0x9e37_79b9_7f4a_7c15));
        let type_id = random_type_id_script(&mut rng);
        let input_cell = zero_lock_cell(&mut rng, &vec![1u8; 100], Some(type_id.clone()));
        let output_cell = zero_lock_cell(&mut rng, &vec![2u8; 100], Some(type_id));

        let mut bytes = vec![0u8; extra];
        rng.fill(&mut bytes);
        let (root, proof_witness) =
            build_merkle_root_n_proof(&[(&input_cell, &output_cell)], 0, 0, Some(bytes), None);
        let header_dep = header(&mut rng, &root);

        let tx = complete_tx(vec![input_cell], vec![output_cell], vec![proof_witness], vec![header_dep]);
        run(&tx).expect("pass verification");
    }
}

#[test]
fn test_witness_side_fields_are_bound_into_the_leaf() {
    let mut rng = Rng(0x7777_0000_7777_0000);
    let input_cell = zero_lock_cell(&mut rng, &vec![1u8; 100], None);
    let output_cell = zero_lock_cell(&mut rng, &vec![2u8; 100], None);
    let (root, proof_witness) = build_merkle_root_n_proof(
        &[(&input_cell, &output_cell)],
        0,
        0,
        Some(vec![7u8; 10]),
        Some(vec![9u8; 3]),
    );
    let header_dep = header(&mut rng, &root);
    let lock = proof_witness.lock.clone();

    let tx = complete_tx(vec![input_cell.clone()], vec![output_cell.clone()], vec![proof_witness], vec![header_dep.clone()]);
    assert_eq!(run(&tx), Ok(()));

    // Removing, changing or swapping the fields changes the leaf.
    for (input_type, output_type) in [
        (None, Some(vec![9u8; 3])),
        (Some(vec![7u8; 10]), None),
        (Some(vec![7u8; 11]), Some(vec![9u8; 3])),
        (Some(vec![9u8; 3]), Some(vec![7u8; 10])),
        (None, None),
    ] {
        let witness = Witness { lock: lock.clone(), input_type, output_type };
        let tx = complete_tx(vec![input_cell.clone()], vec![output_cell.clone()], vec![witness], vec![header_dep.clone()]);
        assert_eq!(run(&tx), Err(VerifyError::ProofMismatch));
    }
}

#[test]
fn test_single_zero_lock_multiple_merkle_tree_entries_upgrade() {
    for entries in 1..30u32 {
        let mut rng = Rng(0x1357_9bdf_0246_8ace ^ ((entries as u64) << 32));
        let type_id = random_type_id_script(&mut rng);
        let input_cell = zero_lock_cell(&mut rng, &vec![1u8; 100], Some(type_id.clone()));
        let output_cell = zero_lock_cell(&mut rng, &vec![2u8; 100], Some(type_id));

        let (root, proof_witness) = bury_in_merkle_tree(&input_cell, &output_cell, entries, &mut rng);
        let header_dep = header(&mut rng, &root);

        let tx = complete_tx(vec![input_cell], vec![output_cell], vec![proof_witness], vec![header_dep]);
        run(&tx).expect("pass verification");
    }
}

#[test]
fn test_single_zero_lock_multiple_merkle_tree_entries_flip_root_bit_fails_verification() {
    for entries in [1u32, 2, 5, 29] {
        let mut rng = Rng(0x2468_ace0_1357_9bdf ^ (entries as u64));
        let input_cell = zero_lock_cell(&mut rng, &vec![1u8; 100], None);
        let output_cell = zero_lock_cell(&mut rng, &vec![2u8; 100], None);
        let (root, proof_witness) = bury_in_merkle_tree(&input_cell, &output_cell, entries, &mut rng);
        let lock = proof_witness.lock.clone();

        for flip_bit in 0..256usize {
            let mut raw_root = root;
            raw_root[flip_bit / 8] ^= 1 << (flip_bit % 8);
            let header_dep = header(&mut rng, &raw_root);
            let witness = Witness { lock: lock.clone(), input_type: None, output_type: None };
            let tx = complete_tx(vec![input_cell.clone()], vec![output_cell.clone()], vec![witness], vec![header_dep]);
            assert_eq!(run(&tx), Err(VerifyError::ProofMismatch));
            assert_eq!(program_entry(&tx), VerifyError::ProofMismatch.status_code());
        }
    }
}

#[test]
fn test_single_zero_lock_multiple_merkle_tree_entries_flip_proof_bit_fails_verification() {
    for entries in [1u32, 4, 12] {
        let mut rng = Rng(0x0f0f_f0f0_1234_4321 ^ (entries as u64));
        let input_cell = zero_lock_cell(&mut rng, &vec![1u8; 100], None);
        let output_cell = zero_lock_cell(&mut rng, &vec![2u8; 100], None);
        let (root, proof_witness) = bury_in_merkle_tree(&input_cell, &output_cell, entries, &mut rng);
        let header_dep = header(&mut rng, &root);
        let lock = proof_witness.lock.clone().unwrap();

        for flip_bit in 0..lock.len() * 8 {
            let byte = flip_bit / 8;
            let mut flipped = lock.clone();
            flipped[byte] ^= 1 << (flip_bit % 8);
            let witness = Witness { lock: Some(flipped), input_type: None, output_type: None };
            let tx = complete_tx(vec![input_cell.clone()], vec![output_cell.clone()], vec![witness], vec![header_dep.clone()]);
            let verdict = run(&tx);
            assert!(
                matches!(
                    verdict,
                    Err(VerifyError::ProofMismatch) | Err(VerifyError::ParseError) | Err(VerifyError::LookupFailure)
                ),
                "bit {} gave {:?}",
                flip_bit,
                verdict
            );
            if byte >= 4 {
                assert!(matches!(verdict, Err(VerifyError::ProofMismatch) | Err(VerifyError::ParseError)));
            }
        }
    }
}

#[test]
fn test_single_zero_lock_multiple_merkle_tree_entries_truncate_proof_fails_verification() {
    for entries in [1u32, 3, 17] {
        let mut rng = Rng(0xdead_beef_0000_0000 ^ (entries as u64));
        let input_cell = zero_lock_cell(&mut rng, &vec![1u8; 100], None);
        let output_cell = zero_lock_cell(&mut rng, &vec![2u8; 100], None);
        let (root, proof_witness) = bury_in_merkle_tree(&input_cell, &output_cell, entries, &mut rng);
        let header_dep = header(&mut rng, &root);
        let lock = proof_witness.lock.clone().unwrap();

        for kept in 0..lock.len() {
            let mut truncated = lock.clone();
            truncated.truncate(kept);
            let witness = Witness { lock: Some(truncated), input_type: None, output_type: None };
            let tx = complete_tx(vec![input_cell.clone()], vec![output_cell.clone()], vec![witness], vec![header_dep.clone()]);
            assert_eq!(run(&tx), Err(VerifyError::ParseError));
        }
    }
}

#[test]
fn test_five_leaves_third_selected() {
    let mut rng = Rng(0x5555_5555_5555_5555);
    let input_cell = zero_lock_cell(&mut rng, &vec![1u8; 100], None);
    let output_cell = zero_lock_cell(&mut rng, &vec![2u8; 100], None);
    let mut others = Vec::new();
    for i in 0..4u8 {
        others.push((zero_lock_cell(&mut rng, &vec![10 + i; 40], None), zero_lock_cell(&mut rng, &vec![20 + i; 40], None)));
    }
    let leaves: Vec<(&Cell, &Cell)> = vec![
        (&others[0].0, &others[0].1),
        (&others[1].0, &others[1].1),
        (&input_cell, &output_cell),
        (&others[2].0, &others[2].1),
        (&others[3].0, &others[3].1),
    ];
    let (root, proof_witness) = build_merkle_root_n_proof(&leaves, 2, 0, None, None);
    let lock = proof_witness.lock.clone().unwrap();
    let header_dep = header(&mut rng, &root);

    let tx = complete_tx(vec![input_cell.clone()], vec![output_cell.clone()], vec![proof_witness], vec![header_dep]);
    assert_eq!(run(&tx), Ok(()));
    assert_eq!(program_entry(&tx), 0);

    let mut flipped_root = root;
    flipped_root[0] ^= 1;
    let header_dep = header(&mut rng, &flipped_root);
    let witness = Witness { lock: Some(lock.clone()), input_type: None, output_type: None };
    let tx = complete_tx(vec![input_cell.clone()], vec![output_cell.clone()], vec![witness], vec![header_dep]);
    assert_eq!(run(&tx), Err(VerifyError::ProofMismatch));
    assert_eq!(program_entry(&tx), -64);

    let mut half = lock.clone();
    half.truncate(lock.len() / 2);
    let header_dep = header(&mut rng, &root);
    let witness = Witness { lock: Some(half), input_type: None, output_type: None };
    let tx = complete_tx(vec![input_cell], vec![output_cell], vec![witness], vec![header_dep]);
    assert_eq!(run(&tx), Err(VerifyError::ParseError));
    assert_eq!(program_entry(&tx), -62);
}

#[test]
fn test_missing_lock_field_is_a_parse_error() {
    let mut rng = Rng(0x4242_4242_4242_4242);
    let input_cell = zero_lock_cell(&mut rng, &vec![1u8; 100], None);
    let output_cell = zero_lock_cell(&mut rng, &vec![2u8; 100], None);
    let (root, _) = build_merkle_root_n_proof(&[(&input_cell, &output_cell)], 0, 0, None, None);
    let header_dep = header(&mut rng, &root);
    let tx = complete_tx(vec![input_cell], vec![output_cell], vec![empty_witness()], vec![header_dep]);
    assert_eq!(run(&tx), Err(VerifyError::ParseError));
}

#[test]
fn test_trailing_byte_after_proof_is_a_parse_error() {
    let mut rng = Rng(0x4343_4343_4343_4343);
    let input_cell = zero_lock_cell(&mut rng, &vec![1u8; 100], None);
    let output_cell = zero_lock_cell(&mut rng, &vec![2u8; 100], None);
    let (root, mut witness) = build_merkle_root_n_proof(&[(&input_cell, &output_cell)], 0, 0, None, None);
    witness.lock.as_mut().unwrap().push(0);
    let header_dep = header(&mut rng, &root);
    let tx = complete_tx(vec![input_cell], vec![output_cell], vec![witness], vec![header_dep]);
    assert_eq!(run(&tx), Err(VerifyError::ParseError));
}

#[test]
fn test_no_output_under_the_lock_is_a_shape_violation() {
    let mut rng = Rng(0x4444_4444_4444_4444);
    let input_cell = zero_lock_cell(&mut rng, &vec![1u8; 100], None);
    let output_cell = zero_lock_cell(&mut rng, &vec![2u8; 100], None);
    let other_output = always_success_cell(&mut rng, 320);
    let (root, witness) = build_merkle_root_n_proof(&[(&input_cell, &output_cell)], 0, 0, None, None);
    let header_dep = header(&mut rng, &root);
    let tx = complete_tx(vec![input_cell], vec![other_output], vec![witness], vec![header_dep]);
    assert_eq!(run(&tx), Err(VerifyError::ShapeViolation));
}

#[test]
fn test_header_selector_picks_the_header() {
    let mut rng = Rng(0x4545_4545_4545_4545);
    let input_cell = zero_lock_cell(&mut rng, &vec![1u8; 100], None);
    let output_cell = zero_lock_cell(&mut rng, &vec![2u8; 100], None);
    let (root, witness) = build_merkle_root_n_proof(&[(&input_cell, &output_cell)], 0, 2, None, None);
    let lock = witness.lock.clone();
    let good = header(&mut rng, &root);
    let wrong = header(&mut rng, &[0u8; 32]);

    let tx = complete_tx(
        vec![input_cell.clone()],
        vec![output_cell.clone()],
        vec![witness],
        vec![wrong.clone(), None, good.clone()],
    );
    assert_eq!(run(&tx), Ok(()));

    let witness = Witness { lock: lock.clone(), input_type: None, output_type: None };
    let tx = complete_tx(
        vec![input_cell.clone()],
        vec![output_cell.clone()],
        vec![witness],
        vec![wrong.clone(), good.clone(), None],
    );
    assert_eq!(run(&tx), Err(VerifyError::LookupFailure));

    let witness = Witness { lock, input_type: None, output_type: None };
    let tx = complete_tx(vec![input_cell], vec![output_cell], vec![witness], vec![good.clone(), good, wrong]);
    assert_eq!(run(&tx), Err(VerifyError::ProofMismatch));
}
