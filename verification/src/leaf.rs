//! The leaf of an upgrade: one hash over the input that is spent, the output
//! that replaces it, and the two optional fields of the witness.
//!
//! The preimage is, in this order: the byte `0x01`; the out point of the
//! input; the hash of the output's data; the output's structure; then for
//! the witness's `input_type` and for its `output_type` either the byte
//! `0x00`, if the field is absent, or the byte `0x01`, the field's length
//! as a little-endian `u32`, and the field's bytes.

use crate::error::{AccessError, VerifyError};
use crate::hash::{ckb_hash, Data, Hasher};
use vstd::bytes::spec_u32_to_le_bytes;
use vstd::prelude::*;

verus! {

/// The version byte that opens every preimage.
pub const LEAF_VERSION: u8 = 1;

/// What is hashed for an optional field of the witness.
pub open spec fn side_tag(field: Option<Seq<u8>>) -> Seq<u8> {
    match field {
        None => seq![0u8],
        Some(bytes) => seq![1u8] + spec_u32_to_le_bytes(bytes.len() as u32) + bytes,
    }
}

/// What is hashed when a field is announced: its presence and its length.
pub open spec fn side_tag_head(present: bool, length: u32) -> Seq<u8> {
    if present {
        seq![1u8] + spec_u32_to_le_bytes(length)
    } else {
        seq![0u8]
    }
}

/// The part of the preimage that comes before the output's structure.
pub open spec fn leaf_prefix(out_point: Seq<u8>, data_hash: Seq<u8>) -> Seq<u8> {
    seq![LEAF_VERSION] + out_point + data_hash
}

/// The whole preimage of a leaf.
pub open spec fn leaf_preimage(
    out_point: Seq<u8>,
    data_hash: Seq<u8>,
    output: Seq<u8>,
    input_type: Option<Seq<u8>>,
    output_type: Option<Seq<u8>>,
) -> Seq<u8> {
    leaf_prefix(out_point, data_hash) + output + side_tag(input_type) + side_tag(output_type)
}

/// The leaf: the hash of the preimage.
pub open spec fn leaf_hash(
    out_point: Seq<u8>,
    data_hash: Seq<u8>,
    output: Seq<u8>,
    input_type: Option<Seq<u8>>,
    output_type: Option<Seq<u8>>,
) -> Seq<u8> {
    ckb_hash(leaf_preimage(out_point, data_hash, output, input_type, output_type))
}

/// A present field is hashed as its announcement followed by its bytes.
pub proof fn lemma_side_tag_parts(bytes: Seq<u8>)
    requires
        bytes.len() <= u32::MAX,
    ensures
        side_tag(Some(bytes)) == side_tag_head(true, bytes.len() as u32) + bytes,
        side_tag(None) == side_tag_head(false, 0),
{
}

/// Begins a leaf: a hasher that holds the version byte, the out point of
/// the input and the hash of the output's data.
pub fn start_leaf(out_point: &[u8], data_hash: &Data) -> (hasher: Hasher)
    ensures
        hasher.wf(),
        hasher@ == leaf_prefix(out_point@, data_hash@),
{
    let mut hasher = Hasher::new();
    let version: [u8; 1] = [LEAF_VERSION];
    hasher.update(version.as_slice());
    hasher.update(out_point);
    hasher.update(data_hash.as_bytes());
    proof {
        assert(version@ =~= seq![LEAF_VERSION]);
        assert(hasher@ =~= leaf_prefix(out_point@, data_hash@));
    }
    hasher
}

/// What to do after one read of the output's structure.
#[derive(Clone, Copy, Debug, PartialEq, Eq, Structural)]
pub enum LoadStep {
    /// The structure goes on: read again, from this offset.
    More(usize),
    /// That was the last of it.
    Done,
    /// The read failed.
    Failed(VerifyError),
}

/// Takes in one read of the output's structure, made at offset `loaded`
/// into `buf`.
///
/// A read that gave `n` bytes was the last one: its `n` bytes are hashed. A
/// read that filled the buffer without reaching the end has the whole buffer
/// hashed, and the next read starts behind it. Everything else is a failure
/// of the accessor, and nothing is hashed.
pub fn absorb_output_chunk(
    hasher: &mut Hasher,
    loaded: usize,
    buf: &[u8],
    answer: &Result<usize, AccessError>,
) -> (step: LoadStep)
    requires
        old(hasher).wf(),
    ensures
        final(hasher).wf(),
        match *answer {
            Ok(n) => if n <= buf@.len() {
                &&& step == LoadStep::Done
                &&& final(hasher)@ == old(hasher)@ + buf@.subrange(0, n as int)
            } else {
                &&& step == LoadStep::Failed(VerifyError::AccessorFailure)
                &&& final(hasher)@ == old(hasher)@
            },
            Err(AccessError::LengthNotEnough(_)) => if loaded + buf@.len() <= usize::MAX {
                &&& step == LoadStep::More((loaded + buf@.len()) as usize)
                &&& final(hasher)@ == old(hasher)@ + buf@
            } else {
                &&& step == LoadStep::Failed(VerifyError::AccessorFailure)
                &&& final(hasher)@ == old(hasher)@
            },
            Err(_) => {
                &&& step == LoadStep::Failed(VerifyError::AccessorFailure)
                &&& final(hasher)@ == old(hasher)@
            },
        },
{
    match answer {
        Ok(n) => {
            if *n <= buf.len() {
                hasher.update(vstd::slice::slice_subrange(buf, 0, *n));
                LoadStep::Done
            } else {
                LoadStep::Failed(VerifyError::AccessorFailure)
            }
        },
        Err(AccessError::LengthNotEnough(_)) => {
            if buf.len() <= usize::MAX - loaded {
                hasher.update(buf);
                LoadStep::More(loaded + buf.len())
            } else {
                LoadStep::Failed(VerifyError::AccessorFailure)
            }
        },
        Err(_) => LoadStep::Failed(VerifyError::AccessorFailure),
    }
}

} // verus!
