//! The visitor of a witness: the lock field is decoded as a proof, the two
//! optional fields are taken into the hash of the leaf.
//!
//! Whoever reads the witness announces each field with its presence and
//! length, and hands over the bytes of a present field in one or more
//! chunks. Every callback answers 0 to go on, or a negative code to stop.

use crate::hash::Hasher;
use crate::leaf::{side_tag, side_tag_head};
use crate::proof_reader::{taken_in, ProofVisitor, ERROR_CODE_PROOF_READER};
use crate::wire::{decoded_state, has_trailing, ReadState};
use vstd::bytes::u32_to_le_bytes;
use vstd::prelude::*;

verus! {

/// What a callback returns when the witness has no lock field.
pub const ERROR_CODE_WITNESS_READER: i32 = -70;

/// The state that the callbacks share: the decoder of the proof, and the
/// hasher of the leaf.
pub struct WitnessVisitor {
    proof: ProofVisitor,
    remainder_hasher: Hasher,
}

impl WitnessVisitor {
    pub closed spec fn wf(&self) -> bool {
        self.proof.wf() && self.remainder_hasher.wf()
    }

    /// The bytes of the lock field that the decoder has been given.
    pub closed spec fn lock_bytes(&self) -> Seq<u8> {
        self.proof@
    }

    /// Everything that the hasher has absorbed.
    pub closed spec fn hashed(&self) -> Seq<u8> {
        self.remainder_hasher@
    }

    pub fn new(remainder_hasher: Hasher) -> (r: Self)
        requires
            remainder_hasher.wf(),
        ensures
            r.wf(),
            r.lock_bytes() == Seq::<u8>::empty(),
            r.hashed() == remainder_hasher@,
    {
        WitnessVisitor { proof: ProofVisitor::default(), remainder_hasher }
    }

    pub fn destruct(self) -> (r: (ProofVisitor, Hasher))
        requires
            self.wf(),
        ensures
            r.0.wf(),
            r.0@ == self.lock_bytes(),
            r.1.wf(),
            r.1@ == self.hashed(),
    {
        (self.proof, self.remainder_hasher)
    }
}

/// The lock field is announced. It carries the proof, so it must be there.
pub fn visit_lock_meta(present: i32, length: u32) -> (ret: i32)
    ensures
        present != 0 ==> ret == 0,
        present == 0 ==> ret == ERROR_CODE_WITNESS_READER,
{
    if present == 0 {
        return ERROR_CODE_WITNESS_READER;
    }
    0
}

/// A chunk of the lock field: it goes to the decoder, which refuses it
/// exactly when bytes follow a complete proof.
pub fn visit_lock_data(data: &[u8], visitor: &mut WitnessVisitor) -> (ret: i32)
    requires
        old(visitor).wf(),
    ensures
        final(visitor).wf(),
        final(visitor).hashed() == old(visitor).hashed(),
        (ret == 0) <==> !has_trailing(old(visitor).lock_bytes() + data@),
        final(visitor).lock_bytes() == old(visitor).lock_bytes() + data@.take(
            taken_in(old(visitor).lock_bytes(), data@),
        ),
        ret == 0 ==> final(visitor).lock_bytes() == old(visitor).lock_bytes() + data@,
        ret != 0 ==> ret == ERROR_CODE_PROOF_READER && decoded_state(final(visitor).lock_bytes())
            == ReadState::Completed,
{
    visitor.proof.process(data)
}

/// One of the two optional fields is announced: its presence, and for a
/// present field its length, go into the hash.
pub fn visit_remainder_meta(present: i32, length: u32, visitor: &mut WitnessVisitor) -> (ret: i32)
    requires
        old(visitor).wf(),
    ensures
        final(visitor).wf(),
        ret == 0,
        final(visitor).lock_bytes() == old(visitor).lock_bytes(),
        final(visitor).hashed() == old(visitor).hashed() + side_tag_head(present != 0, length),
{
    if present != 0 {
        let one: [u8; 1] = [1u8];
        visitor.remainder_hasher.update(one.as_slice());
        let bytes = u32_to_le_bytes(length);
        visitor.remainder_hasher.update(bytes.as_slice());
        proof {
            assert(one@ =~= seq![1u8]);
            assert(visitor.hashed() =~= old(visitor).hashed() + side_tag_head(true, length));
        }
    } else {
        let zero: [u8; 1] = [0u8];
        visitor.remainder_hasher.update(zero.as_slice());
        proof {
            assert(zero@ =~= seq![0u8]);
        }
    }
    0
}

/// A chunk of one of the two optional fields: it goes into the hash as it
/// is.
pub fn visit_remainder_data(data: &[u8], visitor: &mut WitnessVisitor) -> (ret: i32)
    requires
        old(visitor).wf(),
    ensures
        final(visitor).wf(),
        ret == 0,
        final(visitor).lock_bytes() == old(visitor).lock_bytes(),
        final(visitor).hashed() == old(visitor).hashed() + data@,
{
    visitor.remainder_hasher.update(data);
    0
}

/// The three fields of a witness, each there or not.
#[derive(Debug)]
pub struct Witness {
    pub lock: Option<Vec<u8>>,
    pub input_type: Option<Vec<u8>>,
    pub output_type: Option<Vec<u8>>,
}

/// The bytes of an optional field.
pub open spec fn field_view(field: Option<Vec<u8>>) -> Option<Seq<u8>> {
    match field {
        Some(bytes) => Some(bytes@),
        None => None,
    }
}

/// Every field that is there has a length that a `u32` can hold.
pub open spec fn fits_envelope(witness: Witness) -> bool {
    &&& witness.lock matches Some(bytes) ==> bytes@.len() <= u32::MAX
    &&& witness.input_type matches Some(bytes) ==> bytes@.len() <= u32::MAX
    &&& witness.output_type matches Some(bytes) ==> bytes@.len() <= u32::MAX
}

/// Announces one optional field to the visitor and hands over its bytes.
fn visit_remainder(field: &Option<Vec<u8>>, visitor: &mut WitnessVisitor)
    requires
        old(visitor).wf(),
        *field matches Some(bytes) ==> bytes@.len() <= u32::MAX,
    ensures
        final(visitor).wf(),
        final(visitor).lock_bytes() == old(visitor).lock_bytes(),
        final(visitor).hashed() == old(visitor).hashed() + side_tag(field_view(*field)),
{
    match field {
        Some(bytes) => {
            visit_remainder_meta(1, bytes.len() as u32, visitor);
            visit_remainder_data(bytes.as_slice(), visitor);
            proof {
                assert(visitor.hashed() =~= old(visitor).hashed() + side_tag(Some(bytes@)));
            }
        },
        None => {
            visit_remainder_meta(0, 0, visitor);
        },
    }
}

/// Reads a witness that is held in memory: the lock field goes to a fresh
/// decoder, the two optional fields into `remainder_hasher`.
///
/// The reading fails when the witness has no lock field, and when bytes
/// follow a complete proof in it. Otherwise the decoder has been given the
/// whole lock field, and the hasher has absorbed what stands for the two
/// optional fields, `input_type` first.
pub fn read_witness(witness: &Witness, remainder_hasher: Hasher) -> (r: Option<
    (ProofVisitor, Hasher),
>)
    requires
        remainder_hasher.wf(),
        fits_envelope(*witness),
    ensures
        r.is_some() <==> (witness.lock matches Some(lock) && !has_trailing(lock@)),
        r matches Some(parts) ==> {
            &&& parts.0.wf()
            &&& Some(parts.0@) == field_view(witness.lock)
            &&& parts.1.wf()
            &&& parts.1@ == remainder_hasher@ + side_tag(field_view(witness.input_type))
                + side_tag(field_view(witness.output_type))
        },
{
    let mut visitor = WitnessVisitor::new(remainder_hasher);
    match &witness.lock {
        Some(lock) => {
            if visit_lock_meta(1, lock.len() as u32) != 0 {
                return None;
            }
            proof {
                assert(Seq::<u8>::empty() + lock@ =~= lock@);
            }
            if visit_lock_data(lock.as_slice(), &mut visitor) != 0 {
                return None;
            }
        },
        None => {
            if visit_lock_meta(0, 0) != 0 {
                return None;
            }
        },
    }
    visit_remainder(&witness.input_type, &mut visitor);
    visit_remainder(&witness.output_type, &mut visitor);
    Some(visitor.destruct())
}

} // verus!
