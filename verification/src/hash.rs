//! 32-byte hash values and the personalised BLAKE2b hasher that produces them.

use vstd::prelude::*;

verus! {

/// Number of bytes in a hash value.
pub const HASH_SIZE: usize = 32;

/// The personalisation string under which every hash of this library is taken.
pub open spec fn ckb_personal() -> Seq<u8> {
    seq![99u8, 107u8, 98u8, 45u8, 100u8, 101u8, 102u8, 97u8, 117u8, 108u8, 116u8, 45u8, 104u8, 97u8, 115u8, 104u8]
}

/// An opaque 32-byte value: a leaf, a lemma or a root. Two values are equal
/// exactly when their bytes are.
#[derive(Debug, PartialOrd, Ord, Eq, Hash)]
pub struct Data([u8; 32]);

impl View for Data {
    type V = Seq<u8>;

    closed spec fn view(&self) -> Seq<u8> {
        self.0@
    }
}

impl Default for Data {
    /// The hash value of 32 zero bytes.
    fn default() -> (r: Self)
        ensures
            r@ == Seq::new(32, |i: int| 0u8),
    {
        let r = Data([0u8; 32]);
        proof {
            assert(r@ =~= Seq::new(32, |i: int| 0u8));
        }
        r
    }
}

impl Clone for Data {
    fn clone(&self) -> (r: Self)
        ensures
            r == *self,
    {
        Data(self.0)
    }
}

impl PartialEq for Data {
    fn eq(&self, other: &Self) -> (r: bool) {
        let mut i: usize = 0;
        while i < 32
            invariant
                i <= 32,
                forall|j: int| 0 <= j < i ==> self.0@[j] == other.0@[j],
            decreases 32 - i,
        {
            if self.0[i] != other.0[i] {
                return false;
            }
            i += 1;
        }
        proof {
            assert(self.0@ =~= other.0@);
        }
        true
    }
}

impl vstd::std_specs::cmp::PartialEqSpecImpl for Data {
    open spec fn obeys_eq_spec() -> bool {
        true
    }

    open spec fn eq_spec(&self, other: &Self) -> bool {
        self@ == other@
    }
}

impl Data {
    /// Copies a slice of exactly 32 bytes.
    pub fn from_slice(data: &[u8]) -> (r: Self)
        requires
            data@.len() == 32,
        ensures
            r@ == data@,
    {
        let mut d = [0u8; 32];
        let mut i: usize = 0;
        while i < 32
            invariant
                i <= 32,
                data@.len() == 32,
                forall|j: int| 0 <= j < i ==> d@[j] == data@[j],
            decreases 32 - i,
        {
            d[i] = data[i];
            i += 1;
        }
        proof {
            assert(d@ =~= data@);
        }
        Data(d)
    }

    pub fn new(data: [u8; 32]) -> (r: Self)
        ensures
            r@ == data@,
    {
        Data(data)
    }

    pub fn as_bytes(&self) -> (r: &[u8])
        ensures
            r@ == self@,
    {
        self.0.as_slice()
    }

    /// Every hash value has exactly 32 bytes, and its bytes determine it.
    pub proof fn lemma_view(self)
        ensures
            self@.len() == 32,
            forall|other: Data| other@ == self@ ==> other == self,
    {
        assert forall|other: Data| other@ == self@ implies other == self by {
            assert(other.0@ == self.0@);
            assert(other.0 =~= self.0);
        }
    }
}

/// The byte strings of a sequence of hash values.
pub open spec fn hashes_view(v: Seq<Data>) -> Seq<Seq<u8>> {
    Seq::new(v.len(), |i: int| v[i]@)
}

/// The streaming BLAKE2b state of the `blake2b-ref` crate.
#[verifier::external_type_specification]
#[verifier::external_body]
pub struct ExBlake2b(blake2b_ref::Blake2b);

/// The bytes that a hasher has been fed since it was built, in the order in
/// which they came.
pub uninterp spec fn absorbed(h: blake2b_ref::Blake2b) -> Seq<u8>;

/// What a hasher was built with: its digest length in bytes, and its
/// personalisation.
pub uninterp spec fn hasher_setup(h: blake2b_ref::Blake2b) -> (usize, Seq<u8>);

/// What a BLAKE2b hasher without key and salt, built with the digest length
/// `out_len` and the personalisation `personal`, leaves in a zeroed buffer of
/// 32 bytes when it is finalized after absorbing `input`. With `out_len` 32
/// that is the 32-byte BLAKE2b digest of `input`.
pub uninterp spec fn blake2b_into_32(out_len: usize, personal: Seq<u8>, input: Seq<u8>) -> Seq<u8>;

/// `Blake2bBuilder::new(out_len).personal(personal).build()`: a hasher with
/// the given digest length and personalisation that has absorbed nothing
/// yet. The builder asserts the two bounds required here.
#[verifier::external_body]
fn hasher_build(out_len: usize, personal: &[u8]) -> (h: blake2b_ref::Blake2b)
    requires
        1 <= out_len <= 64,
        personal@.len() <= 16,
    ensures
        absorbed(h) == Seq::<u8>::empty(),
        hasher_setup(h) == (out_len, personal@),
{
    blake2b_ref::Blake2bBuilder::new(out_len).personal(personal).build()
}

/// `Blake2b::update`: the hasher absorbs `data` behind what it already
/// holds; what it was built with stays.
#[verifier::external_body]
fn hasher_update(h: &mut blake2b_ref::Blake2b, data: &[u8])
    ensures
        absorbed(*final(h)) == absorbed(*old(h)) + data@,
        hasher_setup(*final(h)) == hasher_setup(*old(h)),
{
    h.update(data)
}

/// `Blake2b::finalize` into a zeroed buffer of 32 bytes: what the buffer
/// then holds depends on what the hasher was built with and on what it has
/// absorbed, and on nothing else.
#[verifier::external_body]
fn hasher_finalize(h: blake2b_ref::Blake2b) -> (out: [u8; 32])
    ensures
        out@ == blake2b_into_32(hasher_setup(h).0, hasher_setup(h).1, absorbed(h)),
{
    let mut out = [0u8; 32];
    h.finalize(&mut out);
    out
}

/// The hash of a byte string, as this library takes it.
pub open spec fn ckb_hash(input: Seq<u8>) -> Seq<u8> {
    blake2b_into_32(HASH_SIZE, ckb_personal(), input)
}

/// The parent of two tree nodes: the hash of the left child's bytes followed
/// by the right child's.
pub open spec fn merge_spec(left: Seq<u8>, right: Seq<u8>) -> Seq<u8> {
    ckb_hash(left + right)
}

/// A hasher that absorbs bytes chunk by chunk and ends in one hash value. Its
/// view is everything absorbed so far.
pub struct Hasher {
    inner: blake2b_ref::Blake2b,
}

impl View for Hasher {
    type V = Seq<u8>;

    closed spec fn view(&self) -> Seq<u8> {
        absorbed(self.inner)
    }
}

impl Hasher {
    /// The hasher was built by this library: 32-byte digests under the
    /// library's personalisation.
    pub closed spec fn wf(&self) -> bool {
        hasher_setup(self.inner) == (HASH_SIZE, ckb_personal())
    }

    pub fn new() -> (h: Self)
        ensures
            h.wf(),
            h@ == Seq::<u8>::empty(),
    {
        let personal: [u8; 16] = [99, 107, 98, 45, 100, 101, 102, 97, 117, 108, 116, 45, 104, 97, 115, 104];
        proof {
            assert(personal@ =~= ckb_personal());
        }
        Hasher { inner: hasher_build(HASH_SIZE, personal.as_slice()) }
    }

    pub fn update(&mut self, data: &[u8])
        requires
            old(self).wf(),
        ensures
            final(self).wf(),
            final(self)@ == old(self)@ + data@,
    {
        hasher_update(&mut self.inner, data);
    }

    pub fn finalize(self) -> (r: Data)
        requires
            self.wf(),
        ensures
            r@ == ckb_hash(self@),
    {
        Data::new(hasher_finalize(self.inner))
    }
}

/// Marker type that carries the pairwise merge rule into the tree code.
#[derive(Debug)]
pub struct Blake2bHash;

impl Blake2bHash {
    /// Hashes the 64 bytes `lhs ++ rhs` into the parent node.
    pub fn merge_nodes(lhs: &Data, rhs: &Data) -> (r: Data)
        ensures
            r@ == merge_spec(lhs@, rhs@),
    {
        let mut hasher = Hasher::new();
        hasher.update(lhs.as_bytes());
        hasher.update(rhs.as_bytes());
        hasher.finalize()
    }
}

impl merkle_cbt::merkle_tree::Merge for Blake2bHash {
    type Item = Data;

    /// The parent of two nodes: the hash of the left child's bytes followed
    /// by the right child's.
    fn merge(lhs: &Data, rhs: &Data) -> (r: Data)
        ensures
            r@ == merge_spec(lhs@, rhs@),
    {
        Blake2bHash::merge_nodes(lhs, rhs)
    }
}

} // verus!
