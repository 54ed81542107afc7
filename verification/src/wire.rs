//! The wire format of a proof, as a function of the bytes received so far.
//!
//! All integers are little-endian:
//! `u32 header_index | u32 index_count | index_count x u32 | u32 lemma_count |
//! lemma_count x 32-byte hash`.

use vstd::bytes::{spec_u32_from_le_bytes, spec_u32_to_le_bytes};
use vstd::prelude::*;

verus! {

/// Where a decoder stands in the format. The states follow one another in
/// this order and never go back.
#[derive(Clone, Copy, PartialEq, Eq, Hash, Debug, Structural)]
pub enum ReadState {
    HeaderIndex,
    IndicesLength,
    Indices,
    LemmasLength,
    Lemmas,
    Completed,
}

/// The little-endian `u32` that the four bytes from `off` on spell.
pub open spec fn u32_at(s: Seq<u8>, off: int) -> u32 {
    spec_u32_from_le_bytes(s.subrange(off, off + 4))
}

/// The 32 bytes from `off` on.
pub open spec fn hash_at(s: Seq<u8>, off: int) -> Seq<u8> {
    s.subrange(off, off + 32)
}

/// The number of indices that the stream announces (once it has 8 bytes).
pub open spec fn declared_indices(s: Seq<u8>) -> int {
    u32_at(s, 4) as int
}

/// Where the lemma count stands: behind the announced indices.
pub open spec fn lemmas_offset(s: Seq<u8>) -> int {
    8 + 4 * declared_indices(s)
}

/// The number of lemmas that the stream announces (once it reaches that far).
pub open spec fn declared_lemmas(s: Seq<u8>) -> int {
    u32_at(s, lemmas_offset(s)) as int
}

/// The length of the complete proof that the stream announces.
pub open spec fn proof_len(s: Seq<u8>) -> int {
    lemmas_offset(s) + 4 + 32 * declared_lemmas(s)
}

/// The state of a decoder that has received exactly `s` and taken every
/// transition that `s` allows.
pub open spec fn decoded_state(s: Seq<u8>) -> ReadState {
    if s.len() < 4 {
        ReadState::HeaderIndex
    } else if s.len() < 8 {
        ReadState::IndicesLength
    } else if s.len() < lemmas_offset(s) {
        ReadState::Indices
    } else if s.len() < lemmas_offset(s) + 4 {
        ReadState::LemmasLength
    } else if s.len() < proof_len(s) {
        ReadState::Lemmas
    } else {
        ReadState::Completed
    }
}

/// The header selector: the first field, `u32::MAX` until it has arrived.
pub open spec fn decoded_header_index(s: Seq<u8>) -> u32 {
    if s.len() < 4 {
        u32::MAX
    } else {
        u32_at(s, 0)
    }
}

/// How many indices have arrived in full.
pub open spec fn decoded_index_count(s: Seq<u8>) -> int {
    if s.len() < 8 {
        0
    } else if s.len() < lemmas_offset(s) {
        (s.len() - 8) / 4
    } else {
        declared_indices(s)
    }
}

/// The `i`-th index of the stream.
pub open spec fn index_at(s: Seq<u8>, i: int) -> u32 {
    u32_at(s, 8 + 4 * i)
}

/// The `i`-th lemma of the stream.
pub open spec fn lemma_at(s: Seq<u8>, i: int) -> Seq<u8> {
    hash_at(s, lemmas_offset(s) + 4 + 32 * i)
}

/// The indices that have arrived in full, in order.
pub open spec fn decoded_indices(s: Seq<u8>) -> Seq<u32> {
    Seq::new(decoded_index_count(s) as nat, |i: int| index_at(s, i))
}

/// How many lemmas have arrived in full.
pub open spec fn decoded_lemma_count(s: Seq<u8>) -> int {
    if s.len() < 8 || s.len() < lemmas_offset(s) + 4 {
        0
    } else if s.len() < proof_len(s) {
        (s.len() - lemmas_offset(s) - 4) / 32
    } else {
        declared_lemmas(s)
    }
}

/// The lemmas that have arrived in full, in order.
pub open spec fn decoded_lemmas(s: Seq<u8>) -> Seq<Seq<u8>> {
    Seq::new(decoded_lemma_count(s) as nat, |i: int| lemma_at(s, i))
}

/// How many bytes of the stream the fields that arrived in full take up.
pub open spec fn parsed_len(s: Seq<u8>) -> int {
    match decoded_state(s) {
        ReadState::HeaderIndex => 0,
        ReadState::IndicesLength => 4,
        ReadState::Indices => 8 + 4 * decoded_index_count(s),
        ReadState::LemmasLength => lemmas_offset(s),
        ReadState::Lemmas => lemmas_offset(s) + 4 + 32 * decoded_lemma_count(s),
        ReadState::Completed => proof_len(s),
    }
}

/// The bytes behind the last field that arrived in full.
pub open spec fn unparsed(s: Seq<u8>) -> Seq<u8> {
    s.skip(parsed_len(s))
}

/// The stream holds a complete proof and at least one byte more.
pub open spec fn has_trailing(s: Seq<u8>) -> bool {
    decoded_state(s) == ReadState::Completed && s.len() > proof_len(s)
}

/// The stream is exactly one complete proof.
pub open spec fn is_complete(s: Seq<u8>) -> bool {
    decoded_state(s) == ReadState::Completed && s.len() == proof_len(s)
}

/// A field that lies within a prefix of a stream reads the same in both.
pub proof fn lemma_prefix_reads(p: Seq<u8>, s: Seq<u8>)
    requires
        p.is_prefix_of(s),
    ensures
        forall|off: int| 0 <= off && off + 4 <= p.len() ==> #[trigger] u32_at(s, off) == u32_at(p, off),
        forall|off: int| 0 <= off && off + 32 <= p.len() ==> #[trigger] hash_at(s, off) == hash_at(p, off),
{
    assert forall|off: int| 0 <= off && off + 4 <= p.len() implies #[trigger] u32_at(s, off)
        == u32_at(p, off) by {
        assert(s.subrange(off, off + 4) =~= p.subrange(off, off + 4));
    }
    assert forall|off: int| 0 <= off && off + 32 <= p.len() implies #[trigger] hash_at(s, off)
        == hash_at(p, off) by {
        assert(s.subrange(off, off + 32) =~= p.subrange(off, off + 32));
    }
}

/// Once a stream holds a complete proof, whatever follows changes nothing of
/// what was decoded.
pub proof fn lemma_complete_prefix(p: Seq<u8>, s: Seq<u8>)
    requires
        p.is_prefix_of(s),
        decoded_state(p) == ReadState::Completed,
    ensures
        decoded_state(s) == ReadState::Completed,
        proof_len(s) == proof_len(p),
        decoded_header_index(s) == decoded_header_index(p),
        decoded_indices(s) == decoded_indices(p),
        decoded_lemmas(s) == decoded_lemmas(p),
{
    lemma_prefix_reads(p, s);
    assert(u32_at(s, 0) == u32_at(p, 0));
    assert(u32_at(s, 4) == u32_at(p, 4));
    assert(u32_at(s, lemmas_offset(p)) == u32_at(p, lemmas_offset(p)));
    assert forall|i: int| 0 <= i < declared_indices(p) implies #[trigger] index_at(s, i)
        == index_at(p, i) by {}
    assert forall|i: int| 0 <= i < declared_lemmas(p) implies #[trigger] lemma_at(s, i)
        == lemma_at(p, i) by {}
    assert(decoded_indices(s) =~= decoded_indices(p));
    assert(decoded_lemmas(s) =~= decoded_lemmas(p));
}

/// A stream that has bytes behind a complete proof keeps them, whatever is
/// appended: once refused, always refused.
pub proof fn lemma_trailing_persists(p: Seq<u8>, s: Seq<u8>)
    requires
        p.is_prefix_of(s),
        has_trailing(p),
    ensures
        has_trailing(s),
{
    lemma_complete_prefix(p, s);
}

/// A stream without bytes behind a complete proof has none in any of its
/// beginnings: however such a stream is cut into chunks, no chunk of it is
/// refused.
pub proof fn lemma_prefix_accepted(s: Seq<u8>, k: int)
    requires
        !has_trailing(s),
        0 <= k <= s.len(),
    ensures
        !has_trailing(s.take(k)),
{
    let p = s.take(k);
    assert(p.is_prefix_of(s));
    if has_trailing(p) {
        lemma_trailing_persists(p, s);
    }
}

/// No proper beginning of a complete proof is itself complete: a truncated
/// proof is never taken for a whole one.
pub proof fn lemma_truncated_incomplete(s: Seq<u8>, k: int)
    requires
        is_complete(s),
        0 <= k < s.len(),
    ensures
        decoded_state(s.take(k)) != ReadState::Completed,
{
    let p = s.take(k);
    assert(p.is_prefix_of(s));
    if decoded_state(p) == ReadState::Completed {
        lemma_complete_prefix(p, s);
    }
}

/// The indices, four little-endian bytes each, one after the other.
pub open spec fn encode_indices(indices: Seq<u32>) -> Seq<u8>
    decreases indices.len(),
{
    if indices.len() == 0 {
        Seq::empty()
    } else {
        encode_indices(indices.drop_last()) + spec_u32_to_le_bytes(indices.last())
    }
}

/// The lemmas, one after the other.
pub open spec fn encode_lemmas(lemmas: Seq<Seq<u8>>) -> Seq<u8>
    decreases lemmas.len(),
{
    if lemmas.len() == 0 {
        Seq::empty()
    } else {
        encode_lemmas(lemmas.drop_last()) + lemmas.last()
    }
}

/// The bytes that spell a header selector and a proof.
pub open spec fn serialize(header_index: u32, indices: Seq<u32>, lemmas: Seq<Seq<u8>>) -> Seq<u8> {
    spec_u32_to_le_bytes(header_index) + spec_u32_to_le_bytes(indices.len() as u32)
        + encode_indices(indices) + spec_u32_to_le_bytes(lemmas.len() as u32) + encode_lemmas(
        lemmas,
    )
}

/// Every lemma has 32 bytes.
pub open spec fn all_hashes(lemmas: Seq<Seq<u8>>) -> bool {
    forall|i: int| 0 <= i < lemmas.len() ==> (#[trigger] lemmas[i]).len() == 32
}

/// The encoded indices take four bytes each, and the `i`-th stands at `4 * i`.
pub proof fn lemma_encode_indices(indices: Seq<u32>)
    ensures
        encode_indices(indices).len() == 4 * indices.len(),
        forall|i: int|
            0 <= i < indices.len() ==> encode_indices(indices).subrange(4 * i, 4 * i + 4)
                == spec_u32_to_le_bytes(#[trigger] indices[i]),
    decreases indices.len(),
{
    vstd::bytes::lemma_auto_spec_u32_to_from_le_bytes();
    if indices.len() > 0 {
        let front = indices.drop_last();
        lemma_encode_indices(front);
        let whole = encode_indices(indices);
        assert forall|i: int| 0 <= i < indices.len() implies whole.subrange(4 * i, 4 * i + 4)
            == spec_u32_to_le_bytes(#[trigger] indices[i]) by {
            if i < front.len() {
                assert(front[i] == indices[i]);
                assert(whole.subrange(4 * i, 4 * i + 4) =~= encode_indices(front).subrange(
                    4 * i,
                    4 * i + 4,
                ));
            } else {
                assert(whole.subrange(4 * i, 4 * i + 4) =~= spec_u32_to_le_bytes(indices.last()));
            }
        }
    }
}

/// The encoded lemmas take 32 bytes each, and the `i`-th stands at `32 * i`.
pub proof fn lemma_encode_lemmas(lemmas: Seq<Seq<u8>>)
    requires
        all_hashes(lemmas),
    ensures
        encode_lemmas(lemmas).len() == 32 * lemmas.len(),
        forall|i: int|
            0 <= i < lemmas.len() ==> encode_lemmas(lemmas).subrange(32 * i, 32 * i + 32)
                == #[trigger] lemmas[i],
    decreases lemmas.len(),
{
    if lemmas.len() > 0 {
        let front = lemmas.drop_last();
        assert(all_hashes(front)) by {
            assert forall|i: int| 0 <= i < front.len() implies (#[trigger] front[i]).len()
                == 32 by {
                assert(front[i] == lemmas[i]);
            }
        }
        lemma_encode_lemmas(front);
        let whole = encode_lemmas(lemmas);
        assert(lemmas.last() == lemmas[lemmas.len() - 1]);
        assert forall|i: int| 0 <= i < lemmas.len() implies whole.subrange(32 * i, 32 * i + 32)
            == #[trigger] lemmas[i] by {
            if i < front.len() {
                assert(front[i] == lemmas[i]);
                assert(whole.subrange(32 * i, 32 * i + 32) =~= encode_lemmas(front).subrange(
                    32 * i,
                    32 * i + 32,
                ));
            } else {
                assert(whole.subrange(32 * i, 32 * i + 32) =~= lemmas.last());
            }
        }
    }
}

/// Decoding what was serialized gives back the header selector, the indices
/// and the lemmas, with nothing left over.
pub proof fn lemma_decode_serialized(header_index: u32, indices: Seq<u32>, lemmas: Seq<Seq<u8>>)
    requires
        indices.len() <= u32::MAX,
        lemmas.len() <= u32::MAX,
        all_hashes(lemmas),
    ensures
        is_complete(serialize(header_index, indices, lemmas)),
        decoded_header_index(serialize(header_index, indices, lemmas)) == header_index,
        decoded_indices(serialize(header_index, indices, lemmas)) == indices,
        decoded_lemmas(serialize(header_index, indices, lemmas)) == lemmas,
        unparsed(serialize(header_index, indices, lemmas)) == Seq::<u8>::empty(),
{
    vstd::bytes::lemma_auto_spec_u32_to_from_le_bytes();
    lemma_encode_indices(indices);
    lemma_encode_lemmas(lemmas);
    let s = serialize(header_index, indices, lemmas);
    let n = indices.len() as int;
    let m = lemmas.len() as int;
    let a = spec_u32_to_le_bytes(header_index);
    let b = spec_u32_to_le_bytes(indices.len() as u32);
    let c = encode_indices(indices);
    let d = spec_u32_to_le_bytes(lemmas.len() as u32);
    let e = encode_lemmas(lemmas);
    assert(s.len() == 12 + 4 * n + 32 * m);
    assert(s.subrange(0, 4) =~= a);
    assert(s.subrange(4, 8) =~= b);
    assert(declared_indices(s) == n);
    assert(s.subrange(8 + 4 * n, 12 + 4 * n) =~= d);
    assert(declared_lemmas(s) == m);
    assert forall|i: int| 0 <= i < n implies #[trigger] index_at(s, i) == indices[i] by {
        assert(s.subrange(8 + 4 * i, 8 + 4 * i + 4) =~= c.subrange(4 * i, 4 * i + 4));
    }
    assert forall|i: int| 0 <= i < m implies #[trigger] lemma_at(s, i) == lemmas[i] by {
        assert(s.subrange(12 + 4 * n + 32 * i, 12 + 4 * n + 32 * i + 32) =~= e.subrange(
            32 * i,
            32 * i + 32,
        ));
    }
    assert(decoded_indices(s) =~= indices);
    assert(decoded_lemmas(s) =~= lemmas);
    assert(unparsed(s) =~= Seq::<u8>::empty());
}

/// A serialized proof cut short by at least one byte does not decode to a
/// complete proof.
pub proof fn lemma_truncated_serialized(
    header_index: u32,
    indices: Seq<u32>,
    lemmas: Seq<Seq<u8>>,
    k: int,
)
    requires
        indices.len() <= u32::MAX,
        lemmas.len() <= u32::MAX,
        all_hashes(lemmas),
        0 <= k < serialize(header_index, indices, lemmas).len(),
    ensures
        decoded_state(serialize(header_index, indices, lemmas).take(k)) != ReadState::Completed,
{
    lemma_decode_serialized(header_index, indices, lemmas);
    lemma_truncated_incomplete(serialize(header_index, indices, lemmas), k);
}

/// A stream that is exactly one complete proof is the serialization of what
/// it decodes to, and of nothing else: the format has one spelling for each
/// proof.
pub proof fn lemma_complete_is_serialized(s: Seq<u8>)
    requires
        is_complete(s),
    ensures
        s == serialize(decoded_header_index(s), decoded_indices(s), decoded_lemmas(s)),
        all_hashes(decoded_lemmas(s)),
{
    vstd::bytes::lemma_auto_spec_u32_to_from_le_bytes();
    let n = declared_indices(s);
    let m = declared_lemmas(s);
    let indices = decoded_indices(s);
    let lemmas = decoded_lemmas(s);
    assert(all_hashes(lemmas));
    lemma_encode_indices(indices);
    lemma_encode_lemmas(lemmas);
    let a = spec_u32_to_le_bytes(decoded_header_index(s));
    let b = spec_u32_to_le_bytes(indices.len() as u32);
    let c = encode_indices(indices);
    let d = spec_u32_to_le_bytes(lemmas.len() as u32);
    let e = encode_lemmas(lemmas);
    assert(a == s.subrange(0, 4));
    assert(b == s.subrange(4, 8));
    assert(d == s.subrange(8 + 4 * n, 12 + 4 * n));
    assert forall|j: int| 0 <= j < 4 * n implies c[j] == s[8 + j] by {
        let i = j / 4;
        assert(c.subrange(4 * i, 4 * i + 4) == spec_u32_to_le_bytes(indices[i]));
        assert(indices[i] == index_at(s, i));
        assert(spec_u32_to_le_bytes(index_at(s, i)) == s.subrange(8 + 4 * i, 8 + 4 * i + 4));
        assert(c.subrange(4 * i, 4 * i + 4)[j - 4 * i] == c[j]);
        assert(s.subrange(8 + 4 * i, 8 + 4 * i + 4)[j - 4 * i] == s[8 + j]);
    }
    assert forall|j: int| 0 <= j < 32 * m implies e[j] == s[12 + 4 * n + j] by {
        let i = j / 32;
        assert(e.subrange(32 * i, 32 * i + 32) == lemmas[i]);
        assert(lemmas[i] == lemma_at(s, i));
        assert(e.subrange(32 * i, 32 * i + 32)[j - 32 * i] == e[j]);
        assert(s.subrange(12 + 4 * n + 32 * i, 12 + 4 * n + 32 * i + 32)[j - 32 * i] == s[12 + 4 * n
            + j]);
    }
    assert(s =~= a + b + c + d + e);
}

} // verus!
