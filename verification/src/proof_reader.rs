//! A resumable decoder that turns a chunked byte stream into a proof.

use crate::buffer::{FixedBuffer, FIXED_BUF_SIZE};
use crate::hash::{hashes_view, Data};
use crate::wire::{
    decoded_header_index, decoded_indices, decoded_lemmas, decoded_state, declared_indices,
    declared_lemmas, has_trailing, hash_at, index_at, is_complete, lemma_at, lemma_complete_prefix,
    lemma_trailing_persists, lemmas_offset, proof_len, u32_at, unparsed, ReadState,
};
use vstd::bytes::u32_from_le_bytes;
use vstd::prelude::*;
use vstd::slice::slice_subrange;

verus! {

/// What `process` returns when bytes follow a complete proof.
pub const ERROR_CODE_PROOF_READER: i32 = -71;

/// A decoded proof: the positions of the proven leaves in the tree, and the
/// sibling hashes needed on the way to the root.
#[derive(Debug)]
pub struct Proof {
    pub indices: Vec<u32>,
    pub lemmas: Vec<Data>,
}

/// The decoder. Its view is the whole stream it has been given so far; what
/// it has decoded is a function of that stream alone.
pub struct ProofVisitor {
    state: ReadState,
    total: usize,
    buffer: FixedBuffer,
    header_index: u32,
    indices: Vec<u32>,
    lemmas: Vec<Data>,
    fed: Ghost<Seq<u8>>,
}

impl View for ProofVisitor {
    type V = Seq<u8>;

    closed spec fn view(&self) -> Seq<u8> {
        self.fed@
    }
}

/// The fields of a decoder describe a parse of the first `s.len() -
/// pending.len()` bytes of `s`, and `pending` is the rest of `s`.
spec fn fields_match(
    state: ReadState,
    total: usize,
    header_index: u32,
    indices: Seq<u32>,
    lemmas: Seq<Seq<u8>>,
    pending: Seq<u8>,
    s: Seq<u8>,
) -> bool {
    let pos = s.len() - pending.len();
    &&& pos >= 0
    &&& pending =~= s.skip(pos)
    &&& header_index == (if state == ReadState::HeaderIndex {
        u32::MAX
    } else {
        u32_at(s, 0)
    })
    &&& indices =~= Seq::new(indices.len(), |i: int| index_at(s, i))
    &&& lemmas =~= Seq::new(lemmas.len(), |i: int| lemma_at(s, i))
    &&& match state {
        ReadState::HeaderIndex => pos == 0 && indices.len() == 0 && lemmas.len() == 0,
        ReadState::IndicesLength => pos == 4 && indices.len() == 0 && lemmas.len() == 0,
        ReadState::Indices => {
            &&& pos == 8 + 4 * indices.len()
            &&& total == declared_indices(s)
            &&& indices.len() <= total
            &&& lemmas.len() == 0
        },
        ReadState::LemmasLength => {
            &&& pos == lemmas_offset(s)
            &&& indices.len() == declared_indices(s)
            &&& lemmas.len() == 0
        },
        ReadState::Lemmas => {
            &&& pos == lemmas_offset(s) + 4 + 32 * lemmas.len()
            &&& indices.len() == declared_indices(s)
            &&& total == declared_lemmas(s)
            &&& lemmas.len() <= total
        },
        ReadState::Completed => {
            &&& pos == proof_len(s)
            &&& indices.len() == declared_indices(s)
            &&& lemmas.len() == declared_lemmas(s)
        },
    }
}

/// No transition is possible without more bytes.
spec fn fields_settled(
    state: ReadState,
    total: usize,
    indices: Seq<u32>,
    lemmas: Seq<Seq<u8>>,
    pending: Seq<u8>,
) -> bool {
    match state {
        ReadState::HeaderIndex | ReadState::IndicesLength | ReadState::LemmasLength => pending.len()
            < 4,
        ReadState::Indices => indices.len() < total && pending.len() < 4,
        ReadState::Lemmas => lemmas.len() < total && pending.len() < 32,
        ReadState::Completed => true,
    }
}

/// Fields that match a stream and are settled are the ones that the format
/// assigns to that stream.
proof fn lemma_settled_is_decoded(
    state: ReadState,
    total: usize,
    header_index: u32,
    indices: Seq<u32>,
    lemmas: Seq<Seq<u8>>,
    pending: Seq<u8>,
    s: Seq<u8>,
)
    requires
        fields_match(state, total, header_index, indices, lemmas, pending, s),
        fields_settled(state, total, indices, lemmas, pending),
    ensures
        state == decoded_state(s),
        header_index == decoded_header_index(s),
        indices == decoded_indices(s),
        lemmas == decoded_lemmas(s),
        pending == unparsed(s),
{
    assert(indices =~= decoded_indices(s));
    assert(lemmas =~= decoded_lemmas(s));
    assert(pending =~= unparsed(s));
}

/// Bytes appended to a stream change nothing of what the fields already
/// describe: they only lengthen what is pending.
proof fn lemma_match_extends(
    state: ReadState,
    total: usize,
    header_index: u32,
    indices: Seq<u32>,
    lemmas: Seq<Seq<u8>>,
    pending: Seq<u8>,
    s: Seq<u8>,
    more: Seq<u8>,
)
    requires
        fields_match(state, total, header_index, indices, lemmas, pending, s),
    ensures
        fields_match(state, total, header_index, indices, lemmas, pending + more, s + more),
{
    let t = s + more;
    let pos = s.len() - pending.len();
    assert forall|off: int| 0 <= off && off + 4 <= s.len() implies #[trigger] u32_at(t, off)
        == u32_at(s, off) by {
        assert(t.subrange(off, off + 4) =~= s.subrange(off, off + 4));
    }
    assert forall|off: int| 0 <= off && off + 32 <= s.len() implies #[trigger] hash_at(t, off)
        == hash_at(s, off) by {
        assert(t.subrange(off, off + 32) =~= s.subrange(off, off + 32));
    }
    assert((pending + more) =~= t.skip(pos));
    if state != ReadState::HeaderIndex && state != ReadState::IndicesLength {
        assert(u32_at(t, 4) == u32_at(s, 4));
        assert(lemmas_offset(t) == lemmas_offset(s));
    }
    if state == ReadState::Lemmas || state == ReadState::Completed {
        assert(u32_at(t, lemmas_offset(s)) == u32_at(s, lemmas_offset(s)));
    }
    assert forall|i: int| 0 <= i < indices.len() implies #[trigger] index_at(t, i) == index_at(
        s,
        i,
    ) by {}
    assert forall|i: int| 0 <= i < lemmas.len() implies #[trigger] lemma_at(t, i) == lemma_at(
        s,
        i,
    ) by {}
    assert(indices =~= Seq::new(indices.len(), |i: int| index_at(t, i)));
    assert(lemmas =~= Seq::new(lemmas.len(), |i: int| lemma_at(t, i)));
}

/// How many bytes of `chunk` a decoder takes in that has been given `stream`
/// before. It takes them a window-full at a time, and stops behind the
/// first window-full with which the proof is complete; otherwise it takes
/// them all.
#[verifier::opaque]
pub open spec fn taken_in(stream: Seq<u8>, chunk: Seq<u8>) -> int
    decreases chunk.len(),
{
    let room = FIXED_BUF_SIZE - unparsed(stream).len();
    let step = if room >= chunk.len() {
        chunk.len() as int
    } else if room > 0 {
        room
    } else {
        0
    };
    if step <= 0 || step >= chunk.len() || decoded_state(stream + chunk.take(step))
        == ReadState::Completed {
        step
    } else {
        step + taken_in(stream + chunk.take(step), chunk.skip(step))
    }
}

/// One window-full of `taken_in`: the decoder stops behind it when it was
/// the last of the chunk or completed the proof, and goes on otherwise.
proof fn lemma_taken_step(stream: Seq<u8>, chunk: Seq<u8>, step: int)
    requires
        unparsed(stream).len() <= FIXED_BUF_SIZE,
        step == vstd::math::min(FIXED_BUF_SIZE - unparsed(stream).len(), chunk.len() as int),
    ensures
        step >= chunk.len() || decoded_state(stream + chunk.take(step)) == ReadState::Completed
            ==> taken_in(stream, chunk) == step,
        0 < step < chunk.len() && decoded_state(stream + chunk.take(step)) != ReadState::Completed
            ==> taken_in(stream, chunk) == step + taken_in(
            stream + chunk.take(step),
            chunk.skip(step),
        ),
{
    reveal(taken_in);
}

impl Default for ProofVisitor {
    fn default() -> (r: Self)
        ensures
            r.wf(),
            r@ == Seq::<u8>::empty(),
    {
        let r = ProofVisitor {
            state: ReadState::HeaderIndex,
            total: 0,
            buffer: FixedBuffer::default(),
            header_index: u32::MAX,
            indices: Vec::new(),
            lemmas: Vec::new(),
            fed: Ghost(Seq::empty()),
        };
        proof {
            assert(hashes_view(r.lemmas@) =~= Seq::<Seq<u8>>::empty());
        }
        r
    }
}

impl ProofVisitor {
    /// The fields describe a parse of a prefix of the stream, and the window
    /// holds the rest of it.
    pub closed spec fn coherent(&self) -> bool {
        &&& self.buffer.wf()
        &&& fields_match(
            self.state,
            self.total,
            self.header_index,
            self.indices@,
            hashes_view(self.lemmas@),
            self.buffer@,
            self.fed@,
        )
    }

    /// Every transition that the received bytes allow has been taken.
    pub closed spec fn settled(&self) -> bool {
        fields_settled(
            self.state,
            self.total,
            self.indices@,
            hashes_view(self.lemmas@),
            self.buffer@,
        )
    }

    /// The state in which a decoder rests between two calls.
    pub open spec fn wf(&self) -> bool {
        self.coherent() && self.settled()
    }

    /// How far the decoder is from the end: the unread bytes first, then the
    /// states still ahead.
    closed spec fn states_ahead(&self) -> int {
        match self.state {
            ReadState::HeaderIndex => 5,
            ReadState::IndicesLength => 4,
            ReadState::Indices => 3,
            ReadState::LemmasLength => 2,
            ReadState::Lemmas => 1,
            ReadState::Completed => 0,
        }
    }

    /// A decoder at rest holds exactly what the format assigns to its stream.
    proof fn lemma_decoded(&self)
        requires
            self.wf(),
        ensures
            self.decodes(),
    {
        lemma_settled_is_decoded(
            self.state,
            self.total,
            self.header_index,
            self.indices@,
            hashes_view(self.lemmas@),
            self.buffer@,
            self.fed@,
        );
    }

    /// The fields are those that the format assigns to the stream.
    spec fn decodes(&self) -> bool {
        &&& self.state == decoded_state(self@)
        &&& self.header_index == decoded_header_index(self@)
        &&& self.indices@ == decoded_indices(self@)
        &&& hashes_view(self.lemmas@) == decoded_lemmas(self@)
        &&& self.buffer@ == unparsed(self@)
    }

    /// Takes every transition that the bytes in the window allow. The stream
    /// stays as it is; afterwards the decoder is at rest.
    pub fn process_internal_data(&mut self) -> (ret: i32)
        requires
            old(self).coherent(),
        ensures
            final(self).wf(),
            final(self)@ == old(self)@,
            ret == 0,
    {
        loop
            invariant_except_break
                self.coherent(),
                self.fed@ == old(self).fed@,
            ensures
                self.wf(),
                self.fed@ == old(self).fed@,
            decreases self.buffer@.len(), self.states_ahead(),
        {
            let mut changed = false;
            let ghost s = self.fed@;
            let ghost pending = self.buffer@;
            let ghost pos = s.len() - pending.len();
            let data = self.buffer.data();
            match self.state {
                ReadState::HeaderIndex => {
                    if data.len() >= 4 {
                        let value = u32_from_le_bytes(slice_subrange(data, 0, 4));
                        proof {
                            assert(data@.subrange(0, 4) =~= s.subrange(0, 4));
                        }
                        self.buffer.consume(4);
                        self.header_index = value;
                        self.state = ReadState::IndicesLength;
                        changed = true;
                        proof {
                            assert(self.buffer@ =~= s.skip(4));
                        }
                    }
                },
                ReadState::IndicesLength => {
                    if data.len() >= 4 {
                        let value = u32_from_le_bytes(slice_subrange(data, 0, 4));
                        proof {
                            assert(data@.subrange(0, 4) =~= s.subrange(4, 8));
                        }
                        self.buffer.consume(4);
                        self.total = value as usize;
                        self.indices = Vec::new();
                        self.state = ReadState::Indices;
                        changed = true;
                        proof {
                            assert(self.buffer@ =~= s.skip(8));
                        }
                    }
                },
                ReadState::Indices => {
                    if self.indices.len() >= self.total {
                        self.state = ReadState::LemmasLength;
                        changed = true;
                    } else if data.len() >= 4 {
                        let value = u32_from_le_bytes(slice_subrange(data, 0, 4));
                        let ghost k = self.indices@.len() as int;
                        proof {
                            assert(data@.subrange(0, 4) =~= s.subrange(8 + 4 * k, 8 + 4 * k + 4));
                            assert(value == index_at(s, k));
                        }
                        self.buffer.consume(4);
                        self.indices.push(value);
                        changed = true;
                        proof {
                            assert(self.buffer@ =~= s.skip(pos + 4));
                        }
                    }
                },
                ReadState::LemmasLength => {
                    if data.len() >= 4 {
                        let value = u32_from_le_bytes(slice_subrange(data, 0, 4));
                        proof {
                            assert(data@.subrange(0, 4) =~= s.subrange(pos, pos + 4));
                        }
                        self.buffer.consume(4);
                        self.total = value as usize;
                        self.lemmas = Vec::new();
                        self.state = ReadState::Lemmas;
                        changed = true;
                        proof {
                            assert(self.buffer@ =~= s.skip(pos + 4));
                            assert(hashes_view(self.lemmas@) =~= Seq::<Seq<u8>>::empty());
                        }
                    }
                },
                ReadState::Lemmas => {
                    if self.lemmas.len() >= self.total {
                        self.state = ReadState::Completed;
                        changed = true;
                    } else if data.len() >= 32 {
                        let ghost before = hashes_view(self.lemmas@);
                        let ghost k = self.lemmas@.len() as int;
                        let lemma = Data::from_slice(slice_subrange(data, 0, 32));
                        proof {
                            assert(data@.subrange(0, 32) =~= s.subrange(pos, pos + 32));
                            assert(lemma@ == lemma_at(s, k));
                        }
                        self.lemmas.push(lemma);
                        self.buffer.consume(32);
                        changed = true;
                        proof {
                            assert(self.buffer@ =~= s.skip(pos + 32));
                            assert(hashes_view(self.lemmas@) =~= before.push(lemma@));
                        }
                    }
                },
                ReadState::Completed => {
                    break ;
                },
            }
            if !changed {
                break ;
            }
        }
        0
    }

    /// Takes one more chunk of the stream and decodes as far as it reaches.
    ///
    /// The chunk is refused exactly when bytes follow a complete proof. When
    /// it is accepted the stream has grown by the chunk; when it is refused
    /// the decoder has stopped behind the window-full that completed the
    /// proof.
    pub fn process(&mut self, data: &[u8]) -> (ret: i32)
        requires
            old(self).wf(),
        ensures
            final(self).wf(),
            ret == 0 || ret == ERROR_CODE_PROOF_READER,
            (ret == 0) <==> !has_trailing(old(self)@ + data@),
            final(self)@ == old(self)@ + data@.take(taken_in(old(self)@, data@)),
            ret == 0 ==> final(self)@ == old(self)@ + data@,
            ret != 0 ==> decoded_state(final(self)@) == ReadState::Completed,
    {
        let ghost start = self@;
        let mut consumed: usize = 0;
        proof {
            assert(data@.subrange(0, 0) =~= Seq::<u8>::empty());
            assert(start + Seq::<u8>::empty() =~= start);
            assert(data@.skip(0) =~= data@);
        }
        loop
            invariant_except_break
                self.wf(),
                consumed <= data@.len(),
                self@ == start + data@.subrange(0, consumed as int),
                taken_in(start, data@) == consumed + taken_in(self@, data@.skip(consumed as int)),
            invariant
                start == old(self)@,
            ensures
                self.wf(),
                self@ == start + data@,
                taken_in(start, data@) == data@.len(),
                !has_trailing(self@),
            decreases data@.len() - consumed,
        {
            let ghost head = self@;
            let ghost head_pending = self.buffer@;
            let ghost rest = data@.skip(consumed as int);
            let ghost before = consumed;
            proof {
                self.lemma_decoded();
                self.buffer.lemma_bounded();
                assert(data@.subrange(consumed as int, data@.len() as int) =~= rest);
            }
            let taken = self.buffer.fill(slice_subrange(data, consumed, data.len()));
            let ghost more = data@.subrange(consumed as int, consumed + taken);
            proof {
                assert(rest.take(taken as int) =~= more);
                assert(rest.skip(taken as int) =~= data@.skip(consumed + taken));
                lemma_taken_step(head, rest, taken as int);
                assert(data@.subrange(consumed as int, data@.len() as int).subrange(0, taken as int)
                    =~= more);
                lemma_match_extends(
                    self.state,
                    self.total,
                    self.header_index,
                    self.indices@,
                    hashes_view(self.lemmas@),
                    head_pending,
                    head,
                    more,
                );
                assert(data@.subrange(0, consumed as int) + more =~= data@.subrange(
                    0,
                    consumed + taken,
                ));
                assert(head + more =~= start + data@.subrange(0, consumed + taken));
            }
            self.fed = Ghost(head + more);
            consumed += taken;
            let ret = self.process_internal_data();
            if ret != 0 {
                return ret;
            }
            proof {
                self.lemma_decoded();
                if taken == 0 {
                    assert(more =~= Seq::<u8>::empty());
                    assert(head + more =~= head);
                }
            }
            let complete = match self.state {
                ReadState::Completed => true,
                _ => false,
            };
            if complete && (self.buffer.data().len() > 0 || consumed < data.len()) {
                proof {
                    let whole = start + data@;
                    let part = self@;
                    assert(part =~= whole.subrange(0, part.len() as int));
                    assert(start =~= part.subrange(0, start.len() as int));
                    assert(part.is_prefix_of(whole));
                    assert(start.is_prefix_of(part));
                    lemma_complete_prefix(part, whole);
                    assert(part.len() >= proof_len(part));
                    if self.buffer@.len() > 0 {
                        assert(part.len() > proof_len(part));
                    }
                    assert(has_trailing(whole));
                    assert(data@.take(consumed as int) =~= data@.subrange(0, consumed as int));
                }
                return ERROR_CODE_PROOF_READER;
            }
            if consumed >= data.len() {
                proof {
                    assert(data@.subrange(0, consumed as int) =~= data@);
                }
                break ;
            }
        }
        proof {
            assert(data@.take(data@.len() as int) =~= data@);
        }
        0
    }

    /// Ends the decoding: the header selector and the proof, if the stream
    /// held all of a proof.
    pub fn build(self) -> (r: Option<(u32, Proof)>)
        requires
            self.wf(),
        ensures
            r.is_some() <==> decoded_state(self@) == ReadState::Completed,
            r matches Some(p) ==> {
                &&& p.0 == decoded_header_index(self@)
                &&& p.1.indices@ == decoded_indices(self@)
                &&& hashes_view(p.1.lemmas@) == decoded_lemmas(self@)
            },
    {
        proof {
            self.lemma_decoded();
        }
        match self.state {
            ReadState::Completed => Some(
                (self.header_index, Proof { indices: self.indices, lemmas: self.lemmas }),
            ),
            _ => None,
        }
    }
}

/// Decodes a proof that is held in memory, handing it to a decoder
/// `chunk_len` bytes at a time. The result depends on the bytes alone, not
/// on how they are cut: a proof comes out exactly when the bytes are one
/// complete proof, and it is the one that the format assigns to them.
pub fn decode_proof(bytes: &[u8], chunk_len: usize) -> (r: Option<(u32, Proof)>)
    requires
        chunk_len > 0,
    ensures
        r.is_some() <==> is_complete(bytes@),
        r matches Some(p) ==> {
            &&& p.0 == decoded_header_index(bytes@)
            &&& p.1.indices@ == decoded_indices(bytes@)
            &&& hashes_view(p.1.lemmas@) == decoded_lemmas(bytes@)
        },
{
    let mut visitor = ProofVisitor::default();
    let mut at: usize = 0;
    proof {
        assert(bytes@.subrange(0, 0) =~= Seq::<u8>::empty());
    }
    while at < bytes.len()
        invariant
            chunk_len > 0,
            visitor.wf(),
            at <= bytes@.len(),
            visitor@ == bytes@.subrange(0, at as int),
            !has_trailing(visitor@),
        decreases bytes@.len() - at,
    {
        let end = if bytes.len() - at < chunk_len {
            bytes.len()
        } else {
            at + chunk_len
        };
        let ghost before = visitor@;
        let ret = visitor.process(slice_subrange(bytes, at, end));
        proof {
            assert(before + bytes@.subrange(at as int, end as int) =~= bytes@.subrange(
                0,
                end as int,
            ));
        }
        if ret != 0 {
            proof {
                let part = bytes@.subrange(0, end as int);
                assert(part.is_prefix_of(bytes@));
                lemma_trailing_persists(part, bytes@);
            }
            return None;
        }
        at = end;
    }
    proof {
        assert(bytes@.subrange(0, at as int) =~= bytes@);
    }
    visitor.build()
}

} // verus!
