//! A fixed-capacity staging window over a chunked byte stream.

use vstd::prelude::*;

verus! {

/// Capacity of the staging window, in bytes.
pub const FIXED_BUF_SIZE: usize = 4096;

/// A window of at most `FIXED_BUF_SIZE` unread bytes. The view is the unread
/// bytes, oldest first.
#[derive(PartialEq, Eq, Hash, Debug)]
pub struct FixedBuffer {
    data: [u8; 4096],
    valid_start: usize,
    valid_end: usize,
}

impl View for FixedBuffer {
    type V = Seq<u8>;

    closed spec fn view(&self) -> Seq<u8> {
        self.data@.subrange(self.valid_start as int, self.valid_end as int)
    }
}

impl Clone for FixedBuffer {
    fn clone(&self) -> (r: Self)
        ensures
            r == *self,
    {
        FixedBuffer { data: self.data, valid_start: self.valid_start, valid_end: self.valid_end }
    }
}

impl Default for FixedBuffer {
    fn default() -> (r: Self)
        ensures
            r.wf(),
            r@ == Seq::<u8>::empty(),
    {
        let r = FixedBuffer { data: [0u8; 4096], valid_start: 0, valid_end: 0 };
        proof {
            assert(r@ =~= Seq::<u8>::empty());
        }
        r
    }
}

impl FixedBuffer {
    /// The read cursor does not pass the write cursor, and neither passes the
    /// capacity.
    pub closed spec fn wf(&self) -> bool {
        self.valid_start <= self.valid_end <= FIXED_BUF_SIZE
    }

    /// A well-formed window never holds more than its capacity.
    pub proof fn lemma_bounded(&self)
        requires
            self.wf(),
        ensures
            self@.len() <= FIXED_BUF_SIZE,
    {
    }

    /// Moves the unread bytes to the front, then appends as much of `data` as
    /// fits. Returns how many bytes of `data` were taken: the caller offers
    /// the rest again.
    pub fn fill(&mut self, data: &[u8]) -> (consumed: usize)
        requires
            old(self).wf(),
        ensures
            final(self).wf(),
            consumed as int == vstd::math::min(FIXED_BUF_SIZE - old(self)@.len(), data@.len() as int),
            final(self)@ == old(self)@ + data@.subrange(0, consumed as int),
    {
        let ghost before = self@;
        if self.valid_start > 0 {
            let new_end = self.valid_end - self.valid_start;
            let start = self.valid_start;
            let mut i: usize = 0;
            while i < new_end
                invariant
                    i <= new_end,
                    start > 0,
                    start + new_end <= FIXED_BUF_SIZE,
                    self.valid_start == start,
                    self.valid_end == start + new_end,
                    before.len() == new_end,
                    forall|j: int| 0 <= j < i ==> self.data@[j] == before[j],
                    forall|j: int| i <= j < new_end ==> self.data@[start + j] == before[j],
                decreases new_end - i,
            {
                self.data[i] = self.data[i + start];
                i += 1;
            }
            self.valid_start = 0;
            self.valid_end = new_end;
            proof {
                assert(self@ =~= before);
            }
        }
        let room = FIXED_BUF_SIZE - self.valid_end;
        let consumed = if room < data.len() { room } else { data.len() };
        let end = self.valid_end;
        let mut k: usize = 0;
        while k < consumed
            invariant
                k <= consumed,
                consumed <= data@.len(),
                end + consumed <= FIXED_BUF_SIZE,
                self.valid_start <= end,
                self.valid_end == end,
                before.len() == end - self.valid_start,
                forall|j: int| 0 <= j < before.len() ==> self.data@[self.valid_start + j] == before[j],
                forall|j: int| 0 <= j < k ==> self.data@[end + j] == data@[j],
            decreases consumed - k,
        {
            self.data[end + k] = data[k];
            k += 1;
        }
        self.valid_end = end + consumed;
        proof {
            assert(self@ =~= before + data@.subrange(0, consumed as int));
        }
        consumed
    }

    /// The unread bytes.
    pub fn data(&self) -> (r: &[u8])
        requires
            self.wf(),
        ensures
            r@ == self@,
    {
        vstd::slice::slice_subrange(self.data.as_slice(), self.valid_start, self.valid_end)
    }

    /// Discards the first `len` unread bytes.
    pub fn consume(&mut self, len: usize)
        requires
            old(self).wf(),
            len <= old(self)@.len(),
        ensures
            final(self).wf(),
            final(self)@ == old(self)@.skip(len as int),
    {
        self.valid_start += len;
        proof {
            assert(self@ =~= old(self)@.skip(len as int));
        }
    }
}

} // verus!
