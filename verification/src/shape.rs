//! The shape that a transaction must have before any hashing is done:
//! exactly one input and exactly one output under this lock.

use crate::error::{AccessError, VerifyError};
use crate::hash::{hashes_view, Data};
use vstd::prelude::*;

verus! {

/// The cell at `index` carries the lock `own`, and no other cell does.
pub open spec fn is_only_match(locks: Seq<Seq<u8>>, own: Seq<u8>, index: int) -> bool {
    &&& 0 <= index < locks.len()
    &&& locks[index] == own
    &&& forall|j: int| 0 <= j < locks.len() && j != index ==> locks[j] != own
}

/// Some cell carries the lock `own`.
pub open spec fn has_match(locks: Seq<Seq<u8>>, own: Seq<u8>) -> bool {
    exists|j: int| 0 <= j < locks.len() && locks[j] == own
}

/// Two cells under one lock leave no cell that is the only one: wherever a
/// second one is added, the transaction is refused.
pub proof fn lemma_two_matches(locks: Seq<Seq<u8>>, own: Seq<u8>, first: int, second: int)
    requires
        0 <= first < locks.len(),
        0 <= second < locks.len(),
        first != second,
        locks[first] == own,
        locks[second] == own,
    ensures
        forall|i: int| !is_only_match(locks, own, i),
{
}

/// Where the one cell under the lock stands does not matter: among cells
/// that do not carry the lock, it is found at any position.
pub proof fn lemma_match_at_any_position(others: Seq<Seq<u8>>, own: Seq<u8>, at: int)
    requires
        0 <= at <= others.len(),
        !has_match(others, own),
    ensures
        is_only_match(others.insert(at, own), own, at),
{
    let locks = others.insert(at, own);
    assert forall|j: int| 0 <= j < locks.len() && j != at implies locks[j] != own by {
        if j < at {
            assert(locks[j] == others[j]);
        } else {
            assert(locks[j] == others[j - 1]);
        }
    }
}

/// Checks the inputs of the script group. The group holds the inputs under
/// this lock and no others, so there is exactly one of them when asking for
/// the second one is answered with "no such index", and with nothing else.
pub fn check_single_input(second: &Result<Data, AccessError>) -> (r: Result<(), VerifyError>)
    ensures
        r.is_ok() <==> *second == Err::<Data, AccessError>(AccessError::IndexOutOfBound),
        r.is_err() ==> r == Err::<(), VerifyError>(VerifyError::ShapeViolation),
{
    match second {
        Err(AccessError::IndexOutOfBound) => Ok(()),
        _ => Err(VerifyError::ShapeViolation),
    }
}

/// Finds the one output whose lock hash is `own`, among all outputs of the
/// transaction. With none, or with more than one, the shape is wrong.
pub fn find_single_output(locks: &[Data], own: &Data) -> (r: Result<usize, VerifyError>)
    ensures
        match r {
            Ok(index) => is_only_match(hashes_view(locks@), own@, index as int),
            Err(e) => e == VerifyError::ShapeViolation && forall|i: int|
                !is_only_match(hashes_view(locks@), own@, i),
        },
{
    let ghost all = hashes_view(locks@);
    let mut found: Option<usize> = None;
    let mut i: usize = 0;
    while i < locks.len()
        invariant
            i <= locks@.len(),
            all == hashes_view(locks@),
            match found {
                Some(f) => f < i && all[f as int] == own@ && forall|j: int|
                    0 <= j < i && j != f ==> all[j] != own@,
                None => forall|j: int| 0 <= j < i ==> all[j] != own@,
            },
        decreases locks@.len() - i,
    {
        if locks[i] == *own {
            match found {
                Some(f) => {
                    proof {
                        lemma_two_matches(all, own@, f as int, i as int);
                    }
                    return Err(VerifyError::ShapeViolation);
                },
                None => {
                    found = Some(i);
                },
            }
        }
        i += 1;
    }
    match found {
        Some(f) => Ok(f),
        None => Err(VerifyError::ShapeViolation),
    }
}

/// What to do after one answer of the accessor during the scan of the
/// outputs.
#[derive(Clone, Copy, Debug, PartialEq, Eq, Structural)]
pub enum ScanStep {
    /// Ask for the lock hash of the next output.
    Continue,
    /// The scan is over: this output is the one under the lock.
    Done(usize),
    /// The scan is over: the transaction is refused.
    Rejected(VerifyError),
}

/// The scan of the outputs, one answer of the accessor at a time: for a
/// transaction whose outputs cannot be had all at once.
pub struct OutputScan {
    own: Data,
    next: usize,
    found: Option<usize>,
    seen: Ghost<Seq<Seq<u8>>>,
}

impl OutputScan {
    /// The lock hashes that the scan has taken in so far, in order.
    pub closed spec fn seen(&self) -> Seq<Seq<u8>> {
        self.seen@
    }

    /// The lock hash that the scan looks for.
    pub closed spec fn own(&self) -> Seq<u8> {
        self.own@
    }

    /// The scan remembers the one match among what it has seen, if there is
    /// one, and has not seen two.
    pub closed spec fn wf(&self) -> bool {
        &&& self.next == self.seen@.len()
        &&& match self.found {
            Some(f) => is_only_match(self.seen@, self.own@, f as int),
            None => !has_match(self.seen@, self.own@),
        }
    }

    pub fn new(own: Data) -> (r: Self)
        ensures
            r.wf(),
            r.own() == own@,
            r.seen() == Seq::<Seq<u8>>::empty(),
    {
        OutputScan { own, next: 0, found: None, seen: Ghost(Seq::empty()) }
    }

    /// The index of the output to ask for next.
    pub fn next_index(&self) -> (r: usize)
        requires
            self.wf(),
        ensures
            r == self.seen().len(),
    {
        self.next
    }

    /// Takes the accessor's answer for the output at `next_index()`.
    ///
    /// A lock hash is taken in and the scan goes on, unless it is a second
    /// match, which ends the scan with a refusal. "No such index" ends the
    /// scan: with the one match if there is one, with a refusal if there is
    /// none. Any other answer is a failure of the accessor.
    pub fn visit(&mut self, answer: &Result<Data, AccessError>) -> (step: ScanStep)
        requires
            old(self).wf(),
        ensures
            final(self).wf(),
            final(self).own() == old(self).own(),
            match *answer {
                Ok(hash) => if hash@ == old(self).own() && has_match(
                    old(self).seen(),
                    old(self).own(),
                ) {
                    step == ScanStep::Rejected(VerifyError::ShapeViolation) && final(self).seen()
                        == old(self).seen()
                } else if old(self).seen().len() == usize::MAX {
                    step == ScanStep::Rejected(VerifyError::AccessorFailure) && final(self).seen()
                        == old(self).seen()
                } else {
                    step == ScanStep::Continue && final(self).seen() == old(self).seen().push(
                        hash@,
                    )
                },
                Err(AccessError::IndexOutOfBound) => {
                    &&& final(self).seen() == old(self).seen()
                    &&& match step {
                        ScanStep::Done(index) => is_only_match(
                            old(self).seen(),
                            old(self).own(),
                            index as int,
                        ),
                        ScanStep::Rejected(e) => e == VerifyError::ShapeViolation && forall|i: int|
                            !is_only_match(old(self).seen(), old(self).own(), i),
                        ScanStep::Continue => false,
                    }
                },
                Err(_) => {
                    &&& step == ScanStep::Rejected(VerifyError::AccessorFailure)
                    &&& final(self).seen() == old(self).seen()
                },
            },
    {
        match answer {
            Ok(hash) => {
                let matches = *hash == self.own;
                if matches && self.found.is_some() {
                    return ScanStep::Rejected(VerifyError::ShapeViolation);
                }
                if self.next == usize::MAX {
                    return ScanStep::Rejected(VerifyError::AccessorFailure);
                }
                let ghost before = self.seen@;
                proof {
                    let after = before.push(hash@);
                    if matches {
                        assert(is_only_match(after, self.own@, self.next as int)) by {
                            assert forall|j: int|
                                0 <= j < after.len() && j != self.next implies after[j]
                                != self.own@ by {
                                assert(after[j] == before[j]);
                            }
                        }
                    } else {
                        match self.found {
                            Some(f) => {
                                assert(is_only_match(after, self.own@, f as int)) by {
                                    assert forall|j: int|
                                        0 <= j < after.len() && j != f implies after[j]
                                        != self.own@ by {
                                        if j < before.len() {
                                            assert(after[j] == before[j]);
                                        }
                                    }
                                }
                            },
                            None => {
                                assert(!has_match(after, self.own@)) by {
                                    assert forall|j: int| 0 <= j < after.len() implies after[j]
                                        != self.own@ by {
                                        if j < before.len() {
                                            assert(after[j] == before[j]);
                                        }
                                    }
                                }
                            },
                        }
                    }
                }
                if matches {
                    self.found = Some(self.next);
                }
                self.seen = Ghost(before.push(hash@));
                self.next = self.next + 1;
                ScanStep::Continue
            },
            Err(AccessError::IndexOutOfBound) => {
                match self.found {
                    Some(f) => ScanStep::Done(f),
                    None => ScanStep::Rejected(VerifyError::ShapeViolation),
                }
            },
            Err(_) => ScanStep::Rejected(VerifyError::AccessorFailure),
        }
    }
}

} // verus!
