//! Why a verification is refused, and the status code that says so.

use vstd::prelude::*;

verus! {

/// The reasons for which a transaction is refused. Each ends the
/// verification; none is recovered from.
#[derive(Clone, Copy, Debug, PartialEq, Eq, Hash, Structural)]
pub enum VerifyError {
    /// Not exactly one input, or not exactly one output, carries this lock.
    ShapeViolation,
    /// The witness or the proof in it is malformed, cut short, or followed
    /// by more bytes.
    ParseError,
    /// The header has no extension, or none that reaches over the root.
    LookupFailure,
    /// The proof does not lead from the leaf to the expected root.
    ProofMismatch,
    /// The source of the transaction's bytes failed.
    AccessorFailure,
}

/// What the accessor of the chain state answers when it cannot hand out what
/// it was asked for.
#[derive(Clone, Copy, Debug, PartialEq, Eq, Hash, Structural)]
pub enum AccessError {
    /// There is no item at the index.
    IndexOutOfBound,
    /// The item is there, the field asked for is not.
    ItemMissing,
    /// The buffer was filled, and the data goes on: this many bytes were
    /// there to read from the offset.
    LengthNotEnough(usize),
    /// Anything else.
    Other,
}

/// The status code of a refusal.
pub open spec fn status_code_spec(e: VerifyError) -> i8 {
    match e {
        VerifyError::ShapeViolation => -61i8,
        VerifyError::ParseError => -62i8,
        VerifyError::LookupFailure => -63i8,
        VerifyError::ProofMismatch => -64i8,
        VerifyError::AccessorFailure => -65i8,
    }
}

/// The code that stands for an outcome: zero when the transaction passes.
pub open spec fn exit_code_spec(verdict: Result<(), VerifyError>) -> i8 {
    match verdict {
        Ok(()) => 0i8,
        Err(e) => status_code_spec(e),
    }
}

impl VerifyError {
    pub fn status_code(&self) -> (code: i8)
        ensures
            code == status_code_spec(*self),
    {
        match self {
            VerifyError::ShapeViolation => -61,
            VerifyError::ParseError => -62,
            VerifyError::LookupFailure => -63,
            VerifyError::ProofMismatch => -64,
            VerifyError::AccessorFailure => -65,
        }
    }
}

/// The one number that a verification hands to its caller.
pub fn exit_code(verdict: &Result<(), VerifyError>) -> (code: i8)
    ensures
        code == exit_code_spec(*verdict),
{
    match verdict {
        Ok(()) => 0,
        Err(e) => e.status_code(),
    }
}

/// Every refusal has a negative status code, and two different reasons
/// never share one.
pub proof fn lemma_status_codes_distinct(a: VerifyError, b: VerifyError)
    ensures
        status_code_spec(a) < 0,
        a != b ==> status_code_spec(a) != status_code_spec(b),
        exit_code_spec(Err(a)) != exit_code_spec(Ok(())),
{
}

} // verus!
