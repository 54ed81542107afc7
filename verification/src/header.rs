//! The expected root: 32 bytes at a fixed offset of a header's extension.

use crate::error::{AccessError, VerifyError};
use crate::hash::Data;
use vstd::prelude::*;

verus! {

/// Where the root stands in the extension of the header.
pub const ROOT_OFFSET: usize = 128;

/// The root that an extension holds: the 32 bytes from offset 128 on, if the
/// extension is there and reaches that far.
pub open spec fn extension_root(extension: Option<Seq<u8>>) -> Option<Seq<u8>> {
    match extension {
        Some(bytes) => if bytes.len() >= ROOT_OFFSET + 32 {
            Some(bytes.subrange(ROOT_OFFSET as int, ROOT_OFFSET + 32))
        } else {
            None
        },
        None => None,
    }
}

/// Looks the root up in an extension that is held in memory. An extension
/// that is absent, or too short to hold all of the root, is a failed lookup:
/// it is never read as a root of zeros.
pub fn root_in_extension(extension: Option<&[u8]>) -> (r: Result<Data, VerifyError>)
    ensures
        match r {
            Ok(root) => match extension {
                Some(bytes) => extension_root(Some(bytes@)) == Some(root@),
                None => false,
            },
            Err(e) => e == VerifyError::LookupFailure && match extension {
                Some(bytes) => extension_root(Some(bytes@)) is None,
                None => true,
            },
        },
{
    match extension {
        Some(bytes) => {
            if bytes.len() >= ROOT_OFFSET + 32 {
                Ok(Data::from_slice(vstd::slice::slice_subrange(bytes, ROOT_OFFSET, ROOT_OFFSET + 32)))
            } else {
                Err(VerifyError::LookupFailure)
            }
        },
        None => Err(VerifyError::LookupFailure),
    }
}

/// Reads the accessor's answer to "32 bytes at offset 128 of the extension
/// of this header", given with the buffer that the read was made into.
///
/// The buffer holds the root when the read gave exactly 32 bytes, or filled
/// the buffer because the extension goes on behind the root. A shorter
/// read, a header without extension and a missing header are failed
/// lookups. Any other answer is a failure of the accessor.
pub fn expected_root(buf: &[u8; 32], answer: &Result<usize, AccessError>) -> (r: Result<
    Data,
    VerifyError,
>)
    ensures
        match *answer {
            Ok(n) => if n == 32 {
                r matches Ok(root) && root@ == buf@
            } else {
                r == Err::<Data, VerifyError>(VerifyError::LookupFailure)
            },
            Err(AccessError::LengthNotEnough(available)) => if available > 32 {
                r matches Ok(root) && root@ == buf@
            } else {
                r == Err::<Data, VerifyError>(VerifyError::LookupFailure)
            },
            Err(AccessError::ItemMissing) | Err(AccessError::IndexOutOfBound) => r == Err::<
                Data,
                VerifyError,
            >(VerifyError::LookupFailure),
            Err(AccessError::Other) => r == Err::<Data, VerifyError>(
                VerifyError::AccessorFailure,
            ),
        },
{
    match answer {
        Ok(n) => {
            if *n == 32 {
                Ok(Data::new(*buf))
            } else {
                Err(VerifyError::LookupFailure)
            }
        },
        Err(AccessError::LengthNotEnough(available)) => {
            if *available > 32 {
                Ok(Data::new(*buf))
            } else {
                Err(VerifyError::LookupFailure)
            }
        },
        Err(AccessError::ItemMissing) => Err(VerifyError::LookupFailure),
        Err(AccessError::IndexOutOfBound) => Err(VerifyError::LookupFailure),
        Err(AccessError::Other) => Err(VerifyError::AccessorFailure),
    }
}

} // verus!
