//! Validation of content-identifier byte strings through the `cid` crate.
//!
//! The boundary receives state-root and manifest references as raw bytes;
//! whether such bytes hold a well-formed content identifier is decided by
//! the outside parser, so the library only names its verdict.

use vstd::prelude::*;

verus! {

/// Whether the byte string holds a well-formed content identifier, as the
/// outside parser decides it; the verdict is a function of the bytes alone.
pub uninterp spec fn cid_parse_ok(bytes: Seq<u8>) -> bool;

/// Relies on `cid::Cid::try_from` on a byte slice (through
/// `Cid::read_bytes`): it parses a content identifier from the bytes and
/// its verdict depends on the bytes alone.
#[verifier::external_body]
pub(crate) fn cid_bytes_valid(bytes: &Vec<u8>) -> (r: bool)
    ensures
        r == cid_parse_ok(bytes@),
{
    cid::Cid::try_from(bytes.as_slice()).is_ok()
}

} // verus!
