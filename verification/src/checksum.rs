//! Checksum used by the journal framing.
use vstd::prelude::*;

verus! {

/// The 32-bit cyclic redundancy check of a byte sequence. The reader and
/// the writer agree on this name; its value on given bytes is whatever the
/// checksum routine computes.
pub uninterp spec fn crc32_of(bytes: Seq<u8>) -> u32;

/// Relies on `crc32fast::hash`: the checksum is a function of the bytes
/// alone.
#[verifier::external_body]
pub(crate) fn crc32(bytes: &Vec<u8>) -> (r: u32)
    ensures
        r == crc32_of(bytes@),
{
    crc32fast::hash(bytes.as_slice())
}

} // verus!
