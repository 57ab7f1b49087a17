use vstd::prelude::*;
use crate::error::Error;

verus! {

/// The byte lengths a field may declare.
pub open spec fn valid_byte_length(n: int) -> bool {
    n == 1 || n == 2 || n == 4 || n == 8
}

/// The offset that a segment of valid length encodes: one byte as it is,
/// two and eight bytes little-endian, four bytes big-endian.
pub open spec fn offset_value(s: Seq<u8>) -> int {
    if s.len() == 1 {
        s[0] as int
    } else if s.len() == 2 {
        s[0] + 0x100 * s[1]
    } else if s.len() == 4 {
        0x1000000 * s[0] + 0x10000 * s[1] + 0x100 * s[2] + s[3]
    } else {
        s[0] + 0x100 * s[1] + 0x10000 * s[2] + 0x1000000 * s[3] + 0x100000000 * s[4]
            + 0x10000000000 * s[5] + 0x1000000000000 * s[6] + 0x100000000000000 * s[7]
    }
}

pub open spec fn offset_spec(s: Seq<u8>) -> Result<u64, Error> {
    if valid_byte_length(s.len() as int) {
        Ok(offset_value(s) as u64)
    } else {
        Err(Error::InvalidDNAByteLengthSchema)
    }
}

/// Reads the offset held by a DNA segment.
pub fn resolve_offset(s: &[u8]) -> (r: Result<u64, Error>)
    ensures
        r == offset_spec(s@),
        r is Ok ==> r->Ok_0 as int == offset_value(s@),
{
    let n = s.len();
    if n == 1 {
        Ok(s[0] as u64)
    } else if n == 2 {
        Ok(s[0] as u64 + 0x100 * (s[1] as u64))
    } else if n == 4 {
        Ok(0x1000000 * (s[0] as u64) + 0x10000 * (s[1] as u64) + 0x100 * (s[2] as u64)
            + s[3] as u64)
    } else if n == 8 {
        Ok(s[0] as u64 + 0x100 * (s[1] as u64) + 0x10000 * (s[2] as u64) + 0x1000000 * (
        s[3] as u64) + 0x100000000 * (s[4] as u64) + 0x10000000000 * (s[5] as u64)
            + 0x1000000000000 * (s[6] as u64) + 0x100000000000000 * (s[7] as u64))
    } else {
        Err(Error::InvalidDNAByteLengthSchema)
    }
}

} // verus!
