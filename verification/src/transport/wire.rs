//! Little-endian words as the transports read and write them.

use vstd::prelude::*;
use vstd::bytes::spec_u32_from_le_bytes;

use crate::buffer::DequeBuffer;

verus! {

/// The signed reading of a 32-bit wire word: negative lengths carry
/// server-reported status codes.
pub open spec fn as_signed(u: u32) -> i32 {
    if u < 0x80000000 {
        u as i32
    } else {
        ((u as int) - 0x100000000) as i32
    }
}

/// Reinterprets a wire word as a signed value.
pub fn to_signed(u: u32) -> (r: i32)
    ensures
        r == as_signed(u),
{
    if u < 0x80000000 {
        u as i32
    } else {
        ((u as i64) - 0x100000000i64) as i32
    }
}

/// Reads the little-endian 32-bit word starting at `at`.
pub fn read_u32_le(buffer: &DequeBuffer, at: usize) -> (r: u32)
    requires
        at + 4 <= buffer@.len(),
    ensures
        r == spec_u32_from_le_bytes(buffer@.subrange(at as int, at as int + 4)),
{
    let n = buffer.len();
    let bytes = buffer.subvec(at, at + 4);
    vstd::bytes::u32_from_le_bytes(bytes.as_slice())
}

} // verus!
