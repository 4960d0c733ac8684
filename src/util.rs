//! Utility functions: byte decoding and length padding.
use vstd::prelude::*;

verus! {

/// The little-endian value of four bytes.
pub open spec fn le_u32(b0: u8, b1: u8, b2: u8, b3: u8) -> int {
    b0 as int + 256 * (b1 as int) + 65536 * (b2 as int) + 16777216 * (b3 as int)
}

/// Copies a four-byte slice into a `u32`, least significant byte first.
pub fn bytes_to_u32(bytes: &[u8]) -> (r: u32)
    requires
        bytes@.len() == 4,
    ensures
        r as int == le_u32(bytes@[0], bytes@[1], bytes@[2], bytes@[3]),
{
    let b0 = bytes[0];
    let b1 = bytes[1];
    let b2 = bytes[2];
    let b3 = bytes[3];
    let r = b0 as u32 | ((b1 as u32) << 8) | ((b2 as u32) << 16) | ((b3 as u32) << 24);
    assert(r == (b0 as u32) + (b1 as u32) * 256 + (b2 as u32) * 65536 + (b3 as u32) * 16777216)
        by (bit_vector)
        requires
            r == b0 as u32 | ((b1 as u32) << 8) | ((b2 as u32) << 16) | ((b3 as u32) << 24),
    ;
    r
}

/// Whether `len` rounded up to a multiple of `incr` fits in a `usize`.
pub open spec fn padding_fits(len: usize, incr: usize) -> bool {
    len % incr == 0 || len + (incr - len % incr) <= usize::MAX
}

/// Pads `len` to make it evenly divisible by `incr`: the result is the least
/// multiple of `incr` that is not below `len`.
pub fn padded_len(len: usize, incr: usize) -> (r: usize)
    requires
        incr > 0,
        padding_fits(len, incr),
    ensures
        r % incr == 0,
        len <= r,
        r < len + incr,
{
    let len_mod = len % incr;
    if len_mod == 0 {
        len
    } else {
        let pad = incr - len_mod;
        let padded = len + pad;
        assert(padded % incr == 0) by (nonlinear_arith)
            requires
                incr > 0,
                len_mod == len % incr,
                padded == len + (incr - len_mod),
        ;
        padded
    }
}

} // verus!
