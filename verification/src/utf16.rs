//! UTF-16 surrogate pairing: packing a scalar above 0xFFFF into a high/low
//! surrogate pair and recombining such a pair into the scalar.

use vstd::prelude::*;

use crate::utf8::is_scalar;

verus! {

/// A 16-bit unit in the high (leading) surrogate range.
pub open spec fn is_high_surrogate(u: u16) -> bool {
    0xD800 <= u <= 0xDBFF
}

/// A 16-bit unit in the low (trailing) surrogate range.
pub open spec fn is_low_surrogate(u: u16) -> bool {
    0xDC00 <= u <= 0xDFFF
}

/// Offset of a supplementary-plane scalar above 0x10000.
pub open spec fn surr_off(c: u32) -> u32 {
    (c - 0x10000) as u32
}

/// High surrogate of a scalar in 0x10000..=0x10FFFF: 0xD800 plus the upper
/// ten bits of the offset.
pub open spec fn high_surrogate(c: u32) -> u16 {
    (0xD800 + surr_off(c) / 0x400) as u16
}

/// Low surrogate of a scalar in 0x10000..=0x10FFFF: 0xDC00 plus the lower
/// ten bits of the offset.
pub open spec fn low_surrogate(c: u32) -> u16 {
    (0xDC00 + surr_off(c) % 0x400) as u16
}

/// The scalar encoded by a high/low surrogate pair.
pub open spec fn combine_surrogates(hi: u16, lo: u16) -> u32 {
    (0x10000 + (hi - 0xD800) * 0x400 + (lo - 0xDC00)) as u32
}

/// Splitting a supplementary-plane scalar into a surrogate pair and
/// recombining the pair gives the scalar back, and the two halves always lie
/// in their respective surrogate ranges.
pub proof fn lemma_surrogate_round_trip(c: u32)
    requires
        0x10000 <= c <= 0x10FFFF,
    ensures
        is_high_surrogate(high_surrogate(c)),
        is_low_surrogate(low_surrogate(c)),
        combine_surrogates(high_surrogate(c), low_surrogate(c)) == c,
{
    let off = surr_off(c);
    assert(off == c - 0x10000);
    assert(off <= 0xFFFFF);
    assert(off / 0x400 <= 0x3FF && off % 0x400 <= 0x3FF && off == 0x400 * (off / 0x400) + off
        % 0x400) by (nonlinear_arith)
        requires
            off <= 0xFFFFFu32,
    ;
}

/// Split a scalar above 0xFFFF into its high and low surrogate.
pub fn utf16_split(c32: u32) -> (r: (u16, u16))
    requires
        0x10000 <= c32 <= 0x10FFFF,
    ensures
        r.0 == high_surrogate(c32),
        r.1 == low_surrogate(c32),
        is_high_surrogate(r.0),
        is_low_surrogate(r.1),
{
    proof {
        lemma_surrogate_round_trip(c32);
    }
    let off32: u32 = c32 - 0x10000;
    let hi: u16 = 0xD800 + ((off32 / 0x400) as u16);
    let lo: u16 = 0xDC00 + ((off32 % 0x400) as u16);
    (hi, lo)
}

/// Recombine a high and a low surrogate into the scalar they encode.
pub fn utf16_combine(hi: u16, lo: u16) -> (r: u32)
    requires
        is_high_surrogate(hi),
        is_low_surrogate(lo),
    ensures
        r == combine_surrogates(hi, lo),
        0x10000 <= r <= 0x10FFFF,
        is_scalar(r),
{
    0x10000 + ((hi - 0xD800) as u32) * 0x400 + ((lo - 0xDC00) as u32)
}

} // verus!
