//! Packed 32-bit ARGB pixels.
use vstd::prelude::*;

verus! {

/// The word that holds four 8-bit channels: alpha in the highest byte, then
/// red, green, and blue in the lowest.
pub open spec fn packed_argb(a: u8, r: u8, g: u8, b: u8) -> int {
    a * 0x100_0000 + r * 0x1_0000 + g * 0x100 + b
}

/// The four channels of a packed word, alpha first.
pub open spec fn channels_of(packed: u32) -> (u8, u8, u8, u8) {
    (
        (packed / 0x100_0000) as u8,
        (packed / 0x1_0000 % 0x100) as u8,
        (packed / 0x100 % 0x100) as u8,
        (packed % 0x100) as u8,
    )
}

/// Packs four channels into one word.
pub fn argb_to_u32(a: u8, r: u8, g: u8, b: u8) -> (packed: u32)
    ensures
        packed == packed_argb(a, r, g, b),
        channels_of(packed) == (a, r, g, b),
{
    let (wa, wr, wg, wb) = (a as u32, r as u32, g as u32, b as u32);
    assert((wa << 24) | (wr << 16) | (wg << 8) | wb == wa * 0x100_0000 + wr * 0x1_0000 + wg * 0x100
        + wb) by (bit_vector)
        requires
            wa < 0x100,
            wr < 0x100,
            wg < 0x100,
            wb < 0x100,
    ;
    proof {
        lemma_channels_of_packed(a, r, g, b);
    }
    (wa << 24) | (wr << 16) | (wg << 8) | wb
}

/// Splits a packed word into its four channels, alpha first.
pub fn u32_to_argb(packed: u32) -> (channels: (u8, u8, u8, u8))
    ensures
        channels == channels_of(packed),
        packed_argb(channels.0, channels.1, channels.2, channels.3) == packed,
{
    assert((0xFF00_0000u32 & packed) >> 24 == packed / 0x100_0000) by (bit_vector);
    assert((0x00FF_0000u32 & packed) >> 16 == packed / 0x1_0000 % 0x100) by (bit_vector);
    assert((0x0000_FF00u32 & packed) >> 8 == packed / 0x100 % 0x100) by (bit_vector);
    assert(0x0000_00FFu32 & packed == packed % 0x100) by (bit_vector);
    assert(packed / 0x100_0000 < 0x100) by (bit_vector);
    proof {
        lemma_packed_channels(packed);
    }
    let a = ((0xFF00_0000u32 & packed) >> 24) as u8;
    let r = ((0x00FF_0000u32 & packed) >> 16) as u8;
    let g = ((0x0000_FF00u32 & packed) >> 8) as u8;
    let b = (0x0000_00FFu32 & packed) as u8;
    (a, r, g, b)
}

/// Unpacking a packed word gives back the channels it was packed from.
pub proof fn lemma_channels_of_packed(a: u8, r: u8, g: u8, b: u8)
    ensures
        0 <= packed_argb(a, r, g, b) <= u32::MAX,
        channels_of(packed_argb(a, r, g, b) as u32) == (a, r, g, b),
{
    let (wa, wr, wg, wb) = (a as u32, r as u32, g as u32, b as u32);
    let p: u32 = (wa << 24) | (wr << 16) | (wg << 8) | wb;
    assert(p == wa * 0x100_0000 + wr * 0x1_0000 + wg * 0x100 + wb && p / 0x100_0000 == wa && p
        / 0x1_0000 % 0x100 == wr && p / 0x100 % 0x100 == wg && p % 0x100 == wb) by (bit_vector)
        requires
            p == (wa << 24) | (wr << 16) | (wg << 8) | wb,
            wa < 0x100,
            wr < 0x100,
            wg < 0x100,
            wb < 0x100,
    ;
}

/// Packing the channels of a word gives back the word.
pub proof fn lemma_packed_channels(packed: u32)
    ensures
        ({
            let c = channels_of(packed);
            packed_argb(c.0, c.1, c.2, c.3) == packed
        }),
{
    let wa: u32 = packed / 0x100_0000;
    let wr: u32 = packed / 0x1_0000 % 0x100;
    let wg: u32 = packed / 0x100 % 0x100;
    let wb: u32 = packed % 0x100;
    assert(wa < 0x100 && wr < 0x100 && wg < 0x100 && wb < 0x100 && packed == wa * 0x100_0000 + wr
        * 0x1_0000 + wg * 0x100 + wb) by (bit_vector)
        requires
            wa == packed / 0x100_0000,
            wr == packed / 0x1_0000 % 0x100,
            wg == packed / 0x100 % 0x100,
            wb == packed % 0x100,
    ;
}

} // verus!
