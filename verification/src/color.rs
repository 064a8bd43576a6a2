//! Color arithmetic.
//!
//! The pipeline standardizes on limited-range BT.601 (luma in 16 to 235,
//! chroma in 16 to 240), because that is what UVC cameras emit and what H.264
//! decoders assume by default. RGB is converted with the BT.601 matrix straight
//! into limited range; full-range JPEG samples are range-compressed.
use vstd::prelude::*;

verus! {

/// BT.601 limited-range luma of a full-range RGB color.
pub open spec fn luma601(r: int, g: int, b: int) -> int {
    (66 * r + 129 * g + 25 * b + 128) / 256 + 16
}

/// BT.601 limited-range blue-difference chroma of a full-range RGB color.
pub open spec fn cb601(r: int, g: int, b: int) -> int {
    (112 * b - 38 * r - 74 * g + 128) / 256 + 128
}

/// BT.601 limited-range red-difference chroma of a full-range RGB color.
pub open spec fn cr601(r: int, g: int, b: int) -> int {
    (112 * r - 94 * g - 18 * b + 128) / 256 + 128
}

/// A full-range luma sample scaled into limited range.
pub open spec fn limited_luma(y: int) -> int {
    16 + (y * 219 + 127) / 255
}

/// A full-range chroma sample scaled into limited range.
pub open spec fn limited_chroma(c: int) -> int {
    16 + (c * 224 + 127) / 255
}

/// Whether `y` is a limited-range luma value.
pub open spec fn luma_in_range(y: int) -> bool {
    16 <= y <= 235
}

/// Whether `c` is a limited-range chroma value.
pub open spec fn chroma_in_range(c: int) -> bool {
    16 <= c <= 240
}

/// BT.601 limited-range luma from full-range RGB (integer approximation).
pub fn rgb_to_y(r: u16, g: u16, b: u16) -> (y: u8)
    requires
        r <= 255,
        g <= 255,
        b <= 255,
    ensures
        y as int == luma601(r as int, g as int, b as int),
{
    let weighted: u16 = 66 * r + 129 * g + 25 * b + 128;
    assert(weighted >> 8 == weighted / 256) by (bit_vector);
    ((weighted >> 8) + 16) as u8
}

/// BT.601 limited-range Cb from full-range RGB.
pub fn rgb_to_u(r: i32, g: i32, b: i32) -> (u: u8)
    requires
        0 <= r <= 255,
        0 <= g <= 255,
        0 <= b <= 255,
    ensures
        u as int == cb601(r as int, g as int, b as int),
{
    let weighted: i32 = 112 * b - 38 * r - 74 * g + 128;
    let shifted: i32 = weighted >> 8;
    assert(256 * shifted <= weighted < 256 * shifted + 256) by (bit_vector)
        requires
            shifted == weighted >> 8,
            -0x10000 <= weighted < 0x10000,
    ;
    (shifted + 128) as u8
}

/// BT.601 limited-range Cr from full-range RGB.
pub fn rgb_to_v(r: i32, g: i32, b: i32) -> (v: u8)
    requires
        0 <= r <= 255,
        0 <= g <= 255,
        0 <= b <= 255,
    ensures
        v as int == cr601(r as int, g as int, b as int),
{
    let weighted: i32 = 112 * r - 94 * g - 18 * b + 128;
    let shifted: i32 = weighted >> 8;
    assert(256 * shifted <= weighted < 256 * shifted + 256) by (bit_vector)
        requires
            shifted == weighted >> 8,
            -0x10000 <= weighted < 0x10000,
    ;
    (shifted + 128) as u8
}

/// Compresses a full-range (JFIF) luma sample to limited range.
pub fn full_to_limited_y(y: u8) -> (r: u8)
    ensures
        r as int == limited_luma(y as int),
{
    (16 + (y as u32 * 219 + 127) / 255) as u8
}

/// Compresses a full-range (JFIF) chroma sample to limited range.
pub fn full_to_limited_c(c: u8) -> (r: u8)
    ensures
        r as int == limited_chroma(c as int),
{
    (16 + (c as u32 * 224 + 127) / 255) as u8
}

/// Every RGB color lands inside the limited ranges.
pub proof fn law_rgb_is_limited_range(r: int, g: int, b: int)
    requires
        0 <= r <= 255,
        0 <= g <= 255,
        0 <= b <= 255,
    ensures
        luma_in_range(luma601(r, g, b)),
        chroma_in_range(cb601(r, g, b)),
        chroma_in_range(cr601(r, g, b)),
        16 <= luma601(r, g, b) <= 235,
        16 <= cb601(r, g, b) <= 240,
        16 <= cr601(r, g, b) <= 240,
{
}

/// Every component is the BT.601 combination of red, green and blue, in 256ths,
/// to the nearest: luma above its floor of 16, chroma about its center of 128.
pub proof fn law_bt601_is_rounded_to_nearest(r: int, g: int, b: int)
    ensures
        -128 <= 66 * r + 129 * g + 25 * b - 256 * (luma601(r, g, b) - 16) < 128,
        -128 <= 112 * b - 74 * g - 38 * r - 256 * (cb601(r, g, b) - 128) < 128,
        -128 <= 112 * r - 94 * g - 18 * b - 256 * (cr601(r, g, b) - 128) < 128,
{
}

/// Every full-range sample lands inside the limited ranges.
pub proof fn law_full_range_is_compressed(s: int)
    requires
        0 <= s <= 255,
    ensures
        luma_in_range(limited_luma(s)),
        chroma_in_range(limited_chroma(s)),
        16 <= limited_luma(s) <= 235,
        16 <= limited_chroma(s) <= 240,
{
}

/// Range compression scales 0 to 255 onto 16 to 235 for luma and 16 to 240 for
/// chroma, to the nearest.
pub proof fn law_compression_is_rounded_to_nearest(s: int)
    ensures
        -127 <= 255 * (limited_luma(s) - 16) - 219 * s <= 127,
        -127 <= 255 * (limited_chroma(s) - 16) - 224 * s <= 127,
        limited_luma(0) == 16,
        limited_luma(255) == 235,
        limited_chroma(0) == 16,
        limited_chroma(128) == 128,
        limited_chroma(255) == 240,
{
}

/// Range compression keeps the order of samples.
pub proof fn law_compression_is_monotone(a: int, b: int)
    requires
        0 <= a <= b <= 255,
    ensures
        limited_luma(a) <= limited_luma(b),
        limited_chroma(a) <= limited_chroma(b),
{
}

/// The limited ranges are 16 to 235 for luma and 16 to 240 for chroma.
pub proof fn law_limited_ranges(s: int)
    ensures
        luma_in_range(s) <==> 16 <= s <= 235,
        chroma_in_range(s) <==> 16 <= s <= 240,
{
}

/// A gray has neutral chroma, whatever its level.
pub proof fn law_gray_is_neutral(level: int)
    requires
        0 <= level <= 255,
    ensures
        cb601(level, level, level) == 128,
        cr601(level, level, level) == 128,
{
}

} // verus!
