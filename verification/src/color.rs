//! Packed RGBA backgrounds.
//!
//! The wire carries a cell background as one 32-bit signed integer whose
//! little-endian bytes are the four channels.  The functions here move
//! between that packed form and the four channels without any loss.

use vstd::prelude::*;

verus! {

/// One background color, a byte per channel.
#[derive(Debug, Clone, Copy, PartialEq, Eq, Structural)]
pub struct Rgba {
    pub r: u8,
    pub g: u8,
    pub b: u8,
    pub a: u8,
}

/// The channels laid out little-endian as one unsigned 32-bit value.
pub open spec fn rgba_unsigned(c: Rgba) -> int {
    c.r + 256 * c.g + 65536 * c.b + 16777216 * c.a
}

/// The bit pattern of a packed `i32` background read as unsigned.
pub open spec fn packed_unsigned(n: int) -> int {
    if n < 0 { n + 0x1_0000_0000 } else { n }
}

impl Rgba {
    /// Fully transparent black, the background of a fresh cell.
    pub fn transparent() -> (c: Rgba)
        ensures
            c == (Rgba { r: 0, g: 0, b: 0, a: 0 }),
    {
        Rgba { r: 0, g: 0, b: 0, a: 0 }
    }
}

/// Packs four channels into the signed wire form.
pub fn pack_rgba(c: Rgba) -> (n: i32)
    ensures
        packed_unsigned(n as int) == rgba_unsigned(c),
{
    let u: i64 = c.r as i64 + 256 * (c.g as i64) + 65536 * (c.b as i64) + 16777216 * (c.a as i64);
    if u >= 0x8000_0000 {
        (u - 0x1_0000_0000) as i32
    } else {
        u as i32
    }
}

/// Unpacks the signed wire form into its four channels.
pub fn unpack_rgba(n: i32) -> (c: Rgba)
    ensures
        rgba_unsigned(c) == packed_unsigned(n as int),
{
    let u: i64 = if n < 0 { n as i64 + 0x1_0000_0000 } else { n as i64 };
    let r = (u % 256) as u8;
    let g = ((u / 256) % 256) as u8;
    let b = ((u / 65536) % 256) as u8;
    let a = (u / 16777216) as u8;
    proof {
        lemma_le_bytes(u as int);
    }
    Rgba { r, g, b, a }
}

/// Little-endian byte decomposition of a 32-bit value recombines to the
/// value itself.
proof fn lemma_le_bytes(u: int)
    requires
        0 <= u < 0x1_0000_0000,
    ensures
        u % 256 + 256 * ((u / 256) % 256) + 65536 * ((u / 65536) % 256) + 16777216 * (u / 16777216)
            == u,
        0 <= u / 16777216 < 256,
{
    assert(u % 256 + 256 * ((u / 256) % 256) + 65536 * ((u / 65536) % 256)
        + 16777216 * (u / 16777216) == u) by (nonlinear_arith)
        requires
            0 <= u < 0x1_0000_0000,
    ;
}

/// Packing inverts unpacking and unpacking inverts packing.
pub proof fn lemma_pack_unpack_inverse(c: Rgba, n: int)
    requires
        -0x8000_0000 <= n < 0x8000_0000,
    ensures
        rgba_unsigned(c) == packed_unsigned(n) ==> (
            packed_unsigned(n) % 256 == c.r
            && (packed_unsigned(n) / 256) % 256 == c.g
            && (packed_unsigned(n) / 65536) % 256 == c.b
            && packed_unsigned(n) / 16777216 == c.a
        ),
{
    if rgba_unsigned(c) == packed_unsigned(n) {
        assert((c.r + 256 * c.g + 65536 * c.b + 16777216 * c.a) % 256 == c.r
            && ((c.r + 256 * c.g + 65536 * c.b + 16777216 * c.a) / 256) % 256 == c.g
            && ((c.r + 256 * c.g + 65536 * c.b + 16777216 * c.a) / 65536) % 256 == c.b
            && (c.r + 256 * c.g + 65536 * c.b + 16777216 * c.a) / 16777216 == c.a)
            by (nonlinear_arith)
            requires
                c.r < 256 && c.g < 256 && c.b < 256 && c.a < 256,
        ;
    }
}

} // verus!
