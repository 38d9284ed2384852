//! The geometry of one packed row.
//!
//! A row of `width` pixels takes `width * step` bits. Filler bits complete its
//! last byte, and filler bytes bring the row to a multiple of four bytes.

use crate::bit_depth::BitDepth;
use vstd::prelude::*;

verus! {

/// Bits of pixel data in one row: `width * step`.
pub open spec fn spec_bits_per_row(width: int, depth: BitDepth) -> int {
    width * depth.step()
}

/// Filler bits after the last pixel of a row, which complete its last byte:
/// `(8 - bits_per_row mod 8) mod 8`.
pub open spec fn spec_bit_padding(width: int, depth: BitDepth) -> int {
    (8 - spec_bits_per_row(width, depth) % 8) % 8
}

/// Bytes of a row that hold pixel data: `(bits_per_row + bit_padding) / 8`.
pub open spec fn spec_byte_width(width: int, depth: BitDepth) -> int {
    (spec_bits_per_row(width, depth) + spec_bit_padding(width, depth)) / 8
}

/// Filler bytes after the pixel bytes of a row: `(4 - byte_width mod 4) mod 4`.
pub open spec fn spec_byte_padding(width: int, depth: BitDepth) -> int {
    (4 - spec_byte_width(width, depth) % 4) % 4
}

/// Total length of a packed row in bytes: pixel bytes and filler bytes.
pub open spec fn spec_row_stride(width: int, depth: BitDepth) -> int {
    spec_byte_width(width, depth) + spec_byte_padding(width, depth)
}

/// The bits of a row, without the multiplication: one, four or eight times
/// the width.
pub proof fn lemma_bits_per_row(width: int, depth: BitDepth)
    ensures
        depth == BitDepth::Color2Bit ==> spec_bits_per_row(width, depth) == width,
        depth == BitDepth::Color16Bit ==> spec_bits_per_row(width, depth) == 4 * width,
        depth == BitDepth::Color256Bit ==> spec_bits_per_row(width, depth) == 8 * width,
        spec_bits_per_row(width, depth) * depth.pixels_per_byte() == 8 * width,
{
    let step = depth.step();
    assert(width * step * depth.pixels_per_byte() == 8 * width) by (nonlinear_arith)
        requires
            step * depth.pixels_per_byte() == 8,
    ;
}

/// The pixel bytes of a row are exactly enough to hold its pixels: they hold
/// them all, and the last of them holds at least one.
pub proof fn lemma_byte_width_bounds(width: int, depth: BitDepth)
    requires
        0 <= width,
    ensures
        0 <= spec_bit_padding(width, depth) < 8,
        spec_byte_width(width, depth) * 8 == spec_bits_per_row(width, depth) + spec_bit_padding(
            width,
            depth,
        ),
        0 <= spec_byte_width(width, depth) <= width,
        width <= spec_byte_width(width, depth) * depth.pixels_per_byte(),
        spec_byte_width(width, depth) * depth.pixels_per_byte() < width + depth.pixels_per_byte(),
        width > 0 ==> spec_byte_width(width, depth) > 0,
{
    lemma_bits_per_row(width, depth);
}

/// Every packed row is a multiple of four bytes long, and no more than three
/// bytes longer than its pixel bytes.
pub proof fn lemma_row_stride_multiple_of_four(width: int, depth: BitDepth)
    requires
        0 <= width,
    ensures
        spec_row_stride(width, depth) % 4 == 0,
        0 <= spec_byte_padding(width, depth) < 4,
        spec_byte_width(width, depth) <= spec_row_stride(width, depth) < spec_byte_width(
            width,
            depth,
        ) + 4,
{
    lemma_byte_width_bounds(width, depth);
}

/// Bits of pixel data in one row.
pub fn bits_per_row(width: u32, depth: BitDepth) -> (bits: u64)
    ensures
        bits == spec_bits_per_row(width as int, depth),
{
    proof {
        lemma_bits_per_row(width as int, depth);
    }
    match depth {
        BitDepth::Color2Bit => width as u64,
        BitDepth::Color16Bit => 4 * (width as u64),
        BitDepth::Color256Bit => 8 * (width as u64),
    }
}

/// Filler bits that complete the last pixel byte of a row.
pub fn bit_padding(width: u32, depth: BitDepth) -> (bits: u32)
    ensures
        bits == spec_bit_padding(width as int, depth),
        bits < 8,
{
    let used: u64 = bits_per_row(width, depth) % 8;
    ((8 - used) % 8) as u32
}

/// Bytes of a row that hold pixel data.
pub fn byte_width(width: u32, depth: BitDepth) -> (bytes: u32)
    ensures
        bytes == spec_byte_width(width as int, depth),
{
    proof {
        lemma_byte_width_bounds(width as int, depth);
    }
    let bits: u64 = bits_per_row(width, depth);
    let filler: u64 = bit_padding(width, depth) as u64;
    ((bits + filler) / 8) as u32
}

/// Filler bytes that bring a row to a multiple of four bytes.
pub fn byte_padding(width: u32, depth: BitDepth) -> (bytes: u32)
    ensures
        bytes == spec_byte_padding(width as int, depth),
        bytes < 4,
{
    let used: u32 = byte_width(width, depth) % 4;
    (4 - used) % 4
}

/// Total length of a packed row in bytes.
pub fn row_stride(width: u32, depth: BitDepth) -> (bytes: u64)
    ensures
        bytes == spec_row_stride(width as int, depth),
        bytes % 4 == 0,
{
    proof {
        lemma_row_stride_multiple_of_four(width as int, depth);
    }
    byte_width(width, depth) as u64 + byte_padding(width, depth) as u64
}

} // verus!
