//! The bit packer: from palette indices to the padded byte stream.
//!
//! Pixels are taken in row-major order. Within a row, each group of
//! `pixels_per_byte` consecutive indices forms one byte, the first index in
//! the most significant bits. A last group that the row does not fill is
//! completed with zero bits, and the row is then completed with zero bytes to
//! a multiple of four bytes. No byte holds pixels of two rows.

use crate::bit_depth::BitDepth;
use crate::row_layout::{
    bit_padding, byte_padding, lemma_bits_per_row, lemma_byte_width_bounds,
    lemma_row_stride_multiple_of_four, spec_bit_padding, spec_bits_per_row, spec_byte_padding,
    spec_byte_width, spec_row_stride,
};
use vstd::arithmetic::div_mod::lemma_fundamental_div_mod_converse;
use vstd::arithmetic::power2::{
    lemma2_to64, lemma_pow2_adds, lemma_pow2_strictly_increases, pow2,
};
use vstd::bits::lemma_u32_shl_is_mul;
use vstd::prelude::*;

verus! {

/// The palette index at column `col` of row `row`, and zero for a column
/// beyond the row's last pixel.
pub open spec fn cell(indices: Seq<u8>, width: int, row: int, col: int) -> int {
    if 0 <= col < width {
        indices[row * width + col] as int
    } else {
        0
    }
}

/// The number that the first `taken` cells of a group spell, read as digits
/// of `step` bits each, the first cell being the most significant. Group
/// `group` of a row starts at column `group * pixels_per_byte`.
pub open spec fn group_value(
    indices: Seq<u8>,
    width: int,
    depth: BitDepth,
    row: int,
    group: int,
    taken: nat,
) -> int
    decreases taken,
{
    if taken == 0 {
        0
    } else {
        group_value(indices, width, depth, row, group, (taken - 1) as nat) * depth.max_colors()
            + cell(indices, width, row, group * depth.pixels_per_byte() + taken - 1)
    }
}

/// The byte at position `at` of the packed stream: a full group of the row
/// that the position falls in, or zero where it falls in the row's filler
/// bytes.
pub open spec fn packed_byte(indices: Seq<u8>, width: int, depth: BitDepth, at: int) -> int {
    let stride = spec_row_stride(width, depth);
    let row = at / stride;
    let group = at % stride;
    if group < spec_byte_width(width, depth) {
        group_value(indices, width, depth, row, group, depth.pixels_per_byte() as nat)
    } else {
        0
    }
}

/// The packed stream of an image of `width` by `height` pixels, given as
/// palette indices in row-major order: `height` rows of `row_stride` bytes.
pub open spec fn packed_bytes(indices: Seq<u8>, width: int, height: int, depth: BitDepth) -> Seq<
    u8,
> {
    Seq::new(
        (spec_row_stride(width, depth) * height) as nat,
        |at: int| packed_byte(indices, width, depth, at) as u8,
    )
}

/// Every index of the image can be written in `step` bits.
pub open spec fn indices_fit(indices: Seq<u8>, depth: BitDepth) -> bool {
    forall|i: int| 0 <= i < indices.len() ==> indices[i] < depth.max_colors()
}

/// A colour count of `2^step`.
pub proof fn lemma_max_colors_is_pow2(depth: BitDepth)
    ensures
        depth.max_colors() == pow2(depth.step() as nat),
        depth.step() * depth.pixels_per_byte() == 8,
{
    lemma2_to64();
}

/// The cells of a row of the image are indices that fit the depth.
pub proof fn lemma_cell_fits(indices: Seq<u8>, width: int, depth: BitDepth, row: int, col: int)
    requires
        indices_fit(indices, depth),
        0 <= width,
        0 <= row,
        (row + 1) * width <= indices.len(),
    ensures
        0 <= cell(indices, width, row, col) < depth.max_colors(),
{
    if 0 <= col < width {
        assert(0 <= row * width + col < indices.len()) by (nonlinear_arith)
            requires
                0 <= col < width,
                0 <= row,
                (row + 1) * width <= indices.len(),
        ;
    }
}

/// `taken` digits of `step` bits spell a number below `2^(step * taken)`.
pub proof fn lemma_group_value_bound(
    indices: Seq<u8>,
    width: int,
    depth: BitDepth,
    row: int,
    group: int,
    taken: nat,
)
    requires
        indices_fit(indices, depth),
        0 <= width,
        0 <= row,
        (row + 1) * width <= indices.len(),
    ensures
        0 <= group_value(indices, width, depth, row, group, taken) < pow2(
            (depth.step() * taken) as nat,
        ),
    decreases taken,
{
    lemma2_to64();
    if taken > 0 {
        let before = (taken - 1) as nat;
        let step = depth.step() as nat;
        lemma_group_value_bound(indices, width, depth, row, group, before);
        lemma_cell_fits(indices, width, depth, row, group * depth.pixels_per_byte() + taken - 1);
        lemma_max_colors_is_pow2(depth);
        lemma_pow2_adds(step * before, step);
        assert(step * before + step == depth.step() * taken) by (nonlinear_arith)
            requires
                before + 1 == taken,
                step == depth.step(),
        ;
        let high = group_value(indices, width, depth, row, group, before);
        let limit = pow2(step * before) as int;
        let radix = depth.max_colors();
        assert(high * radix + radix <= limit * radix) by (nonlinear_arith)
            requires
                0 <= high < limit,
                0 < radix,
        ;
    }
}

/// A whole group is a byte.
pub proof fn lemma_group_value_is_byte(
    indices: Seq<u8>,
    width: int,
    depth: BitDepth,
    row: int,
    group: int,
)
    requires
        indices_fit(indices, depth),
        0 <= width,
        0 <= row,
        (row + 1) * width <= indices.len(),
    ensures
        0 <= group_value(indices, width, depth, row, group, depth.pixels_per_byte() as nat) < 256,
{
    lemma_group_value_bound(indices, width, depth, row, group, depth.pixels_per_byte() as nat);
    lemma2_to64();
}

/// Once the row has no more pixels, each further digit of the group is zero:
/// the value only moves left by `step` bits per digit.
pub proof fn lemma_group_value_filler(
    indices: Seq<u8>,
    width: int,
    depth: BitDepth,
    row: int,
    group: int,
    taken: nat,
    total: nat,
)
    requires
        taken <= total,
        width <= group * depth.pixels_per_byte() + taken,
    ensures
        group_value(indices, width, depth, row, group, total) == group_value(
            indices,
            width,
            depth,
            row,
            group,
            taken,
        ) * pow2((depth.step() * (total - taken)) as nat),
    decreases total - taken,
{
    lemma2_to64();
    let step = depth.step();
    let low = group_value(indices, width, depth, row, group, taken);
    if taken < total {
        let before = (total - 1) as nat;
        lemma_group_value_filler(indices, width, depth, row, group, taken, before);
        lemma_max_colors_is_pow2(depth);
        assert(0 <= step * (before - taken) && step * (before - taken) + step == step * (total
            - taken)) by (nonlinear_arith)
            requires
                before + 1 == total,
                taken <= before,
                0 < step,
        ;
        let short = (step * (before - taken)) as nat;
        lemma_pow2_adds(short, step as nat);
        let shifted = pow2(short) as int;
        let radix = depth.max_colors();
        assert(group_value(indices, width, depth, row, group, total) == low * shifted * radix);
        assert(low * shifted * radix == low * (shifted * radix)) by (nonlinear_arith);
        assert(short + step as nat == (step * (total - taken)) as nat);
        assert(pow2((step * (total - taken)) as nat) == shifted * radix);
    } else {
        assert(low * pow2(0) == low);
        assert(step * (total - taken) == 0) by (nonlinear_arith)
            requires
                total == taken,
        ;
    }
}

/// Every byte of `bytes` is the byte that the packed stream of the image has
/// at the same position.
spec fn is_packed_prefix(bytes: Seq<u8>, indices: Seq<u8>, width: int, depth: BitDepth) -> bool {
    forall|at: int|
        0 <= at < bytes.len() ==> bytes[at] == packed_byte(indices, width, depth, at) as u8
}

/// Packs palette indices into the padded byte stream.
///
/// `indices` holds one palette index per pixel, row after row, `width` of
/// them in each of `height` rows, and each index must fit in the `step` bits
/// of the depth. The result holds `height` rows of `row_stride` bytes.
pub fn pack_indices(indices: &[u8], width: u32, height: u32, depth: BitDepth) -> (bytes: Vec<u8>)
    requires
        indices@.len() == width * height,
        indices_fit(indices@, depth),
    ensures
        bytes@ == packed_bytes(indices@, width as int, height as int, depth),
        bytes@.len() == spec_row_stride(width as int, depth) * height,
{
    let step: u32 = depth.get_step_counter();
    let filler_bits: u32 = bit_padding(width, depth);
    let filler_bytes: u32 = byte_padding(width, depth);
    let ghost wide = width as int;
    let ghost stride = spec_row_stride(wide, depth);
    let ghost data_bytes = spec_byte_width(wide, depth);
    let ghost per_byte = depth.pixels_per_byte();
    proof {
        lemma_byte_width_bounds(wide, depth);
        lemma_row_stride_multiple_of_four(wide, depth);
        lemma_bits_per_row(wide, depth);
    }
    let mut bytes: Vec<u8> = Vec::new();
    let mut next: usize = 0;
    let mut row: u32 = 0;
    while row < height
        invariant
            wide == width as int,
            stride == spec_row_stride(wide, depth),
            data_bytes == spec_byte_width(wide, depth),
            per_byte == depth.pixels_per_byte(),
            step == depth.step(),
            filler_bits == spec_bit_padding(wide, depth),
            filler_bytes == spec_byte_padding(wide, depth),
            8 * wide == spec_bits_per_row(wide, depth) * per_byte,
            0 <= data_bytes <= stride,
            wide <= data_bytes * per_byte < wide + per_byte,
            indices@.len() == width * height,
            indices_fit(indices@, depth),
            row <= height,
            next == row * width,
            bytes@.len() == row * stride,
            is_packed_prefix(bytes@, indices@, wide, depth),
        decreases height - row,
    {
        proof {
            assert((row + 1) * width <= indices@.len()) by (nonlinear_arith)
                requires
                    row < height,
                    indices@.len() == width * height,
            ;
            assert((row + 1) * width == row * width + width) by (nonlinear_arith);
            assert((row + 1) * stride == row * stride + stride) by (nonlinear_arith);
        }
        let ghost base = row * stride;
        let ghost mut group: int = 0;
        let ghost mut taken: nat = 0;
        let mut accumulator: u32 = 0;
        let mut bits: u32 = 0;
        let mut col: u32 = 0;
        while col < width
            invariant
                wide == width as int,
                stride == spec_row_stride(wide, depth),
                data_bytes == spec_byte_width(wide, depth),
                per_byte == depth.pixels_per_byte(),
                step == depth.step(),
                0 <= data_bytes <= stride,
                wide <= data_bytes * per_byte,
                indices_fit(indices@, depth),
                (row + 1) * width <= indices@.len(),
                (row + 1) * width == row * width + width,
                base == row * stride,
                col <= width,
                next == row * width + col,
                0 <= group,
                taken < per_byte,
                col == group * per_byte + taken,
                bits == step * taken,
                accumulator == group_value(indices@, wide, depth, row as int, group, taken),
                bytes@.len() == base + group,
                is_packed_prefix(bytes@, indices@, wide, depth),
            decreases width - col,
        {
            let index: u32 = indices[next] as u32;
            proof {
                let radix = depth.max_colors() as u32;
                lemma_group_value_bound(indices@, wide, depth, row as int, group, taken);
                lemma_cell_fits(indices@, wide, depth, row as int, col as int);
                lemma_pow2_strictly_increases((step * taken) as nat, 8);
                lemma2_to64();
                assert(((accumulator << step) | index) == accumulator * radix + index)
                    by (bit_vector)
                    requires
                        accumulator < 256,
                        index < radix,
                        (step == 1 && radix == 2) || (step == 4 && radix == 16) || (step == 8
                            && radix == 256),
                ;
            }
            accumulator = (accumulator << step) | index;
            bits = bits + step;
            next = next + 1;
            col = col + 1;
            proof {
                taken = taken + 1;
            }
            if bits == 8 {
                proof {
                    lemma_group_value_is_byte(indices@, wide, depth, row as int, group);
                    lemma_fundamental_div_mod_converse(base + group, stride, row as int, group);
                }
                bytes.push(accumulator as u8);
                accumulator = 0;
                bits = 0;
                proof {
                    group = group + 1;
                    taken = 0;
                }
            }
        }
        if filler_bits != 0 {
            proof {
                let whole = per_byte as nat;
                lemma_group_value_is_byte(indices@, wide, depth, row as int, group);
                lemma_group_value_filler(indices@, wide, depth, row as int, group, taken, whole);
                assert(step * (whole - taken) == filler_bits) by (nonlinear_arith)
                    requires
                        step * per_byte == 8,
                        whole == per_byte,
                        bits == step * taken,
                        filler_bits == 8 - bits,
                ;
                lemma_u32_shl_is_mul(accumulator, filler_bits);
                lemma_fundamental_div_mod_converse(base + group, stride, row as int, group);
            }
            accumulator = accumulator << filler_bits;
            bytes.push(accumulator as u8);
        }
        let mut filled: u32 = 0;
        while filled < filler_bytes
            invariant
                wide == width as int,
                stride == spec_row_stride(wide, depth),
                data_bytes == spec_byte_width(wide, depth),
                filler_bytes == spec_byte_padding(wide, depth),
                0 <= data_bytes,
                base == row * stride,
                filled <= filler_bytes,
                bytes@.len() == base + data_bytes + filled,
                is_packed_prefix(bytes@, indices@, wide, depth),
            decreases filler_bytes - filled,
        {
            proof {
                let inside = data_bytes + filled;
                lemma_fundamental_div_mod_converse(base + inside, stride, row as int, inside);
            }
            bytes.push(0);
            filled = filled + 1;
        }
        row = row + 1;
    }
    proof {
        assert(height * stride == stride * height) by (nonlinear_arith);
        assert(bytes@ =~= packed_bytes(indices@, wide, height as int, depth));
    }
    bytes
}

} // verus!
