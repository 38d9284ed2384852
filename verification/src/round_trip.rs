//! Packing followed by unpacking gives the image back.

use crate::bit_depth::BitDepth;
use crate::error::BitDataError;
use crate::packer::{
    cell, group_value, indices_fit, lemma_cell_fits, lemma_group_value_bound,
    lemma_group_value_is_byte, lemma_max_colors_is_pow2, packed_bytes,
};
use crate::palette::{color_indices, distinct_colors, lemma_pixel_in_palette, palette_of};
use crate::rgba::Rgba;
use crate::row_layout::{
    lemma_byte_width_bounds, lemma_row_stride_multiple_of_four, spec_row_stride,
};
use crate::unpacker::{
    lemma_first_bad_pixel_is, lemma_pixel_place, required_len, slot_value, stream_index, unpacked,
};
use vstd::arithmetic::div_mod::{lemma_div_denominator, lemma_fundamental_div_mod_converse};
use vstd::arithmetic::power2::{lemma2_to64, lemma_pow2_adds, lemma_pow2_pos, pow2};
use vstd::prelude::*;

verus! {

/// Each digit of a group's value is the cell it was made from: dropping the
/// digits after `slot` and keeping the last of the rest gives cell `slot`.
pub proof fn lemma_group_digit(
    indices: Seq<u8>,
    width: int,
    depth: BitDepth,
    row: int,
    group: int,
    taken: nat,
    slot: int,
)
    requires
        indices_fit(indices, depth),
        0 <= width,
        0 <= row,
        (row + 1) * width <= indices.len(),
        0 <= slot < taken,
    ensures
        (group_value(indices, width, depth, row, group, taken) / pow2(
            (depth.step() * (taken - 1 - slot)) as nat,
        ) as int) % depth.max_colors() == cell(
            indices,
            width,
            row,
            group * depth.pixels_per_byte() + slot,
        ),
    decreases taken,
{
    let step = depth.step();
    let radix = depth.max_colors();
    let before = (taken - 1) as nat;
    let value = group_value(indices, width, depth, row, group, taken);
    let high = group_value(indices, width, depth, row, group, before);
    let last = cell(indices, width, row, group * depth.pixels_per_byte() + taken - 1);
    lemma2_to64();
    lemma_max_colors_is_pow2(depth);
    lemma_group_value_bound(indices, width, depth, row, group, before);
    lemma_cell_fits(indices, width, depth, row, group * depth.pixels_per_byte() + taken - 1);
    lemma_fundamental_div_mod_converse(value, radix, high, last);
    assert(value / radix == high && value % radix == last);
    if slot == taken - 1 {
        assert(step * (taken - 1 - slot) == 0) by (nonlinear_arith)
            requires
                slot == taken - 1,
        ;
        assert(value / (pow2(0) as int) == value);
    } else {
        lemma_group_digit(indices, width, depth, row, group, before, slot);
        assert(0 <= step * (before - 1 - slot) && step * (before - 1 - slot) + step == step
            * (taken - 1 - slot)) by (nonlinear_arith)
            requires
                before + 1 == taken,
                slot < before,
                0 < step,
        ;
        let short = (step * (before - 1 - slot)) as nat;
        let long = (step * (taken - 1 - slot)) as nat;
        lemma_pow2_adds(step as nat, short);
        lemma_pow2_pos(short);
        assert(step as nat + short == long);
        assert(pow2(long) == radix * pow2(short));
        lemma_div_denominator(value, radix, pow2(short) as int);
    }
}

/// The stream of a packed image holds, for every pixel, the index that was
/// packed.
pub proof fn lemma_stream_index_of_packed(
    indices: Seq<u8>,
    width: int,
    height: int,
    depth: BitDepth,
    pixel: int,
)
    requires
        0 <= width,
        0 <= height,
        indices.len() == width * height,
        indices_fit(indices, depth),
        0 <= pixel < indices.len(),
    ensures
        stream_index(packed_bytes(indices, width, height, depth), width, depth, pixel)
            == indices[pixel],
{
    reveal(stream_index);
    let stride = spec_row_stride(width, depth);
    let per_byte = depth.pixels_per_byte();
    assert(0 < width && 0 < height) by (nonlinear_arith)
        requires
            0 <= width,
            0 <= height,
            0 < width * height,
    ;
    let row = pixel / width;
    let col = pixel % width;
    assert(pixel == row * width + col && 0 <= col < width && 0 <= row < height)
        by (nonlinear_arith)
        requires
            row == pixel / width,
            col == pixel % width,
            0 < width,
            0 <= pixel < width * height,
    ;
    let group = col / per_byte;
    let slot = col % per_byte;
    lemma_pixel_place(width, depth, row, col);
    lemma_byte_width_bounds(width, depth);
    lemma_row_stride_multiple_of_four(width, depth);
    let at = row * stride + group;
    assert(0 <= at < stride * height && (row + 1) * width <= width * height)
        by (nonlinear_arith)
        requires
            at == row * stride + group,
            0 <= group < stride,
            0 <= row < height,
            0 <= width,
    ;
    lemma_fundamental_div_mod_converse(at, stride, row, group);
    lemma_group_value_is_byte(indices, width, depth, row, group);
    lemma_group_digit(indices, width, depth, row, group, per_byte as nat, slot);
    lemma_max_colors_is_pow2(depth);
    assert(depth.step() * (per_byte - 1 - slot) == 8 - depth.step() * (slot + 1))
        by (nonlinear_arith)
        requires
            depth.step() * per_byte == 8,
    ;
    let value = group_value(indices, width, depth, row, group, per_byte as nat);
    assert(packed_bytes(indices, width, height, depth)[at] == value as u8);
    assert(slot_value(value as u8, slot, depth) == cell(
        indices,
        width,
        row,
        group * per_byte + slot,
    ));
}

/// A packed image is never too short to be unpacked.
pub proof fn lemma_packed_is_long_enough(width: int, height: int, depth: BitDepth)
    requires
        0 <= width,
        0 <= height,
    ensures
        required_len(width, height, depth) <= spec_row_stride(width, depth) * height,
{
    lemma_row_stride_multiple_of_four(width, depth);
    let stride = spec_row_stride(width, depth);
    assert(0 <= stride * height && (height - 1) * stride + stride == stride * height)
        by (nonlinear_arith)
        requires
            0 <= stride,
            0 <= height,
    ;
}

/// Unpacking what was packed gives, for each pixel, the palette entry that
/// its index names. This holds for every palette that has an entry for each
/// index of the image.
pub proof fn lemma_unpack_packed(
    indices: Seq<u8>,
    width: int,
    height: int,
    depth: BitDepth,
    palette: Seq<Rgba>,
)
    requires
        0 <= width,
        0 <= height,
        indices.len() == width * height,
        indices_fit(indices, depth),
        forall|i: int| 0 <= i < indices.len() ==> indices[i] < palette.len(),
    ensures
        unpacked(
            packed_bytes(indices, width, height, depth),
            width,
            height,
            depth,
            palette,
        ) == Ok::<Seq<Rgba>, BitDataError>(
            Seq::new(indices.len(), |i: int| palette[indices[i] as int]),
        ),
{
    let bytes = packed_bytes(indices, width, height, depth);
    let count = width * height;
    lemma_packed_is_long_enough(width, height, depth);
    assert forall|pixel: int| 0 <= pixel < count implies #[trigger] stream_index(
        bytes,
        width,
        depth,
        pixel,
    ) == indices[pixel] by {
        lemma_stream_index_of_packed(indices, width, height, depth, pixel);
    }
    lemma_first_bad_pixel_is(bytes, width, depth, palette.len() as int, count, count);
    assert(Seq::new(count as nat, |pixel: int| palette[stream_index(bytes, width, depth, pixel)])
        =~= Seq::new(indices.len(), |i: int| palette[indices[i] as int]));
}

/// Round trip: an image with no more distinct colours than the depth can
/// name, packed with its own palette and unpacked again with the same
/// palette, is the image.
pub proof fn lemma_round_trip(pixels: Seq<Rgba>, width: int, height: int, depth: BitDepth)
    requires
        0 <= width,
        0 <= height,
        pixels.len() == width * height,
        distinct_colors(pixels).len() <= depth.max_colors(),
    ensures
        unpacked(
            packed_bytes(color_indices(pixels, palette_of(pixels)), width, height, depth),
            width,
            height,
            depth,
            palette_of(pixels),
        ) == Ok::<Seq<Rgba>, BitDataError>(pixels),
{
    let palette = palette_of(pixels);
    let indices = color_indices(pixels, palette);
    assert forall|i: int| 0 <= i < indices.len() implies indices[i] < depth.max_colors()
        && indices[i] < palette.len() && palette[indices[i] as int] == pixels[i] by {
        lemma_pixel_in_palette(pixels, i);
    }
    lemma_unpack_packed(indices, width, height, depth, palette);
    assert(Seq::new(indices.len(), |i: int| palette[indices[i] as int]) =~= pixels);
}

} // verus!
