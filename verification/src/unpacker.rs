//! The bit unpacker: from the padded byte stream back to pixels.
//!
//! The pixel at column `col` of row `row` is read from the byte at position
//! `row * row_stride + col / pixels_per_byte`, where it occupies the digit of
//! `step` bits numbered `col mod pixels_per_byte`, counted from the most
//! significant end. Filler bits and filler bytes are passed over.

use crate::bit_depth::BitDepth;
use crate::error::BitDataError;
use crate::rgba::Rgba;
use crate::row_layout::{
    byte_padding, byte_width, lemma_byte_width_bounds, lemma_row_stride_multiple_of_four,
    row_stride, spec_byte_padding, spec_byte_width, spec_row_stride,
};
use vstd::arithmetic::div_mod::lemma_fundamental_div_mod_converse;
use vstd::arithmetic::power2::{lemma2_to64, pow2};
use vstd::bits::lemma_u32_shr_is_div;
use vstd::prelude::*;

verus! {

/// The digit numbered `slot` of a byte, the digits being `step` bits wide and
/// numbered from the most significant end.
pub open spec fn slot_value(byte: u8, slot: int, depth: BitDepth) -> int {
    (byte as int / pow2((8 - depth.step() * (slot + 1)) as nat) as int) % depth.max_colors()
}

/// The position in the stream of the byte that holds the pixel numbered
/// `pixel` in row-major order.
pub open spec fn pixel_byte_position(width: int, depth: BitDepth, pixel: int) -> int {
    (pixel / width) * spec_row_stride(width, depth) + (pixel % width) / depth.pixels_per_byte()
}

/// The palette index that the stream holds for the pixel numbered `pixel`.
///
/// Proofs see this function by name only; `reveal(stream_index)` shows them
/// its body.
#[verifier::opaque]
pub open spec fn stream_index(bytes: Seq<u8>, width: int, depth: BitDepth, pixel: int) -> int {
    slot_value(
        bytes[pixel_byte_position(width, depth, pixel)],
        (pixel % width) % depth.pixels_per_byte(),
        depth,
    )
}

/// The number of bytes that a stream must hold for all pixels of the image to
/// be read: all rows but the last in full, and the pixel bytes of the last.
/// The filler bytes of the last row are not asked for.
pub open spec fn required_len(width: int, height: int, depth: BitDepth) -> int {
    if width <= 0 || height <= 0 {
        0
    } else {
        (height - 1) * spec_row_stride(width, depth) + spec_byte_width(width, depth)
    }
}

/// The first pixel at or after `from` whose index in the stream names no
/// entry of a palette of `entries` colours, or `count` if all pixels from
/// `from` up to `count` name one.
pub open spec fn first_bad_pixel(
    bytes: Seq<u8>,
    width: int,
    depth: BitDepth,
    entries: int,
    from: int,
    count: int,
) -> int
    decreases count - from,
{
    if from >= count {
        count
    } else if stream_index(bytes, width, depth, from) >= entries {
        from
    } else {
        first_bad_pixel(bytes, width, depth, entries, from + 1, count)
    }
}

/// What unpacking a stream gives.
///
/// A stream shorter than `required_len` is truncated. A stream that is long
/// enough, and in which some pixel names no palette entry, is malformed, and
/// the error names the first such pixel. Any other stream gives the
/// `width * height` pixels that its indices name, in row-major order.
pub open spec fn unpacked(
    bytes: Seq<u8>,
    width: int,
    height: int,
    depth: BitDepth,
    palette: Seq<Rgba>,
) -> Result<Seq<Rgba>, BitDataError> {
    let count = width * height;
    let bad = first_bad_pixel(bytes, width, depth, palette.len() as int, 0, count);
    if bytes.len() < required_len(width, height, depth) {
        Err(BitDataError::TruncatedStreamError)
    } else if bad < count {
        Err(BitDataError::DecodeError { pixel: bad as u64 })
    } else {
        Ok(Seq::new(count as nat, |pixel: int| palette[stream_index(bytes, width, depth, pixel)]))
    }
}

/// `first_bad_pixel` is the least pixel from `from` on that names no palette
/// entry.
pub proof fn lemma_first_bad_pixel(
    bytes: Seq<u8>,
    width: int,
    depth: BitDepth,
    entries: int,
    from: int,
    count: int,
)
    requires
        from <= count,
    ensures
        from <= first_bad_pixel(bytes, width, depth, entries, from, count) <= count,
        first_bad_pixel(bytes, width, depth, entries, from, count) < count ==> stream_index(
            bytes,
            width,
            depth,
            first_bad_pixel(bytes, width, depth, entries, from, count),
        ) >= entries,
        forall|pixel: int|
            from <= pixel < first_bad_pixel(bytes, width, depth, entries, from, count)
                ==> #[trigger] stream_index(bytes, width, depth, pixel) < entries,
    decreases count - from,
{
    if from < count && stream_index(bytes, width, depth, from) < entries {
        lemma_first_bad_pixel(bytes, width, depth, entries, from + 1, count);
    }
}

/// A pixel that names no palette entry, after pixels that all name one, is the
/// first bad pixel; and where all pixels name one, there is none.
pub proof fn lemma_first_bad_pixel_is(
    bytes: Seq<u8>,
    width: int,
    depth: BitDepth,
    entries: int,
    count: int,
    bad: int,
)
    requires
        0 <= bad <= count,
        forall|pixel: int|
            0 <= pixel < bad ==> #[trigger] stream_index(bytes, width, depth, pixel) < entries,
        bad < count ==> stream_index(bytes, width, depth, bad) >= entries,
    ensures
        first_bad_pixel(bytes, width, depth, entries, 0, count) == bad,
{
    lemma_first_bad_pixel(bytes, width, depth, entries, 0, count);
    let first = first_bad_pixel(bytes, width, depth, entries, 0, count);
    if first < bad {
        assert(stream_index(bytes, width, depth, first) < entries);
    } else if bad < first {
        assert(stream_index(bytes, width, depth, bad) < entries);
    }
}

/// A stream that ends before the last pixel byte of the image, in the middle
/// of a row or between rows, is truncated, whatever it holds.
pub proof fn lemma_truncated_stream(
    bytes: Seq<u8>,
    width: int,
    height: int,
    depth: BitDepth,
    palette: Seq<Rgba>,
)
    requires
        bytes.len() < required_len(width, height, depth),
    ensures
        unpacked(bytes, width, height, depth, palette) == Err::<Seq<Rgba>, BitDataError>(
            BitDataError::TruncatedStreamError,
        ),
{
}

/// A stream that is long enough, and in which `pixel` is the first pixel to
/// name no palette entry, is malformed at `pixel`.
pub proof fn lemma_decode_error_at_first_offender(
    bytes: Seq<u8>,
    width: int,
    height: int,
    depth: BitDepth,
    palette: Seq<Rgba>,
    pixel: int,
)
    requires
        required_len(width, height, depth) <= bytes.len(),
        0 <= pixel < width * height,
        stream_index(bytes, width, depth, pixel) >= palette.len(),
        forall|earlier: int|
            0 <= earlier < pixel ==> #[trigger] stream_index(bytes, width, depth, earlier)
                < palette.len(),
    ensures
        unpacked(bytes, width, height, depth, palette) == Err::<Seq<Rgba>, BitDataError>(
            BitDataError::DecodeError { pixel: pixel as u64 },
        ),
{
    lemma_first_bad_pixel_is(bytes, width, depth, palette.len() as int, width * height, pixel);
}

/// A stream gives pixels exactly when it is long enough and every pixel names
/// a palette entry; there are then `width * height` of them.
pub proof fn lemma_unpacked_ok(
    bytes: Seq<u8>,
    width: int,
    height: int,
    depth: BitDepth,
    palette: Seq<Rgba>,
)
    requires
        0 <= width,
        0 <= height,
    ensures
        unpacked(bytes, width, height, depth, palette) is Ok <==> required_len(
            width,
            height,
            depth,
        ) <= bytes.len() && forall|pixel: int|
            0 <= pixel < width * height ==> #[trigger] stream_index(bytes, width, depth, pixel)
                < palette.len(),
        unpacked(bytes, width, height, depth, palette) matches Ok(pixels) ==> pixels.len() == width
            * height,
{
    let count = width * height;
    assert(0 <= count) by (nonlinear_arith)
        requires
            0 <= width,
            0 <= height,
            count == width * height,
    ;
    lemma_first_bad_pixel(bytes, width, depth, palette.len() as int, 0, count);
    if required_len(width, height, depth) <= bytes.len() && forall|pixel: int|
        0 <= pixel < width * height ==> #[trigger] stream_index(bytes, width, depth, pixel)
            < palette.len() {
        lemma_first_bad_pixel_is(bytes, width, depth, palette.len() as int, count, count);
    }
}

/// Where column `col` of row `row` is found: which pixel it is, and in which
/// byte and digit it stands.
pub proof fn lemma_pixel_place(width: int, depth: BitDepth, row: int, col: int)
    requires
        0 <= row,
        0 <= col < width,
    ensures
        (row * width + col) / width == row,
        (row * width + col) % width == col,
        pixel_byte_position(width, depth, row * width + col) == row * spec_row_stride(width, depth)
            + col / depth.pixels_per_byte(),
        0 <= col / depth.pixels_per_byte() < spec_byte_width(width, depth),
{
    lemma_fundamental_div_mod_converse(row * width + col, width, row, col);
    lemma_byte_width_bounds(width, depth);
}

/// Every pixel of `buffer` is the palette entry that the stream names for the
/// pixel at the same position.
spec fn is_unpacked_prefix(
    buffer: Seq<Rgba>,
    bytes: Seq<u8>,
    width: int,
    depth: BitDepth,
    palette: Seq<Rgba>,
) -> bool {
    &&& forall|pixel: int|
        0 <= pixel < buffer.len() ==> #[trigger] stream_index(bytes, width, depth, pixel)
            < palette.len()
    &&& forall|pixel: int|
        0 <= pixel < buffer.len() ==> #[trigger] buffer[pixel] == palette[stream_index(
            bytes,
            width,
            depth,
            pixel,
        )]
}

/// Unpacks a padded byte stream into the pixels it encodes.
///
/// Fails with `TruncatedStreamError` exactly when the stream holds fewer than
/// `required_len` bytes; otherwise with `DecodeError`, at the first offending
/// pixel, exactly when some pixel names no palette entry. Bytes after the
/// pixel bytes of the last row are not read.
pub fn unpack(bytes: &[u8], width: u32, height: u32, depth: BitDepth, palette: &[Rgba]) -> (pixels:
    Result<Vec<Rgba>, BitDataError>)
    ensures
        match pixels {
            Ok(buffer) => unpacked(bytes@, width as int, height as int, depth, palette@) == Ok::<
                Seq<Rgba>,
                BitDataError,
            >(buffer@),
            Err(e) => unpacked(bytes@, width as int, height as int, depth, palette@) == Err::<
                Seq<Rgba>,
                BitDataError,
            >(e),
        },
{
    let ghost wide = width as int;
    let ghost high = height as int;
    let ghost count = wide * high;
    let ghost entries = palette@.len() as int;
    let mut buffer: Vec<Rgba> = Vec::new();
    if width == 0 || height == 0 {
        proof {
            assert(count == 0) by (nonlinear_arith)
                requires
                    count == wide * high,
                    wide == 0 || high == 0,
            ;
            assert(buffer@ =~= Seq::new(
                count as nat,
                |pixel: int| palette@[stream_index(bytes@, wide, depth, pixel)],
            ));
        }
        return Ok(buffer);
    }
    let stride: u64 = row_stride(width, depth);
    let data_bytes: u32 = byte_width(width, depth);
    let filler_bytes: u32 = byte_padding(width, depth);
    proof {
        lemma_byte_width_bounds(wide, depth);
        lemma_row_stride_multiple_of_four(wide, depth);
        assert(stride <= 0x1_0000_0000);
        assert((high - 1) * stride <= 0xffff_fffe * 0x1_0000_0000) by (nonlinear_arith)
            requires
                0 <= high - 1 <= 0xffff_fffe,
                0 <= stride <= 0x1_0000_0000,
        ;
    }
    let required: u64 = (height - 1) as u64 * stride + data_bytes as u64;
    if (bytes.len() as u64) < required {
        return Err(BitDataError::TruncatedStreamError);
    }
    let step: u32 = depth.get_step_counter();
    let per_byte: u32 = depth.get_pixels_per_byte();
    let mask: u32 = (depth.get_max_colors() - 1) as u32;
    let mut at: u64 = 0;
    let mut done: u64 = 0;
    let mut row: u32 = 0;
    while row < height
        invariant
            wide == width as int,
            high == height as int,
            count == wide * high,
            entries == palette@.len(),
            0 < wide,
            stride == spec_row_stride(wide, depth),
            stride <= 0x1_0000_0000,
            data_bytes == spec_byte_width(wide, depth),
            filler_bytes == spec_byte_padding(wide, depth),
            stride == data_bytes + filler_bytes,
            required == (high - 1) * stride + data_bytes,
            required <= bytes@.len(),
            required_len(wide, high, depth) <= bytes@.len(),
            step == depth.step(),
            per_byte == depth.pixels_per_byte(),
            mask == depth.max_colors() - 1,
            row <= height,
            at == row * stride,
            done == row * width,
            buffer@.len() == done,
            is_unpacked_prefix(buffer@, bytes@, wide, depth, palette@),
        decreases height - row,
    {
        proof {
            assert((row + 1) * width == row * width + width) by (nonlinear_arith);
            assert((row + 1) * stride == row * stride + stride) by (nonlinear_arith);
            assert(row * stride <= (high - 1) * stride) by (nonlinear_arith)
                requires
                    row <= high - 1,
                    0 <= stride,
            ;
            assert((row + 1) * width <= count) by (nonlinear_arith)
                requires
                    row + 1 <= high,
                    0 <= wide,
                    count == wide * high,
                    wide == width,
            ;
            assert(count <= 0xffff_ffff * 0xffff_ffff) by (nonlinear_arith)
                requires
                    count == wide * high,
                    0 <= wide <= 0xffff_ffff,
                    0 <= high <= 0xffff_ffff,
            ;
        }
        let ghost base = row * stride;
        let ghost mut group: int = 0;
        let mut slot: u32 = 0;
        let mut col: u32 = 0;
        while col < width
            invariant
                wide == width as int,
                high == height as int,
                count == wide * high,
                entries == palette@.len(),
                0 < wide,
                required_len(wide, high, depth) <= bytes@.len(),
                stride == spec_row_stride(wide, depth),
                data_bytes == spec_byte_width(wide, depth),
                step == depth.step(),
                per_byte == depth.pixels_per_byte(),
                mask == depth.max_colors() - 1,
                wide <= data_bytes * per_byte,
                data_bytes * per_byte < wide + per_byte,
                base == row * stride,
                0 <= base,
                base + data_bytes <= bytes@.len(),
                (row + 1) * width == row * width + width,
                (row + 1) * width <= count,
                count <= 0xffff_ffff * 0xffff_ffff,
                col <= width,
                0 <= group,
                slot < per_byte,
                col == group * per_byte + slot,
                at == base + group,
                done == row * width + col,
                buffer@.len() == done,
                is_unpacked_prefix(buffer@, bytes@, wide, depth, palette@),
            decreases width - col,
        {
            proof {
                assert(0 < step * (slot + 1) <= 8) by (nonlinear_arith)
                    requires
                        0 <= slot < per_byte,
                        0 < step,
                        step * per_byte == 8,
                ;
            }
            let byte: u32 = bytes[at as usize] as u32;
            let shift: u32 = 8 - step * (slot + 1);
            let index: usize = ((byte >> shift) & mask) as usize;
            proof {
                lemma_pixel_place(wide, depth, row as int, col as int);
                lemma_fundamental_div_mod_converse(col as int, per_byte as int, group, slot as int);
                lemma_u32_shr_is_div(byte, shift);
                lemma2_to64();
                let moved: u32 = byte >> shift;
                let radix: u32 = depth.max_colors() as u32;
                assert(moved & mask == moved % radix) by (bit_vector)
                    requires
                        (mask == 1 && radix == 2) || (mask == 15 && radix == 16) || (mask == 255
                            && radix == 256),
                ;
                assert(index == stream_index(bytes@, wide, depth, done as int)) by {
                    reveal(stream_index);
                }
            }
            if index >= palette.len() {
                proof {
                    lemma_first_bad_pixel_is(bytes@, wide, depth, entries, count, done as int);
                }
                return Err(BitDataError::DecodeError { pixel: done });
            }
            buffer.push(palette[index]);
            done = done + 1;
            col = col + 1;
            slot = slot + 1;
            if slot == per_byte {
                slot = 0;
                at = at + 1;
                proof {
                    group = group + 1;
                }
            }
        }
        if slot != 0 {
            at = at + 1;
        }
        proof {
            assert(at == base + data_bytes);
            assert((row + 1) * stride <= 0xffff_ffff * 0x1_0000_0000) by (nonlinear_arith)
                requires
                    0 <= row + 1 <= 0xffff_ffff,
                    0 <= stride <= 0x1_0000_0000,
            ;
        }
        at = at + filler_bytes as u64;
        row = row + 1;
    }
    proof {
        assert(done == count) by (nonlinear_arith)
            requires
                done == row * width,
                row == high,
                wide == width,
                count == wide * high,
        ;
        lemma_first_bad_pixel_is(bytes@, wide, depth, entries, count, count);
        assert(buffer@ =~= Seq::new(
            count as nat,
            |pixel: int| palette@[stream_index(bytes@, wide, depth, pixel)],
        ));
    }
    Ok(buffer)
}

} // verus!
