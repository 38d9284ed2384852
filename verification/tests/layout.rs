use indexed_bitmap::bit_depth::BitDepth;
use indexed_bitmap::row_layout::{bit_padding, bits_per_row, byte_padding, byte_width, row_stride};

const DEPTHS: [BitDepth; 3] = [BitDepth::Color2Bit, BitDepth::Color16Bit, BitDepth::Color256Bit];

#[test]
fn depth_from_bits_accepts_one_four_and_eight() {
    assert_eq!(BitDepth::from_bits(1), Some(BitDepth::Color2Bit));
    assert_eq!(BitDepth::from_bits(4), Some(BitDepth::Color16Bit));
    assert_eq!(BitDepth::from_bits(8), Some(BitDepth::Color256Bit));
}

#[test]
fn depth_from_bits_rejects_other_depths() {
    for bits in [0u32, 2, 3, 5, 7, 16, 24, 32, u32::MAX] {
        assert_eq!(BitDepth::from_bits(bits), None);
    }
}

#[test]
fn depth_step_and_pixels_per_byte() {
    assert_eq!(BitDepth::Color2Bit.get_step_counter(), 1);
    assert_eq!(BitDepth::Color16Bit.get_step_counter(), 4);
    assert_eq!(BitDepth::Color256Bit.get_step_counter(), 8);
    assert_eq!(BitDepth::Color2Bit.get_pixels_per_byte(), 8);
    assert_eq!(BitDepth::Color16Bit.get_pixels_per_byte(), 2);
    assert_eq!(BitDepth::Color256Bit.get_pixels_per_byte(), 1);
    assert_eq!(BitDepth::Color2Bit.get_max_colors(), 2);
    assert_eq!(BitDepth::Color16Bit.get_max_colors(), 16);
    assert_eq!(BitDepth::Color256Bit.get_max_colors(), 256);
}

#[test]
fn one_bit_width_eight_needs_no_bit_padding() {
    assert_eq!(bits_per_row(8, BitDepth::Color2Bit), 8);
    assert_eq!(bit_padding(8, BitDepth::Color2Bit), 0);
    assert_eq!(byte_width(8, BitDepth::Color2Bit), 1);
    assert_eq!(byte_padding(8, BitDepth::Color2Bit), 3);
    assert_eq!(row_stride(8, BitDepth::Color2Bit), 4);
}

#[test]
fn one_bit_width_three_has_five_padding_bits() {
    assert_eq!(bits_per_row(3, BitDepth::Color2Bit), 3);
    assert_eq!(bit_padding(3, BitDepth::Color2Bit), 5);
    assert_eq!(byte_width(3, BitDepth::Color2Bit), 1);
    assert_eq!(byte_padding(3, BitDepth::Color2Bit), 3);
}

#[test]
fn eight_bit_width_ten_pads_to_twelve() {
    assert_eq!(bits_per_row(10, BitDepth::Color256Bit), 80);
    assert_eq!(bit_padding(10, BitDepth::Color256Bit), 0);
    assert_eq!(byte_width(10, BitDepth::Color256Bit), 10);
    assert_eq!(byte_padding(10, BitDepth::Color256Bit), 2);
    assert_eq!(row_stride(10, BitDepth::Color256Bit), 12);
}

#[test]
fn four_bit_rows() {
    assert_eq!(bits_per_row(3, BitDepth::Color16Bit), 12);
    assert_eq!(bit_padding(3, BitDepth::Color16Bit), 4);
    assert_eq!(byte_width(3, BitDepth::Color16Bit), 2);
    assert_eq!(byte_padding(3, BitDepth::Color16Bit), 2);
    assert_eq!(row_stride(3, BitDepth::Color16Bit), 4);
    assert_eq!(bit_padding(8, BitDepth::Color16Bit), 0);
    assert_eq!(byte_width(8, BitDepth::Color16Bit), 4);
    assert_eq!(byte_padding(8, BitDepth::Color16Bit), 0);
    assert_eq!(row_stride(9, BitDepth::Color16Bit), 8);
}

#[test]
fn byte_width_already_a_multiple_of_four_gets_no_filler() {
    assert_eq!(byte_padding(4, BitDepth::Color256Bit), 0);
    assert_eq!(row_stride(4, BitDepth::Color256Bit), 4);
    assert_eq!(byte_padding(32, BitDepth::Color2Bit), 0);
    assert_eq!(row_stride(32, BitDepth::Color2Bit), 4);
    assert_eq!(row_stride(64, BitDepth::Color2Bit), 8);
}

#[test]
fn empty_row_takes_no_bytes() {
    for depth in DEPTHS {
        assert_eq!(bits_per_row(0, depth), 0);
        assert_eq!(bit_padding(0, depth), 0);
        assert_eq!(byte_width(0, depth), 0);
        assert_eq!(byte_padding(0, depth), 0);
        assert_eq!(row_stride(0, depth), 0);
    }
}

#[test]
fn row_stride_is_always_a_multiple_of_four() {
    for depth in DEPTHS {
        for width in 0u32..600 {
            let stride = row_stride(width, depth);
            assert_eq!(stride % 4, 0);
            assert!(stride >= byte_width(width, depth) as u64);
            assert!(stride < byte_width(width, depth) as u64 + 4);
            assert_eq!(
                stride,
                byte_width(width, depth) as u64 + byte_padding(width, depth) as u64
            );
        }
    }
}

#[test]
fn byte_width_holds_exactly_the_row() {
    for depth in DEPTHS {
        let per_byte = depth.get_pixels_per_byte() as u64;
        for width in 1u32..600 {
            let bytes = byte_width(width, depth) as u64;
            assert!(bytes * per_byte >= width as u64);
            assert!((bytes - 1) * per_byte < width as u64);
            assert_eq!(
                bytes * 8,
                bits_per_row(width, depth) + bit_padding(width, depth) as u64
            );
        }
    }
}

#[test]
fn widest_rows_do_not_overflow() {
    assert_eq!(bits_per_row(u32::MAX, BitDepth::Color256Bit), 8 * (u32::MAX as u64));
    assert_eq!(byte_width(u32::MAX, BitDepth::Color256Bit), u32::MAX);
    assert_eq!(byte_padding(u32::MAX, BitDepth::Color256Bit), 1);
    assert_eq!(row_stride(u32::MAX, BitDepth::Color256Bit), 1u64 << 32);
    assert_eq!(bit_padding(u32::MAX, BitDepth::Color2Bit), 1);
    assert_eq!(byte_width(u32::MAX, BitDepth::Color2Bit), 1u32 << 29);
    assert_eq!(bit_padding(u32::MAX, BitDepth::Color16Bit), 4);
    assert_eq!(byte_width(u32::MAX, BitDepth::Color16Bit), 1u32 << 31);
}
