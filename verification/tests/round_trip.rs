use indexed_bitmap::bit_data::BitData;
use indexed_bitmap::bit_depth::BitDepth;
use indexed_bitmap::file_header::FileHeader;
use indexed_bitmap::image::BitMap;
use indexed_bitmap::info_header::InfoHeader;
use indexed_bitmap::packer::pack_indices;
use indexed_bitmap::palette::{build_palette, color_index};
use indexed_bitmap::rgb_quad::RgbQuad;
use indexed_bitmap::rgba::Rgba;
use indexed_bitmap::unpacker::unpack;

/// Pixels of `colors` different colours, chosen by a fixed rule.
fn image(width: u32, height: u32, colors: u32, seed: u32) -> Vec<Rgba> {
    let mut state = seed.wrapping_mul(2654435761).wrapping_add(12345);
    let mut pixels = Vec::new();
    for _ in 0..width * height {
        state = state.wrapping_mul(1664525).wrapping_add(1013904223);
        let pick = ((state >> 16) % colors) as u8;
        pixels.push(Rgba::rgba(pick, pick.wrapping_mul(7), 255 - pick, 255));
    }
    pixels
}

fn check_round_trip(width: u32, height: u32, depth: BitDepth, colors: u32, seed: u32) {
    let pixels = image(width, height, colors, seed);
    let bitmap = BitMap::create(width, height, pixels.clone()).unwrap();
    assert!(bitmap.get_all_unique_colors().len() <= depth.get_max_colors());
    let data = BitData::from_bitmap(&bitmap, depth);
    assert_eq!(data.len() % 4, 0);
    assert_eq!(data.as_rgba(), Ok(pixels.clone()));

    // the same through the file's parts: bytes behind a header, and the palette
    let palette = build_palette(&pixels);
    let mut file_bytes = vec![0x42, 0x4D, 0x00];
    file_bytes.extend_from_slice(&data.as_bytes());
    let read = BitData::stream(
        &file_bytes,
        &FileHeader::new(3),
        &InfoHeader::new(width, height),
        depth,
        &RgbQuad::new(palette.clone()),
    );
    assert_eq!(read.as_bytes(), data.as_bytes());
    assert_eq!(read.as_rgba(), Ok(pixels.clone()));

    // and through the packer and the unpacker themselves
    let indices: Vec<u8> =
        pixels.iter().map(|p| color_index(&palette, *p).unwrap() as u8).collect();
    let bytes = pack_indices(&indices, width, height, depth);
    assert_eq!(bytes, data.as_bytes());
    assert_eq!(unpack(&bytes, width, height, depth, &palette), Ok(pixels));
}

#[test]
fn round_trip_one_bit() {
    for width in 0u32..36 {
        for height in 0u32..4 {
            check_round_trip(width, height, BitDepth::Color2Bit, 2, width * 7 + height);
        }
    }
}

#[test]
fn round_trip_four_bit() {
    for width in 0u32..20 {
        for height in 0u32..4 {
            check_round_trip(width, height, BitDepth::Color16Bit, 16, width * 5 + height);
        }
    }
}

#[test]
fn round_trip_eight_bit() {
    for width in 0u32..14 {
        for height in 0u32..4 {
            check_round_trip(width, height, BitDepth::Color256Bit, 256, width * 3 + height);
        }
    }
}

#[test]
fn round_trip_eight_bit_with_all_256_colors() {
    let pixels: Vec<Rgba> = (0u32..256).map(|i| Rgba::rgba(i as u8, 1, 2, 3)).collect();
    let bitmap = BitMap::create(16, 16, pixels.clone()).unwrap();
    assert_eq!(bitmap.get_all_unique_colors().len(), 256);
    let data = BitData::from_bitmap(&bitmap, BitDepth::Color256Bit);
    let expected: Vec<u8> = (0u32..256).map(|i| i as u8).collect();
    assert_eq!(data.as_bytes(), expected);
    assert_eq!(data.as_rgba(), Ok(pixels));
}

#[test]
fn round_trip_four_bit_with_all_16_colors() {
    let pixels: Vec<Rgba> = (0u8..16).map(|i| Rgba::rgba(9, i, 9, 9)).collect();
    let bitmap = BitMap::create(16, 1, pixels.clone()).unwrap();
    let data = BitData::from_bitmap(&bitmap, BitDepth::Color16Bit);
    assert_eq!(data.as_bytes(), vec![0x01, 0x23, 0x45, 0x67, 0x89, 0xAB, 0xCD, 0xEF]);
    assert_eq!(data.as_rgba(), Ok(pixels));
}

#[test]
fn round_trip_single_row_and_single_column() {
    check_round_trip(1, 1, BitDepth::Color2Bit, 1, 1);
    check_round_trip(1, 9, BitDepth::Color2Bit, 2, 2);
    check_round_trip(9, 1, BitDepth::Color2Bit, 2, 3);
    check_round_trip(1, 9, BitDepth::Color16Bit, 5, 4);
    check_round_trip(9, 1, BitDepth::Color16Bit, 5, 5);
    check_round_trip(1, 9, BitDepth::Color256Bit, 200, 6);
    check_round_trip(9, 1, BitDepth::Color256Bit, 200, 7);
}

#[test]
fn round_trip_fewer_colors_than_the_depth_allows() {
    check_round_trip(13, 7, BitDepth::Color16Bit, 3, 8);
    check_round_trip(13, 7, BitDepth::Color256Bit, 2, 9);
    check_round_trip(64, 3, BitDepth::Color2Bit, 1, 10);
}

#[test]
fn cutting_a_packed_image_short_is_always_noticed() {
    let pixels = image(10, 3, 2, 77);
    let bitmap = BitMap::create(10, 3, pixels.clone()).unwrap();
    let data = BitData::from_bitmap(&bitmap, BitDepth::Color2Bit);
    let bytes = data.as_bytes();
    let palette = build_palette(&pixels);
    assert_eq!(bytes.len(), 12);
    // the last row's two filler bytes are not needed; every shorter stream fails
    for keep in 0..bytes.len() + 1 {
        let result = unpack(&bytes[..keep], 10, 3, BitDepth::Color2Bit, &palette);
        if keep >= 10 {
            assert_eq!(result, Ok(pixels.clone()));
        } else {
            assert_eq!(
                result,
                Err(indexed_bitmap::error::BitDataError::TruncatedStreamError)
            );
        }
    }
}
