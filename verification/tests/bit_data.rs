use indexed_bitmap::bit_data::BitData;
use indexed_bitmap::bit_depth::BitDepth;
use indexed_bitmap::error::BitDataError;
use indexed_bitmap::file_header::FileHeader;
use indexed_bitmap::image::BitMap;
use indexed_bitmap::info_header::InfoHeader;
use indexed_bitmap::rgb_quad::RgbQuad;
use indexed_bitmap::rgba::Rgba;

fn red() -> Rgba {
    Rgba::rgba(255, 0, 0, 255)
}

fn blue() -> Rgba {
    Rgba::rgba(0, 0, 255, 255)
}

fn white() -> Rgba {
    Rgba::rgba(255, 255, 255, 255)
}

#[test]
fn bitmap_needs_one_pixel_per_cell() {
    assert!(BitMap::create(2, 2, vec![red(); 4]).is_some());
    assert!(BitMap::create(2, 2, vec![red(); 3]).is_none());
    assert!(BitMap::create(2, 2, vec![red(); 5]).is_none());
    assert!(BitMap::create(0, 9, vec![]).is_some());
    assert!(BitMap::create(0, 9, vec![red()]).is_none());
    assert!(BitMap::create(u32::MAX, u32::MAX, vec![red()]).is_none());
}

#[test]
fn bitmap_hands_back_what_it_was_made_of() {
    let pixels = vec![red(), blue(), blue(), white(), red(), red()];
    let bitmap = BitMap::create(3, 2, pixels.clone()).unwrap();
    assert_eq!(bitmap.get_width(), 3);
    assert_eq!(bitmap.get_height(), 2);
    assert_eq!(bitmap.get_pixels(), &pixels);
    assert_eq!(bitmap.get_all_unique_colors(), vec![red(), blue(), white()]);
}

#[test]
fn headers_and_color_table_hand_back_their_values() {
    assert_eq!(FileHeader::new(54).get_off_bits(), 54);
    let info = InfoHeader::new(640, 480);
    assert_eq!(info.get_width(), 640);
    assert_eq!(info.get_height(), 480);
    let table = RgbQuad::new(vec![red(), blue()]);
    assert_eq!(table.len(), 2);
    assert_eq!(table.clone_colors(), vec![red(), blue()]);
    assert_eq!(RgbQuad::new(vec![]).clone_colors(), Vec::<Rgba>::new());
}

#[test]
fn single_black_pixel_packs_to_four_zero_bytes() {
    let bitmap = BitMap::create(1, 1, vec![Rgba::black()]).unwrap();
    let data = BitData::from_bitmap(&bitmap, BitDepth::Color256Bit);
    assert_eq!(data.as_bytes(), vec![0x00, 0x00, 0x00, 0x00]);
    assert_eq!(data.len(), 4);
    assert_eq!(data.get_bytes_size(), 4);
    assert_eq!(data.as_rgba(), Ok(vec![Rgba::black()]));
}

#[test]
fn from_bitmap_numbers_colors_by_first_occurrence() {
    // red is entry 0, blue entry 1: 0 1 0 -> 010 and five filler bits
    let bitmap = BitMap::create(3, 1, vec![red(), blue(), red()]).unwrap();
    let data = BitData::from_bitmap(&bitmap, BitDepth::Color2Bit);
    assert_eq!(data.as_bytes(), vec![0x40, 0x00, 0x00, 0x00]);
    assert_eq!(data.as_rgba(), Ok(vec![red(), blue(), red()]));
}

#[test]
fn from_bitmap_four_bit_two_rows() {
    let pixels = vec![white(), red(), blue(), blue(), red(), white()];
    let bitmap = BitMap::create(3, 2, pixels.clone()).unwrap();
    let data = BitData::from_bitmap(&bitmap, BitDepth::Color16Bit);
    // white 0, red 1, blue 2
    assert_eq!(data.as_bytes(), vec![0x01, 0x20, 0x00, 0x00, 0x21, 0x00, 0x00, 0x00]);
    assert_eq!(data.len(), 8);
    assert_eq!(data.as_rgba(), Ok(pixels));
}

#[test]
fn from_bitmap_eight_bit_row_of_ten() {
    let pixels: Vec<Rgba> = (0u8..10).map(|i| Rgba::rgba(i, 0, 0, 255)).collect();
    let bitmap = BitMap::create(10, 1, pixels.clone()).unwrap();
    let data = BitData::from_bitmap(&bitmap, BitDepth::Color256Bit);
    assert_eq!(data.as_bytes(), vec![0, 1, 2, 3, 4, 5, 6, 7, 8, 9, 0, 0]);
    assert_eq!(data.get_bytes_size(), 12);
    assert_eq!(data.as_rgba(), Ok(pixels));
}

#[test]
fn from_bitmap_of_empty_image() {
    let bitmap = BitMap::create(0, 0, vec![]).unwrap();
    let data = BitData::from_bitmap(&bitmap, BitDepth::Color2Bit);
    assert_eq!(data.as_bytes(), Vec::<u8>::new());
    assert_eq!(data.len(), 0);
    assert_eq!(data.get_bytes_size(), 0);
    assert_eq!(data.as_rgba(), Ok(vec![]));
}

#[test]
fn stream_takes_the_bytes_from_the_offset() {
    let file = FileHeader::new(3);
    let info = InfoHeader::new(1, 2);
    let table = RgbQuad::new(vec![red(), blue(), white()]);
    let stream = [0xEE, 0xEE, 0xEE, 2, 0, 0, 0, 1, 0, 0, 0];
    let data = BitData::stream(&stream, &file, &info, BitDepth::Color256Bit, &table);
    assert_eq!(data.as_bytes(), vec![2, 0, 0, 0, 1, 0, 0, 0]);
    assert_eq!(data.len(), 8);
    assert_eq!(data.get_bytes_size(), 8);
    assert_eq!(data.as_rgba(), Ok(vec![white(), blue()]));
}

#[test]
fn stream_with_offset_zero_takes_everything() {
    let file = FileHeader::new(0);
    let info = InfoHeader::new(3, 1);
    let table = RgbQuad::new(vec![red(), blue()]);
    let data = BitData::stream(&[0xA0, 0, 0, 0], &file, &info, BitDepth::Color2Bit, &table);
    assert_eq!(data.as_bytes(), vec![0xA0, 0, 0, 0]);
    assert_eq!(data.as_rgba(), Ok(vec![blue(), red(), blue()]));
}

#[test]
fn stream_with_offset_at_or_beyond_the_end_is_empty() {
    let info = InfoHeader::new(1, 1);
    let table = RgbQuad::new(vec![red()]);
    let bytes = [1, 2, 3];
    let at_end = BitData::stream(&bytes, &FileHeader::new(3), &info, BitDepth::Color256Bit, &table);
    assert_eq!(at_end.len(), 0);
    assert_eq!(at_end.as_rgba(), Err(BitDataError::TruncatedStreamError));
    let beyond =
        BitData::stream(&bytes, &FileHeader::new(900), &info, BitDepth::Color256Bit, &table);
    assert_eq!(beyond.as_bytes(), Vec::<u8>::new());
    assert_eq!(beyond.as_rgba(), Err(BitDataError::TruncatedStreamError));
}

#[test]
fn stream_with_index_outside_the_color_table() {
    let file = FileHeader::new(1);
    let info = InfoHeader::new(2, 2);
    let table = RgbQuad::new(vec![red(), blue()]);
    // rows: (1, 0) and (0, 2)
    let stream = [0xFF, 0x10, 0, 0, 0, 0x02, 0, 0, 0];
    let data = BitData::stream(&stream, &file, &info, BitDepth::Color16Bit, &table);
    assert_eq!(data.as_rgba(), Err(BitDataError::DecodeError { pixel: 3 }));
}

#[test]
fn stream_truncated_mid_row() {
    let file = FileHeader::new(0);
    let info = InfoHeader::new(10, 2);
    let table = RgbQuad::new(vec![red(), blue()]);
    let stream = [0xAA, 0xC0, 0x00, 0x00, 0x55];
    let data = BitData::stream(&stream, &file, &info, BitDepth::Color2Bit, &table);
    assert_eq!(data.as_rgba(), Err(BitDataError::TruncatedStreamError));
}
