//! Pixel data in packed form, together with what is needed to read it: the
//! image's dimensions, its bit depth and its palette.

use crate::bit_depth::BitDepth;
use crate::error::BitDataError;
use crate::file_header::FileHeader;
use crate::image::BitMap;
use crate::info_header::InfoHeader;
use crate::packer::{pack_indices, packed_bytes};
use crate::palette::{
    build_palette, color_index, color_indices, distinct_colors, lemma_pixel_in_palette,
    palette_of, position_of,
};
use crate::rgb_quad::RgbQuad;
use crate::rgba::Rgba;
use crate::round_trip::lemma_round_trip;
use crate::unpacker::{unpack, unpacked};
use vstd::prelude::*;

verus! {

/// The packed pixel data of an image with a bit depth of 1, 4 or 8: each
/// pixel is stored as the index of its colour in `colors`.
#[derive(Debug)]
pub struct BitData {
    width: u32,
    height: u32,
    colors: Vec<Rgba>,
    bytes: Vec<u8>,
    bit_depth: BitDepth,
}

/// The palette index of every pixel. Every pixel must have a position in the
/// palette, and one that fits in a byte.
fn resolve_pixels(pixels: &[Rgba], palette: &[Rgba]) -> (indices: Vec<u8>)
    requires
        forall|i: int| 0 <= i < pixels@.len() ==> position_of(palette@, pixels@[i]) < 256,
        forall|i: int| 0 <= i < pixels@.len() ==> palette@.contains(pixels@[i]),
    ensures
        indices@ == color_indices(pixels@, palette@),
{
    let mut indices: Vec<u8> = Vec::new();
    let mut i: usize = 0;
    while i < pixels.len()
        invariant
            i <= pixels@.len(),
            indices@.len() == i,
            forall|j: int| 0 <= j < pixels@.len() ==> position_of(palette@, pixels@[j]) < 256,
            forall|j: int| 0 <= j < pixels@.len() ==> palette@.contains(pixels@[j]),
            forall|j: int| 0 <= j < i ==> indices@[j] == position_of(palette@, pixels@[j]) as u8,
        decreases pixels@.len() - i,
    {
        match color_index(palette, pixels[i]) {
            Ok(at) => {
                indices.push(at as u8);
            },
            Err(_) => {
                proof {
                    assert(palette@.contains(pixels@[i as int]));
                }
            },
        }
        i += 1;
    }
    proof {
        assert(indices@ =~= color_indices(pixels@, palette@));
    }
    indices
}

impl BitData {
    /// Pixels in a row.
    pub closed spec fn width(&self) -> u32 {
        self.width
    }

    /// Number of rows.
    pub closed spec fn height(&self) -> u32 {
        self.height
    }

    /// Bits per pixel.
    pub closed spec fn bit_depth(&self) -> BitDepth {
        self.bit_depth
    }

    /// The palette that the packed indices refer to.
    pub closed spec fn colors(&self) -> Seq<Rgba> {
        self.colors@
    }

    /// The packed bytes.
    pub closed spec fn bytes(&self) -> Seq<u8> {
        self.bytes@
    }

    /// Takes packed pixel data from the bytes of an image file.
    ///
    /// The data is everything in `bit_stream` from the offset that the file
    /// header gives, and nothing if the offset lies beyond the end. The
    /// dimensions come from the information header, the palette from the
    /// colour table.
    pub fn stream(
        bit_stream: &[u8],
        file: &FileHeader,
        info: &InfoHeader,
        bit_depth: BitDepth,
        colors: &RgbQuad,
    ) -> (data: BitData)
        ensures
            data.width() == info.width(),
            data.height() == info.height(),
            data.bit_depth() == bit_depth,
            data.colors() == colors.colors(),
            file.off_bits() <= bit_stream@.len() ==> data.bytes() == bit_stream@.skip(
                file.off_bits() as int,
            ),
            file.off_bits() > bit_stream@.len() ==> data.bytes() == Seq::<u8>::empty(),
    {
        let offset: usize = file.get_off_bits() as usize;
        let mut bytes: Vec<u8> = Vec::new();
        let mut index: usize = offset;
        while index < bit_stream.len()
            invariant
                offset <= index,
                index <= bit_stream@.len() || index == offset,
                offset <= bit_stream@.len() ==> bytes@ == bit_stream@.subrange(
                    offset as int,
                    index as int,
                ),
                offset > bit_stream@.len() ==> bytes@ == Seq::<u8>::empty(),
            decreases bit_stream@.len() - index,
        {
            bytes.push(bit_stream[index]);
            proof {
                assert(bit_stream@.subrange(offset as int, index + 1) =~= bit_stream@.subrange(
                    offset as int,
                    index as int,
                ).push(bit_stream@[index as int]));
            }
            index += 1;
        }
        BitData {
            width: info.get_width(),
            height: info.get_height(),
            bit_depth,
            colors: colors.clone_colors(),
            bytes,
        }
    }

    /// Packs an image.
    ///
    /// The palette is that of the image: its distinct colours in the order in
    /// which they first occur, then black. Every pixel is stored as the index
    /// of its colour in that palette, so the image may hold no more distinct
    /// colours than `bit_depth` can name. Unpacking the result gives the
    /// image back.
    pub fn from_bitmap(bitmap: &BitMap, bit_depth: BitDepth) -> (data: BitData)
        requires
            distinct_colors(bitmap.pixels()).len() <= bit_depth.max_colors(),
        ensures
            data.width() == bitmap.width(),
            data.height() == bitmap.height(),
            data.bit_depth() == bit_depth,
            data.colors() == palette_of(bitmap.pixels()),
            data.bytes() == packed_bytes(
                color_indices(bitmap.pixels(), palette_of(bitmap.pixels())),
                bitmap.width() as int,
                bitmap.height() as int,
                bit_depth,
            ),
            unpacked(
                data.bytes(),
                data.width() as int,
                data.height() as int,
                data.bit_depth(),
                data.colors(),
            ) == Ok::<Seq<Rgba>, BitDataError>(bitmap.pixels()),
    {
        let width: u32 = bitmap.get_width();
        let height: u32 = bitmap.get_height();
        let pixels = bitmap.get_pixels();
        let colors = build_palette(pixels.as_slice());
        proof {
            assert forall|i: int| 0 <= i < pixels@.len() implies position_of(colors@, pixels@[i])
                < bit_depth.max_colors() && colors@.contains(pixels@[i]) by {
                lemma_pixel_in_palette(pixels@, i);
            }
            lemma_round_trip(pixels@, width as int, height as int, bit_depth);
        }
        let indices = resolve_pixels(pixels.as_slice(), colors.as_slice());
        proof {
            assert forall|i: int| 0 <= i < indices@.len() implies indices@[i]
                < bit_depth.max_colors() by {
                lemma_pixel_in_palette(pixels@, i);
            }
        }
        let bytes = pack_indices(indices.as_slice(), width, height, bit_depth);
        BitData { width, height, bit_depth, colors, bytes }
    }

    /// A copy of the packed bytes.
    pub fn as_bytes(&self) -> (bytes: Vec<u8>)
        ensures
            bytes@ == self.bytes(),
    {
        self.bytes.clone()
    }

    /// Unpacks the pixels: `width * height` of them, in row-major order, each
    /// the palette entry that the packed data names for it.
    ///
    /// Fails with `TruncatedStreamError` where the packed data is too short
    /// for the image, and otherwise with `DecodeError` where a pixel names no
    /// entry of the palette.
    pub fn as_rgba(&self) -> (pixels: Result<Vec<Rgba>, BitDataError>)
        ensures
            match pixels {
                Ok(buffer) => unpacked(
                    self.bytes(),
                    self.width() as int,
                    self.height() as int,
                    self.bit_depth(),
                    self.colors(),
                ) == Ok::<Seq<Rgba>, BitDataError>(buffer@),
                Err(e) => unpacked(
                    self.bytes(),
                    self.width() as int,
                    self.height() as int,
                    self.bit_depth(),
                    self.colors(),
                ) == Err::<Seq<Rgba>, BitDataError>(e),
            },
    {
        unpack(
            self.bytes.as_slice(),
            self.width,
            self.height,
            self.bit_depth,
            self.colors.as_slice(),
        )
    }

    /// Number of packed bytes.
    pub fn len(&self) -> (count: usize)
        ensures
            count == self.bytes().len(),
    {
        self.bytes.len()
    }

    /// Number of packed bytes as the 32-bit size field of an image file holds
    /// it: the count modulo `2^32`.
    pub fn get_bytes_size(&self) -> (size: u32)
        ensures
            size == self.bytes().len() % 0x1_0000_0000,
    {
        ((self.bytes.len() as u64) % 0x1_0000_0000) as u32
    }
}

} // verus!
