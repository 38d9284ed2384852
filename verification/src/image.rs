use crate::palette::{distinct_colors, unique_colors};
use crate::rgba::Rgba;
use vstd::prelude::*;

verus! {

/// An image in memory: `width * height` pixels in row-major order.
#[derive(Debug)]
pub struct BitMap {
    width: u32,
    height: u32,
    pixels: Vec<Rgba>,
}

impl BitMap {
    /// There is exactly one pixel for every column of every row.
    #[verifier::type_invariant]
    spec fn complete(self) -> bool {
        self.pixels@.len() == self.width * self.height
    }

    /// Pixels in a row.
    pub closed spec fn width(&self) -> u32 {
        self.width
    }

    /// Number of rows.
    pub closed spec fn height(&self) -> u32 {
        self.height
    }

    /// The pixels, row after row.
    pub closed spec fn pixels(&self) -> Seq<Rgba> {
        self.pixels@
    }

    /// An image of `width` by `height` pixels, or nothing if `pixels` does not
    /// hold exactly `width * height` of them.
    pub fn create(width: u32, height: u32, pixels: Vec<Rgba>) -> (image: Option<BitMap>)
        ensures
            image is Some <==> pixels@.len() == width * height,
            image matches Some(bitmap) ==> bitmap.width() == width && bitmap.height() == height
                && bitmap.pixels() == pixels@,
    {
        proof {
            assert(width * height <= 0xffff_ffff * 0xffff_ffff) by (nonlinear_arith)
                requires
                    width <= 0xffff_ffff,
                    height <= 0xffff_ffff,
            ;
        }
        let expected: u64 = (width as u64) * (height as u64);
        if pixels.len() as u64 == expected {
            Some(BitMap { width, height, pixels })
        } else {
            None
        }
    }

    /// Pixels in a row.
    pub fn get_width(&self) -> (width: u32)
        ensures
            width == self.width(),
    {
        self.width
    }

    /// Number of rows.
    pub fn get_height(&self) -> (height: u32)
        ensures
            height == self.height(),
    {
        self.height
    }

    /// The pixels, row after row: `width * height` of them.
    pub fn get_pixels(&self) -> (pixels: &Vec<Rgba>)
        ensures
            pixels@ == self.pixels(),
            pixels@.len() == self.width() * self.height(),
    {
        proof {
            use_type_invariant(self);
        }
        &self.pixels
    }

    /// The colours of the image, each once, in the order in which the image
    /// first shows them.
    pub fn get_all_unique_colors(&self) -> (colors: Vec<Rgba>)
        ensures
            colors@ == distinct_colors(self.pixels()),
    {
        unique_colors(self.pixels.as_slice())
    }
}

} // verus!
