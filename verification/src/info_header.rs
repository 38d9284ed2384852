use vstd::prelude::*;

verus! {

/// What the unpacker needs from an image file's information header: the
/// image's dimensions in pixels.
#[derive(Clone, Copy, Debug)]
pub struct InfoHeader {
    width: u32,
    height: u32,
}

impl InfoHeader {
    /// Pixels in a row.
    pub closed spec fn width(&self) -> u32 {
        self.width
    }

    /// Number of rows.
    pub closed spec fn height(&self) -> u32 {
        self.height
    }

    /// A header for an image of `width` by `height` pixels.
    pub fn new(width: u32, height: u32) -> (header: InfoHeader)
        ensures
            header.width() == width,
            header.height() == height,
    {
        InfoHeader { width, height }
    }

    /// Pixels in a row.
    pub fn get_width(&self) -> (width: u32)
        ensures
            width == self.width(),
    {
        self.width
    }

    /// Number of rows.
    pub fn get_height(&self) -> (height: u32)
        ensures
            height == self.height(),
    {
        self.height
    }
}

} // verus!
