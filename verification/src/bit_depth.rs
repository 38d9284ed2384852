use vstd::prelude::*;

verus! {

/// The number of bits that one pixel occupies in packed form.
#[derive(Clone, Copy, Debug, PartialEq, Eq, Structural)]
pub enum BitDepth {
    /// One bit per pixel: two colours, eight pixels in a byte.
    Color2Bit,
    /// Four bits per pixel: sixteen colours, two pixels in a byte.
    Color16Bit,
    /// Eight bits per pixel: 256 colours, one pixel in a byte.
    Color256Bit,
}

impl BitDepth {
    /// Bits per pixel.
    pub open spec fn step(self) -> int {
        match self {
            BitDepth::Color2Bit => 1,
            BitDepth::Color16Bit => 4,
            BitDepth::Color256Bit => 8,
        }
    }

    /// Pixels that share one byte: `8 / step`.
    pub open spec fn pixels_per_byte(self) -> int {
        match self {
            BitDepth::Color2Bit => 8,
            BitDepth::Color16Bit => 2,
            BitDepth::Color256Bit => 1,
        }
    }

    /// Number of palette entries that a pixel can name: `2^step`.
    pub open spec fn max_colors(self) -> int {
        match self {
            BitDepth::Color2Bit => 2,
            BitDepth::Color16Bit => 16,
            BitDepth::Color256Bit => 256,
        }
    }

    /// The depth with the given number of bits per pixel, if there is one.
    pub fn from_bits(bits: u32) -> (depth: Option<BitDepth>)
        ensures
            match depth {
                Some(d) => d.step() == bits,
                None => bits != 1 && bits != 4 && bits != 8,
            },
    {
        if bits == 1 {
            Some(BitDepth::Color2Bit)
        } else if bits == 4 {
            Some(BitDepth::Color16Bit)
        } else if bits == 8 {
            Some(BitDepth::Color256Bit)
        } else {
            None
        }
    }

    /// Bits per pixel.
    pub fn get_step_counter(&self) -> (bits: u32)
        ensures
            bits == self.step(),
    {
        match self {
            BitDepth::Color2Bit => 1,
            BitDepth::Color16Bit => 4,
            BitDepth::Color256Bit => 8,
        }
    }

    /// Pixels that share one byte.
    pub fn get_pixels_per_byte(&self) -> (count: u32)
        ensures
            count == self.pixels_per_byte(),
    {
        match self {
            BitDepth::Color2Bit => 8,
            BitDepth::Color16Bit => 2,
            BitDepth::Color256Bit => 1,
        }
    }

    /// Number of palette entries that a pixel can name.
    pub fn get_max_colors(&self) -> (count: usize)
        ensures
            count == self.max_colors(),
    {
        match self {
            BitDepth::Color2Bit => 2,
            BitDepth::Color16Bit => 16,
            BitDepth::Color256Bit => 256,
        }
    }
}

} // verus!
