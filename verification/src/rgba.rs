use vstd::prelude::*;

verus! {

/// A colour with four 8-bit channels. Two colours are equal when all four
/// channels are equal.
#[derive(Clone, Copy, Debug, PartialEq, Eq, Structural)]
pub struct Rgba {
    pub red: u8,
    pub green: u8,
    pub blue: u8,
    pub alpha: u8,
}

impl Rgba {
    /// The colour whose four channels are all zero.
    pub open spec fn spec_black() -> Rgba {
        Rgba { red: 0, green: 0, blue: 0, alpha: 0 }
    }

    /// Builds a colour from its four channels.
    pub fn rgba(red: u8, green: u8, blue: u8, alpha: u8) -> (color: Rgba)
        ensures
            color == (Rgba { red, green, blue, alpha }),
    {
        Rgba { red, green, blue, alpha }
    }

    /// Black: every channel is zero. This is the colour that closes every
    /// palette built from an image.
    #[verifier::when_used_as_spec(spec_black)]
    pub fn black() -> (color: Rgba)
        ensures
            color == Rgba::spec_black(),
    {
        Rgba { red: 0, green: 0, blue: 0, alpha: 0 }
    }
}

} // verus!
