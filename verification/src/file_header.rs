use vstd::prelude::*;

verus! {

/// What the packer needs from an image file's leading header: where in the
/// file the pixel data begins.
#[derive(Clone, Copy, Debug)]
pub struct FileHeader {
    off_bits: u32,
}

impl FileHeader {
    /// The offset, in bytes from the start of the file, of the pixel data.
    pub closed spec fn off_bits(&self) -> u32 {
        self.off_bits
    }

    /// A header that places the pixel data at byte `off_bits` of the file.
    pub fn new(off_bits: u32) -> (header: FileHeader)
        ensures
            header.off_bits() == off_bits,
    {
        FileHeader { off_bits }
    }

    /// The offset, in bytes from the start of the file, of the pixel data.
    pub fn get_off_bits(&self) -> (offset: u32)
        ensures
            offset == self.off_bits(),
    {
        self.off_bits
    }
}

} // verus!
