use vstd::prelude::*;

verus! {

/// The ways in which a conversion can fail. A failed conversion yields nothing
/// else: no partial pixel buffer and no partial byte stream.
#[derive(Clone, Copy, Debug, PartialEq, Eq, Structural)]
pub enum BitDataError {
    /// A colour was looked up in a palette that does not hold it.
    LookupError,
    /// The packed stream names a palette entry that does not exist. `pixel` is
    /// the position, in row-major order, of the first pixel for which it does.
    DecodeError { pixel: u64 },
    /// The packed stream ends before all pixels of the image have been read.
    TruncatedStreamError,
}

} // verus!
