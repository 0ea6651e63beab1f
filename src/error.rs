//! The ways in which decoding can fail.

use vstd::prelude::*;

verus! {

/// Why a header or a level could not be decoded.
#[derive(Debug, Clone, Copy, PartialEq, Eq, Structural)]
pub enum DecodeError {
    /// The header buffer is shorter than its fixed region.
    TooShort,
    /// A level sub-header or one of its planes reaches past the end of the data buffer.
    OutOfBounds,
    /// Reserved for structural checks of a level sub-header, such as an implausible
    /// width or height; no check of this library produces it.
    MalformedSubHeader,
}

} // verus!
