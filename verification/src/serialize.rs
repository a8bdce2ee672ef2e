//! The error taxonomy shared by every decoder in the crate.

use vstd::prelude::*;

verus! {

/// Why a decode of recorded data failed.
///
/// These are the only error kinds deserialization surfaces anywhere in the
/// system: a writer of this crate never produces input on which they occur.
#[derive(Clone, Copy, Debug, PartialEq, Eq)]
pub enum DeserializeError {
    /// The input ended before the value did.
    UnexpectedEof,
    /// A recorded string held bytes that are not UTF-8.
    BadUTF8,
    /// A varint count does not fit in a machine word.
    CountOverflow,
    /// A pixel block names a format and data-type pair with an unimplemented
    /// pixel width.
    UnsupportedPixelFormat,
    /// A pixel block's payload disagrees with its own header.
    BadPixelData,
}

impl DeserializeError {
    /// A short description, for diagnostics.
    pub fn describe(&self) -> (r: &'static str)
        ensures
            r@.len() > 0,
    {
        let r = match self {
            DeserializeError::UnexpectedEof => "serialized method call argument data truncated",
            DeserializeError::BadUTF8 => "serialized method call argument data included bad UTF-8",
            DeserializeError::CountOverflow => "serialized count too large for this platform",
            DeserializeError::UnsupportedPixelFormat => "pixel block has an unimplemented pixel width",
            DeserializeError::BadPixelData => "pixel block payload disagrees with its header",
        };
        proof {
            reveal_strlit("serialized method call argument data truncated");
            reveal_strlit("serialized method call argument data included bad UTF-8");
            reveal_strlit("serialized count too large for this platform");
            reveal_strlit("pixel block has an unimplemented pixel width");
            reveal_strlit("pixel block payload disagrees with its header");
        }
        r
    }
}

} // verus!
