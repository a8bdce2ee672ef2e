//! Rendering pixel blocks as PNG images, for visual debugging.
//!
//! Exactly one format and pixel-type pair is supported — 8-bit-per-channel
//! RGBA — and anything else fails loudly: this is a debugging aid, not a
//! general image exporter. Encoding happens in memory; writing the bytes to
//! a file is the caller's ordinary I/O.

use vstd::prelude::*;
use crate::pixels::{Pixels, PixelsError, GL_RGBA, GL_UNSIGNED_BYTE};

verus! {

/// The PNG image of an RGBA8 pixel rectangle: a function of the pixel bytes
/// and the dimensions alone. This names what the PNG encoder returns.
pub uninterp spec fn png_bytes(data: Seq<u8>, width: u32, height: u32) -> Seq<u8>;

/// Relies on the `image` crate's PNG encoder — `PngEncoder::write_image`
/// with the `Rgba8` color type, writing into a growable buffer: the encoding
/// is a deterministic function of the pixel bytes and dimensions, here named
/// `png_bytes`. The encoder requires the buffer to hold exactly
/// four-times-width-times-height bytes; given that, writing into memory, its
/// only refusals are a zero width or height, so success is owed otherwise.
#[verifier::external_body]
fn encode_png_rgba8(data: &[u8], width: u32, height: u32) -> (r: Result<Vec<u8>, ()>)
    requires
        data@.len() == 4 * width * height,
    ensures
        r matches Ok(v) ==> v@ == png_bytes(data@, width, height),
        width > 0 && height > 0 ==> r is Ok,
{
    let mut out: Vec<u8> = Vec::new();
    let encoder = image::codecs::png::PngEncoder::new(&mut out);
    match image::ImageEncoder::write_image(
        encoder,
        data,
        width,
        height,
        image::ExtendedColorType::Rgba8,
    ) {
        Ok(()) => Ok(out),
        Err(_) => Err(()),
    }
}

impl Pixels {
    /// The PNG image of this block, for a debugging snapshot.
    ///
    /// Only the 8-bit RGBA single-layer form is implemented: anything else is
    /// refused by name, and a block whose bytes do not cover exactly its
    /// rectangle is refused rather than mis-rendered. Every non-degenerate
    /// RGBA8 rectangle is owed its image. A caller saves the returned bytes
    /// to a file.
    pub fn to_png(&self) -> (r: Result<Vec<u8>, PixelsError>)
        ensures
            self.format == GL_RGBA && self.pixel_type == GL_UNSIGNED_BYTE && self@.bytes.len() == 4
                * self@.width * self@.height && 0 < self@.width <= u32::MAX && 0 < self@.height
                <= u32::MAX ==> r is Ok,
            match r {
                Ok(v) => {
                    &&& self.format == GL_RGBA && self.pixel_type == GL_UNSIGNED_BYTE
                    &&& self@.bytes.len() == 4 * self@.width * self@.height
                    &&& v@ == png_bytes(self@.bytes, self.width as u32, self.height as u32)
                },
                Err(PixelsError::UnsupportedFormat) => !(self.format == GL_RGBA && self.pixel_type
                    == GL_UNSIGNED_BYTE),
                Err(PixelsError::SizeMismatch) => self@.bytes.len() != 4 * self@.width
                    * self@.height || self@.width > u32::MAX || self@.height > u32::MAX,
                Err(PixelsError::EncodingFailed) => {
                    &&& self.format == GL_RGBA && self.pixel_type == GL_UNSIGNED_BYTE
                    &&& self@.bytes.len() == 4 * self@.width * self@.height
                    &&& (self@.width == 0 || self@.height == 0)
                },
            },
    {
        if !(self.format == GL_RGBA && self.pixel_type == GL_UNSIGNED_BYTE) {
            return Err(PixelsError::UnsupportedFormat);
        }
        if self.width > u32::MAX as usize || self.height > u32::MAX as usize {
            return Err(PixelsError::SizeMismatch);
        }
        let blen = self.bytes.len();
        let want: Option<usize> = match self.width.checked_mul(self.height) {
            Some(p) => p.checked_mul(4),
            None => None,
        };
        proof {
            if want is None {
                assert(4 * self@.width * self@.height > usize::MAX) by (nonlinear_arith)
                    requires
                        self@.width * self@.height > usize::MAX || (self@.width * self@.height
                            <= usize::MAX && self@.width * self@.height * 4 > usize::MAX),
                        self@.width >= 0 && self@.height >= 0,
                ;
            } else {
                assert(4 * self@.width * self@.height == self@.width * self@.height * 4)
                    by (nonlinear_arith);
            }
        }
        match want {
            Some(n) => {
                if n != blen {
                    return Err(PixelsError::SizeMismatch);
                }
            },
            None => {
                return Err(PixelsError::SizeMismatch);
            },
        }
        match encode_png_rgba8(self.bytes.as_slice(), self.width as u32, self.height as u32) {
            Ok(v) => Ok(v),
            Err(_) => Err(PixelsError::EncodingFailed),
        }
    }
}

} // verus!
