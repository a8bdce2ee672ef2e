//! Record and replay for streams of GPU drawing-interface calls.
//!
//! A recording pairs a sequence of fixed-size [`call::Call`] records with a
//! variable-length byte stream holding every buffer, string, and compressed
//! pixel block the calls refer to. This crate holds the verified core of that
//! system: the LEB128 and run-length codecs, the alignment-padded
//! variable-stream serialization, the recording header, the call
//! representation, and the replay-time validation rules.
//!
//! The wire layout is the 64-bit little-endian one: sequence counts are
//! stored as 64-bit words, and the header's word-size field records that
//! fact, so a reader whose layout differs is refused at open rather than
//! misled.

use vstd::prelude::*;

pub mod call;
pub mod file_stream;
pub mod form;
pub mod leb;
pub mod pixels;
pub mod raw;
pub mod recorder;
pub mod replay;
pub mod rle;
pub mod serialize;
pub mod swgl;
pub mod var;
pub mod write_image;

verus! {

/// The four ASCII bytes of a magic number packed into one 32-bit word,
/// high byte first.
pub open spec fn spec_pack_magic(a: u8, b: u8, c: u8, d: u8) -> u32 {
    (((a as u32) << 24) | ((b as u32) << 16) | ((c as u32) << 8) | (d as u32)) as u32
}

/// Pack four ASCII bytes into a 32-bit magic number, high byte first.
pub fn pack_magic(a: u8, b: u8, c: u8, d: u8) -> (r: u32)
    ensures
        r == spec_pack_magic(a, b, c, d),
{
    (((a as u32) << 24) | ((b as u32) << 16) | ((c as u32) << 8) | (d as u32)) as u32
}

/// The magic number that identifies a generic drawing-interface recording:
/// the packing of the ASCII bytes `GLRR`.
pub fn gl_magic() -> (r: u32)
    ensures
        r == spec_pack_magic(71, 76, 82, 82),
{
    pack_magic(71, 76, 82, 82)
}

/// The magic number that identifies a software-rasterizer recording:
/// the packing of the ASCII bytes `SWGR`.
pub fn swgr_magic() -> (r: u32)
    ensures
        r == spec_pack_magic(83, 87, 71, 82),
{
    pack_magic(83, 87, 71, 82)
}

} // verus!
