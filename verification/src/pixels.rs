//! Serializing and deserializing blocks of pixels.
//!
//! A pixel block is a rectangular region of up to three dimensions with a
//! drawing-interface format and pixel-data-type pair. Its serialized form is
//! four-byte aligned: width, height, depth, format, pixel type, and the
//! compressed payload length, each as a LEB128 varint, followed by the
//! run-length-compressed payload — re-aligned to four bytes first when the
//! pixels are four bytes wide, so that the payload can be handled as words.
//!
//! Only one-byte and four-byte pixels are implemented; other widths are an
//! acknowledged gap and fail explicitly rather than silently.

use vstd::prelude::*;
use crate::leb::{leb_at, leb_bytes, leb_read, leb_write, lemma_leb_at};
use crate::raw::Simple;
use crate::rle;
use crate::serialize::DeserializeError;
use crate::var::{align_for, elems_bytes, lemma_elems_bytes_index, lemma_elems_bytes_len,
    lemma_elems_bytes_push, lemma_pad, pad_bytes, pad_len, Stream};

verus! {

/// The pixel formats the codec understands, as the drawing interface numbers
/// them.
pub const GL_DEPTH_COMPONENT: u32 = 0x1902;
/// Single red channel.
pub const GL_RED: u32 = 0x1903;
/// Single alpha channel.
pub const GL_ALPHA: u32 = 0x1906;
/// Red, green, blue.
pub const GL_RGB: u32 = 0x1907;
/// Red, green, blue, alpha.
pub const GL_RGBA: u32 = 0x1908;
/// Single luminance channel.
pub const GL_LUMINANCE: u32 = 0x1909;
/// Blue, green, red.
pub const GL_BGR: u32 = 0x80E0;
/// Blue, green, red, alpha.
pub const GL_BGRA: u32 = 0x80E1;
/// Single 16-bit red channel.
pub const GL_R16: u32 = 0x822A;

/// The pixel data types the codec understands.
pub const GL_UNSIGNED_BYTE: u32 = 0x1401;
/// Signed 16-bit components.
pub const GL_SHORT: u32 = 0x1402;
/// Unsigned 16-bit components.
pub const GL_UNSIGNED_SHORT: u32 = 0x1403;
/// 32-bit float components.
pub const GL_FLOAT: u32 = 0x1406;
/// One packed 32-bit value per pixel.
pub const GL_UNSIGNED_INT_8_8_8_8_REV: u32 = 0x8367;

/// How many bytes one pixel of the given format and data type occupies: the
/// channel count times the component width, or one word for packed types.
/// Unknown combinations get nothing.
pub open spec fn spec_bytes_per_pixel(format: u32, pixel_type: u32) -> Option<nat> {
    let colors: Option<nat> = if format == GL_RED || format == GL_ALPHA || format == GL_R16
        || format == GL_LUMINANCE || format == GL_DEPTH_COMPONENT {
        Some(1nat)
    } else if format == GL_RGB || format == GL_BGR {
        Some(3nat)
    } else if format == GL_RGBA || format == GL_BGRA {
        Some(4nat)
    } else {
        None
    };
    if pixel_type == GL_UNSIGNED_INT_8_8_8_8_REV {
        if colors is Some {
            Some(4nat)
        } else {
            None
        }
    } else {
        let depth: Option<nat> = if pixel_type == GL_UNSIGNED_BYTE {
            Some(1nat)
        } else if pixel_type == GL_UNSIGNED_SHORT || pixel_type == GL_SHORT {
            Some(2nat)
        } else if pixel_type == GL_FLOAT {
            Some(4nat)
        } else {
            None
        };
        match (colors, depth) {
            (Some(c), Some(d)) => Some(c * d),
            _ => None,
        }
    }
}

/// Bytes per pixel for a format and data-type pair, as the drawing interface
/// sizes pixel transfers; unknown combinations get `None` rather than a
/// fault.
pub fn calculate_bytes_per_pixel(format: u32, pixel_type: u32) -> (r: Option<usize>)
    ensures
        match r {
            Some(n) => spec_bytes_per_pixel(format, pixel_type) == Some(n as nat),
            None => spec_bytes_per_pixel(format, pixel_type) is None,
        },
{
    let colors: usize = if format == GL_RED || format == GL_ALPHA || format == GL_R16 || format
        == GL_LUMINANCE || format == GL_DEPTH_COMPONENT {
        1
    } else if format == GL_RGB || format == GL_BGR {
        3
    } else if format == GL_RGBA || format == GL_BGRA {
        4
    } else {
        0
    };
    if pixel_type == GL_UNSIGNED_INT_8_8_8_8_REV {
        if colors != 0 {
            return Some(4);
        }
        return None;
    }
    if colors == 0 {
        return None;
    }
    let depth: usize = if pixel_type == GL_UNSIGNED_BYTE {
        1
    } else if pixel_type == GL_UNSIGNED_SHORT || pixel_type == GL_SHORT {
        2
    } else if pixel_type == GL_FLOAT {
        4
    } else {
        0
    };
    if depth == 0 {
        return None;
    }
    Some(colors * depth)
}

/// The byte length of a pixel-transfer block of the given dimensions, as the
/// drawing interface computes it: bytes per pixel times width, height, and
/// depth. `None` for unknown formats, negative dimensions, or a size this
/// platform cannot address.
pub open spec fn spec_calculate_length(
    width: int,
    height: int,
    depth: int,
    format: u32,
    pixel_type: u32,
) -> Option<nat> {
    match spec_bytes_per_pixel(format, pixel_type) {
        None => None,
        Some(b) => {
            if width < 0 || height < 0 || depth < 0 {
                None
            } else {
                let n = b * width * height * depth;
                if b * width > usize::MAX || b * width * height > usize::MAX || n > usize::MAX {
                    None
                } else {
                    Some(n as nat)
                }
            }
        },
    }
}

/// [`spec_calculate_length`], executably.
pub fn calculate_length(width: i32, height: i32, depth: i32, format: u32, pixel_type: u32) -> (r:
    Option<usize>)
    ensures
        match r {
            Some(n) => spec_calculate_length(
                width as int,
                height as int,
                depth as int,
                format,
                pixel_type,
            ) == Some(n as nat),
            None => spec_calculate_length(
                width as int,
                height as int,
                depth as int,
                format,
                pixel_type,
            ) is None,
        },
{
    let b = match calculate_bytes_per_pixel(format, pixel_type) {
        Some(b) => b,
        None => {
            return None;
        },
    };
    if width < 0 || height < 0 || depth < 0 {
        return None;
    }
    let p1 = match b.checked_mul(width as usize) {
        Some(p) => p,
        None => {
            return None;
        },
    };
    let p2 = match p1.checked_mul(height as usize) {
        Some(p) => p,
        None => {
            return None;
        },
    };
    match p2.checked_mul(depth as usize) {
        Some(p) => Some(p),
        None => None,
    }
}

/// A deserialized block of pixels: its dimensions in pixels, its format and
/// pixel-data-type pair, and the uncompressed bytes, owned.
#[derive(Clone, Debug)]
pub struct Pixels {
    /// Width of the block, in pixels.
    pub width: usize,
    /// Height of the block, in pixels.
    pub height: usize,
    /// Depth of the block, in pixels.
    pub depth: usize,
    /// The pixel format, as for a pixel-readback call.
    pub format: u32,
    /// The pixel data type, as for a pixel-readback call.
    pub pixel_type: u32,
    /// The pixel content, uncompressed.
    pub bytes: Vec<u8>,
}

/// The mathematical image of a pixel block.
pub struct PixelsView {
    /// Width in pixels.
    pub width: nat,
    /// Height in pixels.
    pub height: nat,
    /// Depth in pixels.
    pub depth: nat,
    /// The pixel format.
    pub format: u32,
    /// The pixel data type.
    pub pixel_type: u32,
    /// The uncompressed pixel bytes.
    pub bytes: Seq<u8>,
}

impl View for Pixels {
    type V = PixelsView;

    open spec fn view(&self) -> PixelsView {
        PixelsView {
            width: self.width as nat,
            height: self.height as nat,
            depth: self.depth as nat,
            format: self.format,
            pixel_type: self.pixel_type,
            bytes: self.bytes@,
        }
    }
}

/// The serialization form for `Pixels`, as a typed-offset marker.
#[derive(Clone, Copy, Debug)]
pub struct PixelsForm;

/// The words a four-byte-per-pixel byte string spells, little-endian.
pub open spec fn words_of_bytes(s: Seq<u8>) -> Seq<u32> {
    Seq::new((s.len() / 4) as nat, |i: int| <u32 as Simple>::from_byte_seq(s.subrange(4 * i, 4 * i + 4)))
}

/// Word bytes read back as words give the words again.
pub proof fn lemma_words_of_elems(ws: Seq<u32>)
    ensures
        words_of_bytes(elems_bytes(ws)) == ws,
{
    lemma_elems_bytes_len(ws);
    let s = elems_bytes(ws);
    assert(s.len() == ws.len() * 4);
    assert(s.len() / 4 == ws.len()) by (nonlinear_arith)
        requires s.len() == ws.len() * 4;
    assert forall|i: int| 0 <= i < ws.len() implies words_of_bytes(s)[i] == ws[i] by {
        lemma_elems_bytes_index(ws, i);
        assert(4 * i == i * 4) by (nonlinear_arith);
        assert(s.subrange(i * 4, i * 4 + 4) == ws[i].to_byte_seq());
        ws[i].lemma_bytes_round_trip();
    }
    assert(words_of_bytes(s) =~= ws);
}

/// Four little-endian bytes survive the trip through a word.
proof fn lemma_u32_chunk_round_trip(s: Seq<u8>)
    requires
        s.len() == 4,
    ensures
        <u32 as Simple>::from_byte_seq(s).to_byte_seq() == s,
{
    let b0 = s[0];
    let b1 = s[1];
    let b2 = s[2];
    let b3 = s[3];
    let x = <u32 as Simple>::from_byte_seq(s);
    assert(((b0 as u32) | ((b1 as u32) << 8) | ((b2 as u32) << 16) | ((b3 as u32) << 24)) & 0xff
        == b0 as u32) by (bit_vector);
    assert((((b0 as u32) | ((b1 as u32) << 8) | ((b2 as u32) << 16) | ((b3 as u32) << 24)) >> 8)
        & 0xff == b1 as u32) by (bit_vector);
    assert((((b0 as u32) | ((b1 as u32) << 8) | ((b2 as u32) << 16) | ((b3 as u32) << 24)) >> 16)
        & 0xff == b2 as u32) by (bit_vector);
    assert((((b0 as u32) | ((b1 as u32) << 8) | ((b2 as u32) << 16) | ((b3 as u32) << 24)) >> 24)
        & 0xff == b3 as u32) by (bit_vector);
    assert(x.to_byte_seq() =~= s);
}

/// A whole-number-of-words byte string survives the trip through words.
pub proof fn lemma_elems_of_words(s: Seq<u8>)
    requires
        s.len() % 4 == 0,
    ensures
        elems_bytes(words_of_bytes(s)) == s,
    decreases s.len(),
{
    let ws = words_of_bytes(s);
    if s.len() == 0 {
        assert(elems_bytes(ws) =~= s);
    } else {
        vstd::arithmetic::div_mod::lemma_fundamental_div_mod(s.len() as int, 4);
        assert(s.len() >= 4);
        let tail = s.skip(4);
        assert(tail.len() % 4 == 0) by {
            assert(tail.len() == s.len() - 4);
            vstd::arithmetic::div_mod::lemma_mod_sub_multiples_vanish(s.len() as int, 4);
        }
        lemma_elems_of_words(tail);
        assert(ws.len() >= 1) by {
            assert(s.len() / 4 >= 1);
        }
        assert(ws[0] == <u32 as Simple>::from_byte_seq(s.subrange(0, 4)));
        lemma_u32_chunk_round_trip(s.subrange(0, 4));
        assert(ws.skip(1) =~= words_of_bytes(tail)) by {
            assert forall|i: int| 0 <= i < ws.len() - 1 implies ws.skip(1)[i] == words_of_bytes(
                tail,
            )[i] by {
                assert(ws.skip(1)[i] == ws[i + 1]);
                assert(s.subrange(4 * (i + 1), 4 * (i + 1) + 4) =~= tail.subrange(4 * i, 4 * i + 4));
            }
            assert(tail.len() / 4 == ws.len() - 1);
        }
        assert(elems_bytes(ws) == ws[0].to_byte_seq() + elems_bytes(ws.skip(1)));
        assert(elems_bytes(ws) =~= s);
    }
}

/// Turn a whole-number-of-words byte slice into its words.
pub fn bytes_to_words(s: &[u8]) -> (r: Vec<u32>)
    requires
        s@.len() % 4 == 0,
    ensures
        r@ == words_of_bytes(s@),
{
    let len = s.len();
    let count = len / 4;
    let mut r: Vec<u32> = Vec::new();
    let mut i: usize = 0;
    while i < count
        invariant
            i <= count,
            count == s@.len() / 4,
            s@.len() % 4 == 0,
            len == s@.len(),
            r@.len() == i,
            forall|k: int| 0 <= k < i ==> r@[k] == words_of_bytes(s@)[k],
        decreases count - i,
    {
        proof {
            assert(4 * (i + 1) <= 4 * count) by (nonlinear_arith) requires i + 1 <= count;
            assert(4 * count <= s@.len()) by {
                vstd::arithmetic::div_mod::lemma_fundamental_div_mod(s@.len() as int, 4);
            }
            assert(4 * i + 4 == 4 * (i + 1)) by (nonlinear_arith);
        }
        let w = <u32 as Simple>::read_at(s, 4 * i);
        proof {
            assert(s@.subrange(4 * i, 4 * i + <u32 as Simple>::byte_len() as int) == s@.subrange(
                4 * i,
                4 * i + 4,
            ));
        }
        r.push(w);
        i = i + 1;
    }
    proof {
        assert(r@ =~= words_of_bytes(s@));
    }
    r
}

/// Turn words into their bytes, little-endian.
pub fn words_to_bytes(ws: &[u32]) -> (r: Vec<u8>)
    ensures
        r@ == elems_bytes(ws@),
{
    let len = ws.len();
    let mut r: Vec<u8> = Vec::new();
    let mut i: usize = 0;
    while i < len
        invariant
            i <= len,
            len == ws@.len(),
            r@ == elems_bytes(ws@.take(i as int)),
        decreases len - i,
    {
        proof {
            assert(ws@.take(i + 1) =~= ws@.take(i as int).push(ws@[i as int]));
            lemma_elems_bytes_push(ws@.take(i as int), ws@[i as int]);
        }
        let w = ws[i];
        w.push_bytes(&mut r);
        i = i + 1;
    }
    assert(ws@.take(len as int) =~= ws@);
    r
}


/// Why a pixel block could not be serialized: an unimplemented pixel width,
/// or bytes that do not match the declared dimensions.
#[derive(Clone, Copy, Debug, PartialEq, Eq, Structural)]
pub enum PixelsError {
    /// Only one-byte and four-byte pixels are implemented.
    UnsupportedFormat,
    /// The byte count does not equal bytes-per-pixel times the dimensions.
    SizeMismatch,
    /// The image encoder declined; nothing was produced.
    EncodingFailed,
}

/// The full wire image of a pixel block written at offset `pos`: padding to a
/// four-byte boundary, the five header varints and the compressed length, and
/// the run-length payload — via the byte path for one-byte pixels, via the
/// word path (after re-aligning) for four-byte pixels.
pub open spec fn pixels_encoding(pos: nat, p: PixelsView) -> Seq<u8> {
    let p1 = pad_bytes(pos, 4);
    let head = leb_bytes(p.width) + leb_bytes(p.height) + leb_bytes(p.depth) + leb_bytes(
        p.format as nat,
    ) + leb_bytes(p.pixel_type as nat);
    let comp = pixels_comp(p);
    match spec_bytes_per_pixel(p.format, p.pixel_type) {
        Some(b) => {
            if b == 1 {
                p1 + head + leb_bytes(comp.len()) + comp
            } else if b == 4 {
                let head2 = head + leb_bytes(comp.len());
                let pos2 = pos + p1.len() + head2.len();
                p1 + head2 + pad_bytes(pos2, 4) + comp
            } else {
                Seq::empty()
            }
        },
        None => Seq::empty(),
    }
}

/// The compressed payload a block serializes: the byte path for one-byte
/// pixels, the word path for four-byte pixels.
pub open spec fn pixels_comp(p: PixelsView) -> Seq<u8> {
    match spec_bytes_per_pixel(p.format, p.pixel_type) {
        Some(b) => {
            if b == 1 {
                rle::rle_encode::<u8>(p.bytes)
            } else if b == 4 {
                elems_bytes(rle::rle_encode::<u32>(words_of_bytes(p.bytes)))
            } else {
                Seq::empty()
            }
        },
        None => Seq::empty(),
    }
}

/// What a pixel-block read finds at offset `pos` of `buf`: the block and the
/// position just past it, or nothing when the bytes are truncated, malformed,
/// of an unimplemented pixel width, or inconsistent with their own header.
pub open spec fn pixels_at(buf: Seq<u8>, pos: nat) -> Option<(PixelsView, nat)> {
    match leb_at(buf, pos) {
        None => None,
        Some((w, c1)) => match leb_at(buf, c1) {
            None => None,
            Some((h, c2)) => match leb_at(buf, c2) {
                None => None,
                Some((d, c3)) => match leb_at(buf, c3) {
                    None => None,
                    Some((f, c4)) => match leb_at(buf, c4) {
                        None => None,
                        Some((t, c5)) => match leb_at(buf, c5) {
                            None => None,
                            Some((clen, c6)) => {
                                if w > usize::MAX || h > usize::MAX || d > usize::MAX || f
                                    > u32::MAX || t > u32::MAX {
                                    None
                                } else {
                                    pixels_payload_at(
                                        buf,
                                        c6,
                                        PixelsView {
                                            width: w,
                                            height: h,
                                            depth: d,
                                            format: f as u32,
                                            pixel_type: t as u32,
                                            bytes: Seq::empty(),
                                        },
                                        clen,
                                    )
                                }
                            },
                        },
                    },
                },
            },
        },
    }
}

/// The payload part of [`pixels_at`]: the compressed bytes expanded and held
/// against the header's dimensions.
pub open spec fn pixels_payload_at(buf: Seq<u8>, c6: nat, p: PixelsView, clen: nat) -> Option<
    (PixelsView, nat),
> {
    match spec_bytes_per_pixel(p.format, p.pixel_type) {
        Some(b) => {
            if b == 1 {
                if buf.len() < c6 + clen {
                    None
                } else {
                    match rle::rle_decode::<u8>(buf.subrange(c6 as int, (c6 + clen) as int)) {
                        None => None,
                        Some(bytes) => {
                            if bytes.len() == 1 * p.width * p.height * p.depth {
                                Some((PixelsView { bytes, ..p }, c6 + clen))
                            } else {
                                None
                            }
                        },
                    }
                }
            } else if b == 4 {
                if clen % 4 != 0 {
                    None
                } else {
                    let c7 = c6 + pad_len(c6, 4);
                    if buf.len() < c7 + clen {
                        None
                    } else {
                        match rle::rle_decode::<u32>(
                            words_of_bytes(buf.subrange(c7 as int, (c7 + clen) as int)),
                        ) {
                            None => None,
                            Some(ws) => {
                                let bytes = elems_bytes(ws);
                                if bytes.len() == 4 * p.width * p.height * p.depth {
                                    Some((PixelsView { bytes, ..p }, c7 + clen))
                                } else {
                                    None
                                }
                            },
                        }
                    }
                }
            } else {
                None
            }
        },
        None => None,
    }
}

impl Pixels {
    /// The wire bytes of this block as written at offset `pos`: exactly
    /// `pixels_encoding(pos, ...)`, built in memory.
    ///
    /// Succeeds exactly when the pixel width is an implemented one (one or
    /// four bytes) and the byte count equals bytes-per-pixel times the
    /// dimensions; the two failures name which condition broke.
    #[verifier::rlimit(100)]
    #[verifier::spinoff_prover]
    pub fn encode_to_vec(&self, pos: usize) -> (r: Result<Vec<u8>, PixelsError>)
        requires
            self.bytes@.len() <= 4 * u32::MAX,
        ensures
            match r {
                Ok(v) => {
                    &&& (spec_bytes_per_pixel(self.format, self.pixel_type) == Some(1nat)
                        || spec_bytes_per_pixel(self.format, self.pixel_type) == Some(4nat))
                    &&& self.bytes@.len() == spec_bytes_per_pixel(
                        self.format,
                        self.pixel_type,
                    ).unwrap() * self@.width * self@.height * self@.depth
                    &&& v@ == pixels_encoding(pos as nat, self@)
                },
                Err(PixelsError::UnsupportedFormat) => {
                    &&& spec_bytes_per_pixel(self.format, self.pixel_type) != Some(1nat)
                    &&& spec_bytes_per_pixel(self.format, self.pixel_type) != Some(4nat)
                },
                Err(PixelsError::SizeMismatch) => {
                    &&& (spec_bytes_per_pixel(self.format, self.pixel_type) == Some(1nat)
                        || spec_bytes_per_pixel(self.format, self.pixel_type) == Some(4nat))
                    &&& self.bytes@.len() != spec_bytes_per_pixel(
                        self.format,
                        self.pixel_type,
                    ).unwrap() * self@.width * self@.height * self@.depth
                },
                Err(PixelsError::EncodingFailed) => false,
            },
    {
        let bpp = match calculate_bytes_per_pixel(self.format, self.pixel_type) {
            Some(b) => b,
            None => {
                return Err(PixelsError::UnsupportedFormat);
            },
        };
        if bpp != 1 && bpp != 4 {
            return Err(PixelsError::UnsupportedFormat);
        }
        // Hold the bytes against the declared dimensions before compressing.
        let blen = self.bytes.len();
        match crate::pixels::expected_len(bpp, self.width, self.height, self.depth) {
            Some(e) => {
                if e != blen {
                    return Err(PixelsError::SizeMismatch);
                }
            },
            None => {
                return Err(PixelsError::SizeMismatch);
            },
        }
        let mut out: Vec<u8> = Vec::new();
        let pad1: usize = (4 - (pos % 4)) % 4;
        proof {
            lemma_pad(pos as nat, 4);
        }
        crate::var::push_pad(&mut out, pad1);
        assert(out@ == pad_bytes(pos as nat, 4));
        leb_write(&mut out, self.width as u64);
        leb_write(&mut out, self.height as u64);
        leb_write(&mut out, self.depth as u64);
        leb_write(&mut out, self.format as u64);
        leb_write(&mut out, self.pixel_type as u64);
        if bpp == 1 {
            let mut comp: Vec<u8> = Vec::new();
            rle::write_u8(&mut comp, self.bytes.as_slice());
            leb_write(&mut out, comp.len() as u64);
            let ghost head_done = out@;
            out.append(&mut comp);
            proof {
                assert(out@ =~= pixels_encoding(pos as nat, self@));
            }
            Ok(out)
        } else {
            proof {
                vstd::arithmetic::div_mod::lemma_mod_multiples_basic(
                    (self@.width * self@.height * self@.depth) as int,
                    4int,
                );
                assert(4 * (self@.width * self@.height * self@.depth) == (self@.width
                    * self@.height * self@.depth) * 4) by (nonlinear_arith);
                assert(4nat * self@.width * self@.height * self@.depth == 4 * (self@.width
                    * self@.height * self@.depth)) by (nonlinear_arith);
            }
            let words = bytes_to_words(self.bytes.as_slice());
            proof {
                assert(words@.len() <= u32::MAX) by {
                    assert(self.bytes@.len() / 4 <= (4 * u32::MAX) as nat / 4nat) by {
                        vstd::arithmetic::div_mod::lemma_div_is_ordered(
                            self.bytes@.len() as int,
                            4 * u32::MAX,
                            4,
                        );
                    }
                    assert((4 * u32::MAX) as nat / 4nat == u32::MAX) by (nonlinear_arith);
                }
            }
            let mut compw: Vec<u32> = Vec::new();
            rle::write_u32(&mut compw, words.as_slice());
            let mut comp = words_to_bytes(compw.as_slice());
            leb_write(&mut out, comp.len() as u64);
            // Re-align the payload to a word boundary at its stream position.
            let ghost pos2 = pos as nat + out@.len();
            let pm: usize = pos % 4;
            let om: usize = out.len() % 4;
            let pad2: usize = (4 - ((pm + om) % 4)) % 4;
            proof {
                lemma_pad(pos2, 4);
                vstd::arithmetic::div_mod::lemma_add_mod_noop(pos as int, out@.len() as int, 4int);
                vstd::arithmetic::div_mod::lemma_add_mod_noop(pm as int, om as int, 4int);
                vstd::arithmetic::div_mod::lemma_mod_twice(pos as int, 4int);
                vstd::arithmetic::div_mod::lemma_mod_twice(out@.len() as int, 4int);
                assert((pos + out@.len()) % 4int == (pm + om) % 4int);
            }
            crate::var::push_pad(&mut out, pad2);
            let ghost head_done = out@;
            out.append(&mut comp);
            proof {
                assert(out@ =~= pixels_encoding(pos as nat, self@));
            }
            Ok(out)
        }
    }

    /// Serialize this block to the stream, returning the offset its header
    /// starts at — what a `Var<PixelsForm>` handle records.
    ///
    /// Succeeds exactly when the pixel width is an implemented one (one or
    /// four bytes) and the byte count equals bytes-per-pixel times the
    /// dimensions, appending exactly `pixels_encoding`; the two failures name
    /// which condition broke, and write nothing.
    pub fn serialize<S: Stream>(&self, s: &mut S) -> (r: Result<usize, PixelsError>)
        requires
            self.bytes@.len() <= 4 * u32::MAX,
        ensures
            match r {
                Ok(pos) => {
                    &&& (spec_bytes_per_pixel(self.format, self.pixel_type) == Some(1nat)
                        || spec_bytes_per_pixel(self.format, self.pixel_type) == Some(4nat))
                    &&& self.bytes@.len() == spec_bytes_per_pixel(
                        self.format,
                        self.pixel_type,
                    ).unwrap() * self@.width * self@.height * self@.depth
                    &&& final(s).contents() == old(s).contents() + pixels_encoding(
                        old(s).contents().len(),
                        self@,
                    )
                    &&& pos == old(s).contents().len() + pad_len(old(s).contents().len(), 4)
                },
                Err(PixelsError::UnsupportedFormat) => {
                    &&& final(s).contents() == old(s).contents()
                    &&& spec_bytes_per_pixel(self.format, self.pixel_type) != Some(1nat)
                    &&& spec_bytes_per_pixel(self.format, self.pixel_type) != Some(4nat)
                },
                Err(PixelsError::SizeMismatch) => {
                    &&& final(s).contents() == old(s).contents()
                    &&& (spec_bytes_per_pixel(self.format, self.pixel_type) == Some(1nat)
                        || spec_bytes_per_pixel(self.format, self.pixel_type) == Some(4nat))
                    &&& self.bytes@.len() != spec_bytes_per_pixel(
                        self.format,
                        self.pixel_type,
                    ).unwrap() * self@.width * self@.height * self@.depth
                },
                Err(PixelsError::EncodingFailed) => false,
            },
    {
        let base = s.mark();
        let encoded = match self.encode_to_vec(base) {
            Ok(v) => v,
            Err(e) => {
                return Err(e);
            },
        };
        let pad1: usize = (4 - (base % 4)) % 4;
        proof {
            lemma_pad(base as nat, 4);
        }
        s.write_unaligned(encoded.as_slice());
        let end = s.mark();
        assert(base + pad1 <= end) by {
            assert(encoded@.len() >= pad_bytes(base as nat, 4).len());
        }
        Ok(base + pad1)
    }
}

/// With no zero dimension, a stepwise overflow means the full product
/// overflows too.
proof fn lemma_mul_chain_overflow(b: nat, w: nat, h: nat, d: nat)
    requires
        w >= 1,
        h >= 1,
        d >= 1,
        b * w > usize::MAX || b * w * h > usize::MAX || b * w * h * d > usize::MAX,
    ensures
        b * w * h * d > usize::MAX,
{
    assert(b * w * h >= b * w) by (nonlinear_arith)
        requires b * w >= 0 && h >= 1;
    assert(b * w * h * d >= b * w * h) by (nonlinear_arith)
        requires b * w * h >= 0 && d >= 1;
}

/// A zero dimension makes the whole product zero.
proof fn lemma_mul_chain_zero(b: nat, w: nat, h: nat, d: nat)
    requires
        w == 0 || h == 0 || d == 0,
    ensures
        b * w * h * d == 0,
{
    assert(b * w * h * d == 0) by (nonlinear_arith)
        requires w == 0 || h == 0 || d == 0;
}


/// The expected uncompressed byte count of a block: bytes-per-pixel times the
/// dimensions, or `None` when this platform cannot address it.
pub(crate) fn expected_len(bpp: usize, width: usize, height: usize, depth: usize) -> (r: Option<usize>)
    ensures
        match r {
            Some(e) => e as nat == bpp as nat * width as nat * height as nat * depth as nat,
            None => bpp as nat * width as nat * height as nat * depth as nat > usize::MAX,
        },
{
    if width == 0 || height == 0 || depth == 0 {
        proof {
            lemma_mul_chain_zero(bpp as nat, width as nat, height as nat, depth as nat);
        }
        return Some(0);
    }
    let r = match bpp.checked_mul(width) {
        Some(p) => match p.checked_mul(height) {
            Some(q) => q.checked_mul(depth),
            None => None,
        },
        None => None,
    };
    proof {
        if r is None {
            lemma_mul_chain_overflow(bpp as nat, width as nat, height as nat, depth as nat);
        }
    }
    r
}

impl Pixels {
    /// Read a block back from `buf` at `pos` — the offset a
    /// `Var<PixelsForm>` handle records. Returns the block and the position
    /// just past it; fails exactly when [`pixels_at`] finds nothing there.
    pub fn deserialize(buf: &[u8], pos: usize) -> (r: Result<(Pixels, usize), DeserializeError>)
        requires
            pos <= buf@.len(),
        ensures
            match r {
                Ok((p, newpos)) => pixels_at(buf@, pos as nat) == Some((p@, newpos as nat))
                    && newpos <= buf@.len(),
                Err(_) => pixels_at(buf@, pos as nat) is None,
            },
    {
        let blen = buf.len();
        let (w64, c1) = match leb_read(buf, pos) {
            Ok(x) => x,
            Err(e) => {
                return Err(e);
            },
        };
        let (h64, c2) = match leb_read(buf, c1) {
            Ok(x) => x,
            Err(e) => {
                return Err(e);
            },
        };
        let (d64, c3) = match leb_read(buf, c2) {
            Ok(x) => x,
            Err(e) => {
                return Err(e);
            },
        };
        let (f64v, c4) = match leb_read(buf, c3) {
            Ok(x) => x,
            Err(e) => {
                return Err(e);
            },
        };
        let (t64, c5) = match leb_read(buf, c4) {
            Ok(x) => x,
            Err(e) => {
                return Err(e);
            },
        };
        let (clen64, c6) = match leb_read(buf, c5) {
            Ok(x) => x,
            Err(e) => {
                return Err(e);
            },
        };
        if w64 > usize::MAX as u64 || h64 > usize::MAX as u64 || d64 > usize::MAX as u64 || f64v
            > u32::MAX as u64 || t64 > u32::MAX as u64 {
            return Err(DeserializeError::CountOverflow);
        }
        let width = w64 as usize;
        let height = h64 as usize;
        let depth = d64 as usize;
        let format = f64v as u32;
        let pixel_type = t64 as u32;
        let ghost hdr = PixelsView {
            width: width as nat,
            height: height as nat,
            depth: depth as nat,
            format,
            pixel_type,
            bytes: Seq::empty(),
        };
        let bpp = match calculate_bytes_per_pixel(format, pixel_type) {
            Some(b) => b,
            None => {
                return Err(DeserializeError::UnsupportedPixelFormat);
            },
        };
        if clen64 > usize::MAX as u64 {
            // A payload this long cannot be inside the buffer.
            if bpp == 4 && clen64 % 4 != 0 {
                return Err(DeserializeError::BadPixelData);
            }
            return Err(DeserializeError::UnexpectedEof);
        }
        let clen = clen64 as usize;
        if bpp == 1 {
            if clen > blen - c6 {
                return Err(DeserializeError::UnexpectedEof);
            }
            let comp = vstd::slice::slice_subrange(buf, c6, c6 + clen);
            let bytes = match rle::read_u8(comp) {
                Ok(b) => b,
                Err(e) => {
                    return Err(e);
                },
            };
            let bl = bytes.len();
            let want = expected_len(1, width, height, depth);
            let ok = match want {
                Some(e) => e == bl,
                None => false,
            };
            if !ok {
                return Err(DeserializeError::BadPixelData);
            }
            let p = Pixels { width, height, depth, format, pixel_type, bytes };
            Ok((p, c6 + clen))
        } else if bpp == 4 {
            if clen % 4 != 0 {
                return Err(DeserializeError::BadPixelData);
            }
            let pad: usize = (4 - (c6 % 4)) % 4;
            proof {
                lemma_pad(c6 as nat, 4);
            }
            if pad > blen - c6 {
                return Err(DeserializeError::UnexpectedEof);
            }
            let c7 = c6 + pad;
            if clen > blen - c7 {
                return Err(DeserializeError::UnexpectedEof);
            }
            let region = vstd::slice::slice_subrange(buf, c7, c7 + clen);
            let words = bytes_to_words(region);
            let ws = match rle::read_u32(words.as_slice()) {
                Ok(x) => x,
                Err(e) => {
                    return Err(e);
                },
            };
            let bytes = words_to_bytes(ws.as_slice());
            let bl = bytes.len();
            let want = expected_len(4, width, height, depth);
            let ok = match want {
                Some(e) => e == bl,
                None => false,
            };
            if !ok {
                return Err(DeserializeError::BadPixelData);
            }
            let p = Pixels { width, height, depth, format, pixel_type, bytes };
            Ok((p, c7 + clen))
        } else {
            return Err(DeserializeError::UnsupportedPixelFormat);
        }
    }
}


/// Where a block was encoded, its six header varints read back in order, and
/// the compressed payload sits just after them (re-aligned for the word
/// path), ending exactly at the encoding's end.
#[verifier::rlimit(100)]
#[verifier::spinoff_prover]
proof fn lemma_pixels_header_reads(pre: Seq<u8>, p: PixelsView, post: Seq<u8>)
    requires
        spec_bytes_per_pixel(p.format, p.pixel_type) == Some(1nat) || spec_bytes_per_pixel(
            p.format,
            p.pixel_type,
        ) == Some(4nat),
    ensures
        ({
            let buf = pre + pixels_encoding(pre.len(), p) + post;
            let comp = pixels_comp(p);
            let c0 = pre.len() + pad_len(pre.len(), 4);
            let c1 = c0 + leb_bytes(p.width).len();
            let c2 = c1 + leb_bytes(p.height).len();
            let c3 = c2 + leb_bytes(p.depth).len();
            let c4 = c3 + leb_bytes(p.format as nat).len();
            let c5 = c4 + leb_bytes(p.pixel_type as nat).len();
            let c6 = c5 + leb_bytes(comp.len()).len();
            let c7 = c6 + pad_len(c6, 4);
            &&& leb_at(buf, c0) == Some((p.width, c1))
            &&& leb_at(buf, c1) == Some((p.height, c2))
            &&& leb_at(buf, c2) == Some((p.depth, c3))
            &&& leb_at(buf, c3) == Some((p.format as nat, c4))
            &&& leb_at(buf, c4) == Some((p.pixel_type as nat, c5))
            &&& leb_at(buf, c5) == Some((comp.len(), c6))
            &&& spec_bytes_per_pixel(p.format, p.pixel_type) == Some(1nat) ==> {
                &&& buf.subrange(c6 as int, (c6 + comp.len()) as int) == comp
                &&& pre.len() + pixels_encoding(pre.len(), p).len() == c6 + comp.len()
            }
            &&& spec_bytes_per_pixel(p.format, p.pixel_type) == Some(4nat) ==> {
                &&& buf.subrange(c7 as int, (c7 + comp.len()) as int) == comp
                &&& pre.len() + pixels_encoding(pre.len(), p).len() == c7 + comp.len()
            }
        }),
{
    let bpp = spec_bytes_per_pixel(p.format, p.pixel_type).unwrap();
    let pos0 = pre.len();
    let enc = pixels_encoding(pos0, p);
    let buf = pre + enc + post;
    let p1 = pad_bytes(pos0, 4);
    let lw = leb_bytes(p.width);
    let lh = leb_bytes(p.height);
    let ld = leb_bytes(p.depth);
    let lf = leb_bytes(p.format as nat);
    let lt = leb_bytes(p.pixel_type as nat);
    let head = lw + lh + ld + lf + lt;
    let comp = pixels_comp(p);
    let lc = leb_bytes(comp.len());
    let c0 = pos0 + p1.len();
    let c1 = c0 + lw.len();
    let c2 = c1 + lh.len();
    let c3 = c2 + ld.len();
    let c4 = c3 + lf.len();
    let c5 = c4 + lt.len();
    let c6 = c5 + lc.len();
    let tail6: Seq<u8> = if bpp == 1 {
        comp + post
    } else {
        pad_bytes(c6, 4) + comp + post
    };
    let s1 = lh + (ld + (lf + (lt + (lc + tail6))));
    let s2 = ld + (lf + (lt + (lc + tail6)));
    let s3 = lf + (lt + (lc + tail6));
    let s4 = lt + (lc + tail6);
    let s5 = lc + tail6;
    let s0 = lw + s1;
    assert(buf.skip(c0 as int) =~= enc.skip(p1.len() as int) + post);
    assert(enc.skip(p1.len() as int) + post =~= s0) by {
        if bpp == 1 {
            assert(enc == p1 + head + lc + comp);
        } else {
            let pos2 = pos0 + p1.len() + (head + lc).len();
            assert(enc == p1 + (head + lc) + pad_bytes(pos2, 4) + comp);
            assert(pos2 == c6);
        }
    }
    crate::leb::lemma_leb_seq_at(buf, c0, p.width, s1);
    crate::leb::lemma_leb_seq_at(buf, c1, p.height, s2);
    crate::leb::lemma_leb_seq_at(buf, c2, p.depth, s3);
    crate::leb::lemma_leb_seq_at(buf, c3, p.format as nat, s4);
    crate::leb::lemma_leb_seq_at(buf, c4, p.pixel_type as nat, s5);
    crate::leb::lemma_leb_seq_at(buf, c5, comp.len(), tail6);
    if bpp == 1 {
        assert(buf.subrange(c6 as int, (c6 + comp.len()) as int) =~= comp) by {
            assert(tail6 == comp + post);
            assert forall|m: int| 0 <= m < comp.len() implies buf[c6 + m] == comp[m] by {
                assert(buf.skip(c6 as int)[m] == buf[c6 + m]);
                assert(tail6[m] == comp[m]);
            }
        }
    } else {
        let c7 = c6 + pad_len(c6, 4);
        assert(buf.subrange(c7 as int, (c7 + comp.len()) as int) =~= comp) by {
            assert(tail6 == pad_bytes(c6, 4) + comp + post);
            assert forall|m: int| 0 <= m < comp.len() implies buf[c7 + m] == comp[m] by {
                assert(buf.skip(c6 as int)[pad_len(c6, 4) + m] == buf[c7 + m]);
                assert(tail6[pad_len(c6, 4) + m] == comp[m]);
            }
        }
    }
}

/// The pixel-block round trip: a block written at the end of `pre` is read
/// back exactly — dimensions, format, pixel type, and bytes — whatever
/// follows it, for both implemented pixel widths.
#[verifier::rlimit(100)]
#[verifier::spinoff_prover]
pub proof fn lemma_pixels_round_trip(pre: Seq<u8>, p: PixelsView, post: Seq<u8>)
    requires
        spec_bytes_per_pixel(p.format, p.pixel_type) == Some(1nat) || spec_bytes_per_pixel(
            p.format,
            p.pixel_type,
        ) == Some(4nat),
        p.bytes.len() == spec_bytes_per_pixel(p.format, p.pixel_type).unwrap() * p.width * p.height
            * p.depth,
        p.width <= usize::MAX,
        p.height <= usize::MAX,
        p.depth <= usize::MAX,
        p.bytes.len() <= usize::MAX,
        p.bytes.len() <= 4 * u32::MAX,
    ensures
        pixels_at(
            pre + pixels_encoding(pre.len(), p) + post,
            pre.len() + pad_len(pre.len(), 4),
        ) == Some(
            (p, pre.len() + pixels_encoding(pre.len(), p).len()),
        ),
{
    let bpp = spec_bytes_per_pixel(p.format, p.pixel_type).unwrap();
    let pos0 = pre.len();
    let enc = pixels_encoding(pos0, p);
    let buf = pre + enc + post;
    let comp = pixels_comp(p);
    let lc = leb_bytes(comp.len());
    let c0 = pos0 + pad_bytes(pos0, 4).len();
    let c1 = c0 + leb_bytes(p.width).len();
    let c2 = c1 + leb_bytes(p.height).len();
    let c3 = c2 + leb_bytes(p.depth).len();
    let c4 = c3 + leb_bytes(p.format as nat).len();
    let c5 = c4 + leb_bytes(p.pixel_type as nat).len();
    let c6 = c5 + lc.len();
    lemma_pixels_header_reads(pre, p, post);
    if bpp == 1 {
        rle::lemma_rle_round_trip::<u8>(p.bytes);
        assert(rle::rle_decode::<u8>(buf.subrange(c6 as int, (c6 + comp.len()) as int)) == Some(
            p.bytes,
        ));
        assert(1 * p.width * p.height * p.depth == bpp * p.width * p.height * p.depth);
        assert(pixels_at(buf, pos0 + pad_len(pos0, 4)) == Some((p, c6 + comp.len())));
    } else {
        let ws = words_of_bytes(p.bytes);
        let compw = rle::rle_encode::<u32>(ws);
        assert(comp == elems_bytes(compw));
        lemma_elems_bytes_len(compw);
        assert(comp.len() == compw.len() * 4) by {
            assert(compw.len() * <u32 as Simple>::byte_len() == compw.len() * 4);
        }
        assert(comp.len() % 4 == 0) by {
            vstd::arithmetic::div_mod::lemma_mod_multiples_basic(compw.len() as int, 4int);
            assert(compw.len() * 4 == 4 * compw.len()) by (nonlinear_arith);
        }
        let c7 = c6 + pad_len(c6, 4);
        lemma_words_of_elems(compw);
        assert(words_of_bytes(buf.subrange(c7 as int, (c7 + comp.len()) as int)) == compw);
        assert(ws.len() <= u32::MAX) by {
            assert(p.bytes.len() / 4 <= (4 * u32::MAX) as nat / 4nat) by {
                vstd::arithmetic::div_mod::lemma_div_is_ordered(
                    p.bytes.len() as int,
                    4 * u32::MAX,
                    4,
                );
            }
            assert((4 * u32::MAX) as nat / 4nat == u32::MAX) by (nonlinear_arith);
        }
        assert(ws.len() <= usize::MAX);
        rle::lemma_rle_round_trip::<u32>(ws);
        assert(rle::rle_decode::<u32>(compw) == Some(ws));
        assert(p.bytes.len() % 4 == 0) by {
            assert(4 * p.width * p.height * p.depth == 4 * (p.width * p.height * p.depth))
                by (nonlinear_arith);
            vstd::arithmetic::div_mod::lemma_mod_multiples_basic(
                (p.width * p.height * p.depth) as int,
                4int,
            );
            assert((p.width * p.height * p.depth) * 4 == 4 * (p.width * p.height * p.depth))
                by (nonlinear_arith);
        }
        lemma_elems_of_words(p.bytes);
        assert(elems_bytes(ws) == p.bytes);
        assert(pixels_at(buf, pos0 + pad_len(pos0, 4)) == Some((p, c7 + comp.len())));
    }
}

} // verus!



