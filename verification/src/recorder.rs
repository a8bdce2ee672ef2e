//! The recorder: wraps a drawing-interface implementation and captures every
//! call it receives.
//!
//! The wrapper type holds the wrapped implementation and the call stream; the
//! `record_*` functions here hold the per-method capture rules, each
//! appending one `Call` plus whatever side data its arguments need. The
//! dispatch that forwards each intercepted method to the wrapped
//! implementation and then into these functions is the caller's glue: it goes
//! through the drawing interface's own trait, which carries no contracts.

use vstd::prelude::*;
use std::collections::hash_map::DefaultHasher;
use vstd::std_specs::hash::DefaultHasherAdditionalSpecFns;
use crate::call::{Call, TexImageData};
use crate::pixels::{pixels_encoding, spec_bytes_per_pixel, Pixels, PixelsError};
use crate::form::{SeqOf, Str, Var};
use crate::var::{nested_encoding, pad_len, seq_encoding, utf8_bytes, views_of,
    write_byte_seqs_cs, write_seq_cs, write_str_cs, CallStream, Stream};

verus! {

/// Wraps a drawing-interface implementation `G`, recording every call to the
/// stream `Cs`. Construction through drop spans one recording session; calls
/// accumulate strictly in the order they are recorded.
pub struct Recorder<G, Cs> {
    inner_gl: G,
    call_stream: Cs,
    fingerprinting: bool,
}

impl<G, Cs> Recorder<G, Cs> {
    /// The wrapped implementation.
    pub closed spec fn spec_inner_gl(self) -> G {
        self.inner_gl
    }

    /// The call stream being recorded to.
    pub closed spec fn spec_call_stream(self) -> Cs {
        self.call_stream
    }

    /// Whether a fingerprint entry should follow every recorded call.
    pub closed spec fn spec_fingerprinting(self) -> bool {
        self.fingerprinting
    }

    /// Wrap `inner_gl`, recording to `call_stream`.
    pub fn new(inner_gl: G, call_stream: Cs) -> (r: Recorder<G, Cs>)
        ensures
            r.spec_inner_gl() == inner_gl,
            r.spec_call_stream() == call_stream,
            !r.spec_fingerprinting(),
    {
        Recorder { inner_gl, call_stream, fingerprinting: false }
    }

    /// Ask for a fingerprint checkpoint after every recorded call. The caller
    /// that drives recording computes the digest and appends the checkpoint
    /// entry itself; this switch says that it should.
    pub fn with_fingerprinter(self) -> (r: Recorder<G, Cs>)
        ensures
            r.spec_inner_gl() == self.spec_inner_gl(),
            r.spec_call_stream() == self.spec_call_stream(),
            r.spec_fingerprinting(),
    {
        Recorder { fingerprinting: true, ..self }
    }

    /// The wrapped implementation, to forward calls to.
    pub fn inner_gl(&self) -> (r: &G)
        ensures
            *r == self.spec_inner_gl(),
    {
        &self.inner_gl
    }

    /// Whether a fingerprint checkpoint was asked for.
    pub fn fingerprinting(&self) -> (r: bool)
        ensures
            r == self.spec_fingerprinting(),
    {
        self.fingerprinting
    }

    /// Exclusive access to the call stream, to record into. The recorder is
    /// single-threaded here, so exclusivity is the borrow itself.
    pub fn lock_call_stream(&mut self) -> (r: &mut Cs)
        ensures
            final(self).spec_call_stream() == *final(r),
            final(self).spec_inner_gl() == old(self).spec_inner_gl(),
            final(self).spec_fingerprinting() == old(self).spec_fingerprinting(),
    {
        &mut self.call_stream
    }

    /// End the session, handing back the wrapped implementation and the
    /// recorded stream.
    pub fn into_parts(self) -> (r: (G, Cs))
        ensures
            r.0 == self.spec_inner_gl(),
            r.1 == self.spec_call_stream(),
    {
        (self.inner_gl, self.call_stream)
    }

    /// The recorder-level hook that follows every recorded call: when the
    /// fingerprinter is installed, fold the rasterizer's resident texture
    /// buffers — which the caller, holding the live context, retrieves — into
    /// a digest and append the checkpoint entry; otherwise do nothing.
    /// Returns the checkpoint's serial number when one was appended.
    pub fn fingerprint_after_call(&mut self, texture_buffers: &Vec<Vec<u8>>) -> (r: Option<usize>)
        where Cs: CallStream<crate::swgl::Call>
        ensures
            final(self).spec_inner_gl() == old(self).spec_inner_gl(),
            final(self).spec_fingerprinting() == old(self).spec_fingerprinting(),
            r is Some <==> old(self).spec_fingerprinting(),
            old(self).spec_fingerprinting() ==> {
                &&& final(self).spec_call_stream().calls() == old(
                    self,
                ).spec_call_stream().calls().push(
                    crate::swgl::Call::fingerprint(
                        DefaultHasher::spec_finish(views_of(texture_buffers@)),
                    ),
                )
                &&& final(self).spec_call_stream().contents() == old(
                    self,
                ).spec_call_stream().contents()
                &&& r == Some(old(self).spec_call_stream().calls().len() as usize)
            },
            !old(self).spec_fingerprinting() ==> final(self).spec_call_stream() == old(
                self,
            ).spec_call_stream(),
    {
        if self.fingerprinting {
            let serial = crate::swgl::fingerprinter(&mut self.call_stream, texture_buffers);
            Some(serial)
        } else {
            None
        }
    }
}


/// Append a call whose arguments are all inline scalars: nothing goes to the
/// variable stream. This is the recording pattern for every method with a
/// GPU-side effect, plain arguments, and no validated return value, for
/// either call vocabulary.
pub fn record_simple<C, Cs: CallStream<C>>(cs: &mut Cs, call: C) -> (serial: usize)
    ensures
        final(cs).calls() == old(cs).calls().push(call),
        final(cs).contents() == old(cs).contents(),
        serial == old(cs).calls().len(),
{
    cs.write_call(call)
}

/// The offset the next sequence written to `cs` will record.
pub open spec fn next_seq_offset<Cs: Stream>(cs: Cs) -> usize {
    (cs.contents().len() + pad_len(cs.contents().len(), 8)) as usize
}

/// Record a buffer upload: the bytes go to the variable stream, the call
/// holds their handle.
pub fn record_buffer_data_untyped<Cs: CallStream<Call>>(
    cs: &mut Cs,
    target: u32,
    data: &Vec<u8>,
    usage: u32,
) -> (serial: usize)
    ensures
        final(cs).contents() == old(cs).contents() + seq_encoding::<u8>(
            old(cs).contents().len(),
            data@,
        ),
        final(cs).calls() == old(cs).calls().push(
            Call::buffer_data_untyped {
                target,
                size_data: Var::spec_new(next_seq_offset(*old(cs))),
                usage,
            },
        ),
        serial == old(cs).calls().len(),
{
    let pos = write_seq_cs::<Call, Cs, u8>(cs, data.as_slice());
    cs.write_call(Call::buffer_data_untyped { target, size_data: Var::new(pos), usage })
}

/// Record an id-allocating call: the returned ids go to the variable stream
/// so replay can validate them.
pub fn record_gen_buffers<Cs: CallStream<Call>>(cs: &mut Cs, n: i32, ids: &Vec<u32>) -> (serial:
    usize)
    ensures
        final(cs).contents() == old(cs).contents() + seq_encoding::<u32>(
            old(cs).contents().len(),
            ids@,
        ),
        final(cs).calls() == old(cs).calls().push(
            Call::gen_buffers { n, returned: Var::spec_new(next_seq_offset(*old(cs))) },
        ),
        serial == old(cs).calls().len(),
{
    let pos = write_seq_cs::<Call, Cs, u32>(cs, ids.as_slice());
    cs.write_call(Call::gen_buffers { n, returned: Var::new(pos) })
}

/// As [`record_gen_buffers`], for texture ids.
pub fn record_gen_textures<Cs: CallStream<Call>>(cs: &mut Cs, n: i32, ids: &Vec<u32>) -> (serial:
    usize)
    ensures
        final(cs).contents() == old(cs).contents() + seq_encoding::<u32>(
            old(cs).contents().len(),
            ids@,
        ),
        final(cs).calls() == old(cs).calls().push(
            Call::gen_textures { n, returned: Var::spec_new(next_seq_offset(*old(cs))) },
        ),
        serial == old(cs).calls().len(),
{
    let pos = write_seq_cs::<Call, Cs, u32>(cs, ids.as_slice());
    cs.write_call(Call::gen_textures { n, returned: Var::new(pos) })
}

/// As [`record_gen_buffers`], for framebuffer ids.
pub fn record_gen_framebuffers<Cs: CallStream<Call>>(cs: &mut Cs, n: i32, ids: &Vec<u32>) -> (
    serial: usize)
    ensures
        final(cs).contents() == old(cs).contents() + seq_encoding::<u32>(
            old(cs).contents().len(),
            ids@,
        ),
        final(cs).calls() == old(cs).calls().push(
            Call::gen_framebuffers { n, returned: Var::spec_new(next_seq_offset(*old(cs))) },
        ),
        serial == old(cs).calls().len(),
{
    let pos = write_seq_cs::<Call, Cs, u32>(cs, ids.as_slice());
    cs.write_call(Call::gen_framebuffers { n, returned: Var::new(pos) })
}

/// Record a pixel readback whose result rides in the call stream for replay
/// validation.
pub fn record_read_pixels<Cs: CallStream<Call>>(
    cs: &mut Cs,
    x: i32,
    y: i32,
    width: i32,
    height: i32,
    format: u32,
    pixel_type: u32,
    returned: &Vec<u8>,
) -> (serial: usize)
    ensures
        final(cs).contents() == old(cs).contents() + seq_encoding::<u8>(
            old(cs).contents().len(),
            returned@,
        ),
        final(cs).calls() == old(cs).calls().push(
            Call::read_pixels {
                x,
                y,
                width,
                height,
                format,
                pixel_type,
                returned: Var::spec_new(next_seq_offset(*old(cs))),
            },
        ),
        serial == old(cs).calls().len(),
{
    let pos = write_seq_cs::<Call, Cs, u8>(cs, returned.as_slice());
    cs.write_call(
        Call::read_pixels { x, y, width, height, format, pixel_type, returned: Var::new(pos) },
    )
}

/// Record an object-creation call whose returned id replay must validate.
pub fn record_create_program<Cs: CallStream<Call>>(cs: &mut Cs, returned: u32) -> (serial: usize)
    ensures
        final(cs).calls() == old(cs).calls().push(Call::create_program { returned }),
        final(cs).contents() == old(cs).contents(),
        serial == old(cs).calls().len(),
{
    cs.write_call(Call::create_program { returned })
}

/// Record a shader-creation call whose returned id replay must validate.
pub fn record_create_shader<Cs: CallStream<Call>>(cs: &mut Cs, shader_type: u32, returned: u32) -> (
    serial: usize)
    ensures
        final(cs).calls() == old(cs).calls().push(Call::create_shader { shader_type, returned }),
        final(cs).contents() == old(cs).contents(),
        serial == old(cs).calls().len(),
{
    cs.write_call(Call::create_shader { shader_type, returned })
}

/// Record a uniform-location query: the name goes to the variable stream, the
/// returned location rides inline for replay validation.
pub fn record_get_uniform_location<Cs: CallStream<Call>>(
    cs: &mut Cs,
    program: u32,
    name: &str,
    returned: i32,
) -> (serial: usize)
    ensures
        final(cs).contents() == old(cs).contents() + seq_encoding::<u8>(
            old(cs).contents().len(),
            utf8_bytes(name@),
        ),
        final(cs).calls() == old(cs).calls().push(
            Call::get_uniform_location {
                program,
                name: Var::spec_new(next_seq_offset(*old(cs))),
                returned,
            },
        ),
        serial == old(cs).calls().len(),
{
    let pos = write_str_cs::<Call, Cs>(cs, name);
    cs.write_call(Call::get_uniform_location { program, name: Var::new(pos), returned })
}

/// Record a framebuffer invalidation: the attachment list goes to the
/// variable stream.
pub fn record_invalidate_framebuffer<Cs: CallStream<Call>>(
    cs: &mut Cs,
    target: u32,
    attachments: &Vec<u32>,
) -> (serial: usize)
    ensures
        final(cs).contents() == old(cs).contents() + seq_encoding::<u32>(
            old(cs).contents().len(),
            attachments@,
        ),
        final(cs).calls() == old(cs).calls().push(
            Call::invalidate_framebuffer {
                target,
                attachments: Var::spec_new(next_seq_offset(*old(cs))),
            },
        ),
        serial == old(cs).calls().len(),
{
    let pos = write_seq_cs::<Call, Cs, u32>(cs, attachments.as_slice());
    cs.write_call(Call::invalidate_framebuffer { target, attachments: Var::new(pos) })
}

/// Record a sub-rectangle framebuffer invalidation.
pub fn record_invalidate_sub_framebuffer<Cs: CallStream<Call>>(
    cs: &mut Cs,
    target: u32,
    attachments: &Vec<u32>,
    xoffset: i32,
    yoffset: i32,
    width: i32,
    height: i32,
) -> (serial: usize)
    ensures
        final(cs).contents() == old(cs).contents() + seq_encoding::<u32>(
            old(cs).contents().len(),
            attachments@,
        ),
        final(cs).calls() == old(cs).calls().push(
            Call::invalidate_sub_framebuffer {
                target,
                attachments: Var::spec_new(next_seq_offset(*old(cs))),
                xoffset,
                yoffset,
                width,
                height,
            },
        ),
        serial == old(cs).calls().len(),
{
    let pos = write_seq_cs::<Call, Cs, u32>(cs, attachments.as_slice());
    cs.write_call(
        Call::invalidate_sub_framebuffer {
            target,
            attachments: Var::new(pos),
            xoffset,
            yoffset,
            width,
            height,
        },
    )
}

/// Record a texture allocation with optional initial contents.
pub fn record_tex_image_2d<Cs: CallStream<Call>>(
    cs: &mut Cs,
    target: u32,
    level: i32,
    internal_format: i32,
    width: i32,
    height: i32,
    border: i32,
    format: u32,
    ty: u32,
    opt_data: Option<&Vec<u8>>,
) -> (serial: usize)
    ensures
        match opt_data {
            Some(data) => {
                &&& final(cs).contents() == old(cs).contents() + seq_encoding::<u8>(
                    old(cs).contents().len(),
                    data@,
                )
                &&& final(cs).calls() == old(cs).calls().push(
                    Call::tex_image_2d {
                        target,
                        level,
                        internal_format,
                        width,
                        height,
                        border,
                        format,
                        ty,
                        opt_data: Some(Var::spec_new(next_seq_offset(*old(cs)))),
                    },
                )
            },
            None => {
                &&& final(cs).contents() == old(cs).contents()
                &&& final(cs).calls() == old(cs).calls().push(
                    Call::tex_image_2d {
                        target,
                        level,
                        internal_format,
                        width,
                        height,
                        border,
                        format,
                        ty,
                        opt_data: None,
                    },
                )
            },
        },
        serial == old(cs).calls().len(),
{
    let opt = match opt_data {
        Some(data) => {
            let pos = write_seq_cs::<Call, Cs, u8>(cs, data.as_slice());
            Some(Var::new(pos))
        },
        None => None,
    };
    cs.write_call(
        Call::tex_image_2d {
            target,
            level,
            internal_format,
            width,
            height,
            border,
            format,
            ty,
            opt_data: opt,
        },
    )
}

/// Record a 3-D texture sub-image upload whose data the caller captured.
pub fn record_tex_sub_image_3d<Cs: CallStream<Call>>(
    cs: &mut Cs,
    target: u32,
    level: i32,
    xoffset: i32,
    yoffset: i32,
    zoffset: i32,
    width: i32,
    height: i32,
    depth: i32,
    format: u32,
    ty: u32,
    data: &Vec<u8>,
) -> (serial: usize)
    ensures
        final(cs).contents() == old(cs).contents() + seq_encoding::<u8>(
            old(cs).contents().len(),
            data@,
        ),
        final(cs).calls() == old(cs).calls().push(
            Call::tex_sub_image_3d {
                target,
                level,
                xoffset,
                yoffset,
                zoffset,
                width,
                height,
                depth,
                format,
                ty,
                data: Var::spec_new(next_seq_offset(*old(cs))),
            },
        ),
        serial == old(cs).calls().len(),
{
    let pos = write_seq_cs::<Call, Cs, u8>(cs, data.as_slice());
    cs.write_call(
        Call::tex_sub_image_3d {
            target,
            level,
            xoffset,
            yoffset,
            zoffset,
            width,
            height,
            depth,
            format,
            ty,
            data: Var::new(pos),
        },
    )
}

/// How many bytes a texture upload hands the drawing interface: the
/// pixel-transfer length, with a nonzero unpack-row-length override taking
/// the width's place. Nothing when the override is smaller than the width,
/// when the format is unknown, or when the size cannot be addressed.
pub open spec fn spec_upload_len(
    width: i32,
    height: i32,
    depth: i32,
    format: u32,
    pixel_type: u32,
    unpack_row_length: i32,
) -> Option<nat> {
    if unpack_row_length != 0 && !(width <= unpack_row_length) {
        None
    } else {
        let actual_width: i32 = if unpack_row_length != 0 {
            unpack_row_length
        } else {
            width
        };
        crate::pixels::spec_calculate_length(
            actual_width as int,
            height as int,
            depth as int,
            format,
            pixel_type,
        )
    }
}

/// [`spec_upload_len`], executably: the byte count a caller must capture for
/// a texture upload with no pixel-unpack buffer bound.
pub fn tex_image_upload_len(
    width: i32,
    height: i32,
    depth: i32,
    format: u32,
    pixel_type: u32,
    unpack_row_length: i32,
) -> (r: Option<usize>)
    ensures
        match r {
            Some(n) => spec_upload_len(width, height, depth, format, pixel_type, unpack_row_length)
                == Some(n as nat),
            None => spec_upload_len(
                width,
                height,
                depth,
                format,
                pixel_type,
                unpack_row_length,
            ) is None,
        },
{
    if unpack_row_length != 0 && !(width <= unpack_row_length) {
        return None;
    }
    let actual_width: i32 = if unpack_row_length != 0 {
        unpack_row_length
    } else {
        width
    };
    crate::pixels::calculate_length(actual_width, height, depth, format, pixel_type)
}

/// Resolve the ambiguous final argument of a texture upload and record its
/// side data.
///
/// With a pixel-unpack buffer bound (`bound_buffer != 0`) the argument is a
/// byte offset into that buffer: it is recorded verbatim and nothing is
/// written. With none bound it is an address: the caller captures the bytes
/// it points at, they go to the variable stream, and the call records their
/// handle.
pub fn tex_image_data_to_call<C, Cs: CallStream<C>>(
    cs: &mut Cs,
    bound_buffer: u32,
    offset: usize,
    data: Option<&Vec<u8>>,
) -> (r: TexImageData)
    requires
        (bound_buffer == 0) <==> data is Some,
    ensures
        bound_buffer != 0 ==> {
            &&& r == TexImageData::Offset(offset)
            &&& final(cs).contents() == old(cs).contents()
        },
        bound_buffer == 0 ==> {
            &&& r == TexImageData::Buf(Var::<SeqOf<u8>>::spec_new(next_seq_offset(*old(cs))))
            &&& final(cs).contents() == old(cs).contents() + seq_encoding::<u8>(
                old(cs).contents().len(),
                data.unwrap()@,
            )
        },
        final(cs).calls() == old(cs).calls(),
{
    if bound_buffer != 0 {
        TexImageData::Offset(offset)
    } else {
        let bytes = match data {
            Some(b) => b,
            None => {
                proof {
                    assert(false);
                }
                return TexImageData::Offset(0);
            },
        };
        let pos = write_seq_cs::<C, Cs, u8>(cs, bytes.as_slice());
        TexImageData::Buf(Var::new(pos))
    }
}

/// Record a 3-D sub-image upload through the pixel-unpack-buffer ambiguity:
/// the resolved argument is stored exactly as [`tex_image_data_to_call`]
/// decides it.
pub fn record_tex_sub_image_3d_pbo<Cs: CallStream<Call>>(
    cs: &mut Cs,
    target: u32,
    level: i32,
    xoffset: i32,
    yoffset: i32,
    zoffset: i32,
    width: i32,
    height: i32,
    depth: i32,
    format: u32,
    ty: u32,
    bound_buffer: u32,
    offset: usize,
    data: Option<&Vec<u8>>,
) -> (serial: usize)
    requires
        (bound_buffer == 0) <==> data is Some,
    ensures
        ({
            let resolved: TexImageData = if bound_buffer != 0 {
                TexImageData::Offset(offset)
            } else {
                TexImageData::Buf(Var::<SeqOf<u8>>::spec_new(next_seq_offset(*old(cs))))
            };
            &&& final(cs).calls() == old(cs).calls().push(
                Call::tex_sub_image_3d_pbo {
                    target,
                    level,
                    xoffset,
                    yoffset,
                    zoffset,
                    width,
                    height,
                    depth,
                    format,
                    ty,
                    offset: resolved,
                },
            )
            &&& (bound_buffer != 0 ==> final(cs).contents() == old(cs).contents())
            &&& (bound_buffer == 0 ==> final(cs).contents() == old(cs).contents()
                + seq_encoding::<u8>(old(cs).contents().len(), data.unwrap()@))
        }),
        serial == old(cs).calls().len(),
{
    let resolved = tex_image_data_to_call(cs, bound_buffer, offset, data);
    cs.write_call(
        Call::tex_sub_image_3d_pbo {
            target,
            level,
            xoffset,
            yoffset,
            zoffset,
            width,
            height,
            depth,
            format,
            ty,
            offset: resolved,
        },
    )
}

/// As [`record_tex_sub_image_3d_pbo`], for the 2-D upload.
pub fn record_tex_sub_image_2d_pbo<Cs: CallStream<Call>>(
    cs: &mut Cs,
    target: u32,
    level: i32,
    xoffset: i32,
    yoffset: i32,
    width: i32,
    height: i32,
    format: u32,
    ty: u32,
    bound_buffer: u32,
    offset: usize,
    data: Option<&Vec<u8>>,
) -> (serial: usize)
    requires
        (bound_buffer == 0) <==> data is Some,
    ensures
        ({
            let resolved: TexImageData = if bound_buffer != 0 {
                TexImageData::Offset(offset)
            } else {
                TexImageData::Buf(Var::<SeqOf<u8>>::spec_new(next_seq_offset(*old(cs))))
            };
            &&& final(cs).calls() == old(cs).calls().push(
                Call::tex_sub_image_2d_pbo {
                    target,
                    level,
                    xoffset,
                    yoffset,
                    width,
                    height,
                    format,
                    ty,
                    offset: resolved,
                },
            )
            &&& (bound_buffer != 0 ==> final(cs).contents() == old(cs).contents())
            &&& (bound_buffer == 0 ==> final(cs).contents() == old(cs).contents()
                + seq_encoding::<u8>(old(cs).contents().len(), data.unwrap()@))
        }),
        serial == old(cs).calls().len(),
{
    let resolved = tex_image_data_to_call(cs, bound_buffer, offset, data);
    cs.write_call(
        Call::tex_sub_image_2d_pbo {
            target,
            level,
            xoffset,
            yoffset,
            width,
            height,
            format,
            ty,
            offset: resolved,
        },
    )
}


/// Record a pixel readback captured as a pixel block: the block is
/// compressed into the variable stream and the call holds its handle, so
/// replay can re-read and compare — and snapshot — the pixels.
pub fn record_read_pixels_into_buffer<Cs: CallStream<Call>>(
    cs: &mut Cs,
    x: i32,
    y: i32,
    pixels: &Pixels,
) -> (r: Result<usize, PixelsError>)
    requires
        pixels.bytes@.len() <= 4 * u32::MAX,
    ensures
        match r {
            Ok(serial) => {
                &&& final(cs).contents() == old(cs).contents() + pixels_encoding(
                    old(cs).contents().len(),
                    pixels@,
                )
                &&& final(cs).calls() == old(cs).calls().push(
                    Call::read_pixels_into_buffer {
                        x,
                        y,
                        pixels: Var::spec_new(
                            (old(cs).contents().len() + pad_len(
                                old(cs).contents().len(),
                                4,
                            )) as usize,
                        ),
                    },
                )
                &&& serial == old(cs).calls().len()
            },
            Err(PixelsError::UnsupportedFormat) => {
                &&& final(cs).contents() == old(cs).contents()
                &&& final(cs).calls() == old(cs).calls()
                &&& spec_bytes_per_pixel(pixels.format, pixels.pixel_type) != Some(1nat)
                &&& spec_bytes_per_pixel(pixels.format, pixels.pixel_type) != Some(4nat)
            },
            Err(PixelsError::SizeMismatch) => {
                &&& final(cs).contents() == old(cs).contents()
                &&& final(cs).calls() == old(cs).calls()
                &&& (spec_bytes_per_pixel(pixels.format, pixels.pixel_type) == Some(1nat)
                    || spec_bytes_per_pixel(pixels.format, pixels.pixel_type) == Some(4nat))
                &&& pixels.bytes@.len() != spec_bytes_per_pixel(
                    pixels.format,
                    pixels.pixel_type,
                ).unwrap() * pixels@.width * pixels@.height * pixels@.depth
            },
            Err(PixelsError::EncodingFailed) => false,
        },
{
    let base = cs.mark();
    let encoded = match pixels.encode_to_vec(base) {
        Ok(v) => v,
        Err(e) => {
            return Err(e);
        },
    };
    let pad1: usize = (4 - (base % 4)) % 4;
    proof {
        crate::var::lemma_pad(base as nat, 4);
    }
    cs.write_variable(encoded.as_slice());
    let end = cs.mark();
    assert(base + pad1 <= end) by {
        assert(encoded@.len() >= crate::var::pad_bytes(base as nat, 4).len());
    }
    let serial = cs.write_call(Call::read_pixels_into_buffer { x, y, pixels: Var::new(base + pad1) });
    Ok(serial)
}


/// Record a shader-source upload: the source strings go to the variable
/// stream in nested sequence form, element by element.
pub fn record_shader_source<Cs: CallStream<Call>>(
    cs: &mut Cs,
    shader: u32,
    strings: &Vec<Vec<u8>>,
) -> (serial: usize)
    ensures
        final(cs).contents() == old(cs).contents() + nested_encoding(
            old(cs).contents().len(),
            views_of(strings@),
        ),
        final(cs).calls() == old(cs).calls().push(
            Call::shader_source {
                shader,
                strings: Var::spec_new(
                    (old(cs).contents().len() + pad_len(old(cs).contents().len(), 8)) as usize,
                ),
            },
        ),
        serial == old(cs).calls().len(),
{
    let pos = write_byte_seqs_cs::<Call, Cs>(cs, strings);
    cs.write_call(Call::shader_source { shader, strings: Var::new(pos) })
}


/// Record a 3-D texture allocation with optional initial contents.
pub fn record_tex_image_3d<Cs: CallStream<Call>>(
    cs: &mut Cs,
    target: u32,
    level: i32,
    internal_format: i32,
    width: i32,
    height: i32,
    depth: i32,
    border: i32,
    format: u32,
    ty: u32,
    opt_data: Option<&Vec<u8>>,
) -> (serial: usize)
    ensures
        match opt_data {
            Some(data) => {
                &&& final(cs).contents() == old(cs).contents() + seq_encoding::<u8>(
                    old(cs).contents().len(),
                    data@,
                )
                &&& final(cs).calls() == old(cs).calls().push(
                    Call::tex_image_3d {
                        target,
                        level,
                        internal_format,
                        width,
                        height,
                        depth,
                        border,
                        format,
                        ty,
                        opt_data: Some(
                            Var::spec_new(
                                (old(cs).contents().len() + pad_len(
                                    old(cs).contents().len(),
                                    8,
                                )) as usize,
                            ),
                        ),
                    },
                )
            },
            None => {
                &&& final(cs).contents() == old(cs).contents()
                &&& final(cs).calls() == old(cs).calls().push(
                    Call::tex_image_3d {
                        target,
                        level,
                        internal_format,
                        width,
                        height,
                        depth,
                        border,
                        format,
                        ty,
                        opt_data: None,
                    },
                )
            },
        },
        serial == old(cs).calls().len(),
{
    let opt = match opt_data {
        Some(data) => {
            let pos = write_seq_cs::<Call, Cs, u8>(cs, data.as_slice());
            Some(Var::new(pos))
        },
        None => None,
    };
    cs.write_call(
        Call::tex_image_3d {
            target,
            level,
            internal_format,
            width,
            height,
            depth,
            border,
            format,
            ty,
            opt_data: opt,
        },
    )
}

} // verus!




