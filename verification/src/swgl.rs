//! The software-rasterizer extension: its call vocabulary and the replay
//! state machine that owns the buffers the rasterizer points into.
//!
//! The rasterizer-specific entry points install or read back raw buffers;
//! during replay those buffers must stay alive and in place for as long as
//! the rasterizer may touch them, so the replay state owns them, keyed by
//! texture id, dropping one only when a later call supersedes or unbinds it.
//! The live rasterizer calls themselves are the driving loop's work; the
//! decisions — which buffer to install, what to compare, when to stop — are
//! here.

use vstd::prelude::*;
use std::collections::hash_map::DefaultHasher;
use std::collections::HashMap;
use std::hash::Hasher;
use vstd::std_specs::hash::DefaultHasherAdditionalSpecFns;
use crate::form::{SeqOf, Str, Var};
use crate::replay::ReplayError;
use crate::var::{pad_len, seq_encoding, utf8_bytes, write_seq_cs, write_str_cs, CallStream};

verus! {

broadcast use vstd::std_specs::hash::group_hash_axioms;

/// One recorded call on a software-rasterizer context: either an embedded
/// generic drawing-interface call, one of the rasterizer's own entry points,
/// a free-text note, or a fingerprint checkpoint.
#[allow(non_camel_case_types)]
#[derive(Clone, Copy, Debug)]
pub enum Call {
    /// A generic drawing-interface call.
    gl(crate::call::Call),
    /// Install (or, with no buffer, unbind) the default framebuffer's backing
    /// store.
    init_default_framebuffer {
        /// Width in pixels.
        width: i32,
        /// Height in pixels.
        height: i32,
        /// Row stride in pixels; zero means the width.
        stride: i32,
        /// The captured backing store, absent to unbind.
        buf: Option<Var<SeqOf<u8>>>,
    },
    /// Read back the current color buffer of a framebuffer object; the
    /// returned pointer's contents, width, height, and stride are recorded
    /// for validation.
    get_color_buffer {
        /// The framebuffer object queried.
        fbo: u32,
        /// Whether to force a flush first.
        flush: bool,
        /// The words the returned pointer held, and the returned width,
        /// height, and stride.
        returned: (Var<SeqOf<u32>>, i32, i32, i32),
    },
    /// Install (or, with no buffer, unbind) a texture's backing store.
    set_texture_buffer {
        /// The texture id.
        tex: u32,
        /// The internal format of the texture.
        internal_format: u32,
        /// Width in pixels.
        width: i32,
        /// Height in pixels.
        height: i32,
        /// Row stride in pixels; zero means the width.
        stride: i32,
        /// The captured backing store, absent to unbind.
        buf: Option<Var<SeqOf<u8>>>,
        /// Minimum allocation width.
        min_width: i32,
        /// Minimum allocation height.
        min_height: i32,
    },
    /// Composite one region of a source surface onto the destination.
    composite {
        /// The source surface id.
        src_id: u32,
        /// Source x origin.
        src_x: i32,
        /// Source y origin.
        src_y: i32,
        /// Source width.
        src_width: i32,
        /// Source height.
        src_height: i32,
        /// Destination x origin.
        dst_x: i32,
        /// Destination y origin.
        dst_y: i32,
        /// Whether the source is opaque.
        opaque: bool,
        /// Whether to flip vertically.
        flip: bool,
    },
    /// A free-text annotation interleaved by the recording author.
    note(Var<Str>),
    /// A content-hash checkpoint over rasterizer-visible state.
    fingerprint(u64),
}

/// Record a free-text note.
pub fn record_note<Cs: CallStream<Call>>(cs: &mut Cs, text: &str) -> (serial: usize)
    ensures
        final(cs).contents() == old(cs).contents() + seq_encoding::<u8>(
            old(cs).contents().len(),
            utf8_bytes(text@),
        ),
        final(cs).calls() == old(cs).calls().push(
            Call::note(
                Var::spec_new(
                    (old(cs).contents().len() + pad_len(old(cs).contents().len(), 8)) as usize,
                ),
            ),
        ),
        serial == old(cs).calls().len(),
{
    let pos = write_str_cs::<Call, Cs>(cs, text);
    cs.write_call(Call::note(Var::new(pos)))
}

/// Record a fingerprint checkpoint carrying the digest the caller computed
/// over the rasterizer's resident texture buffers.
pub fn record_fingerprint<Cs: CallStream<Call>>(cs: &mut Cs, digest: u64) -> (serial: usize)
    ensures
        final(cs).contents() == old(cs).contents(),
        final(cs).calls() == old(cs).calls().push(Call::fingerprint(digest)),
        serial == old(cs).calls().len(),
{
    cs.write_call(Call::fingerprint(digest))
}

/// Record an installed (or unbound) texture backing store. The caller
/// captures the buffer's bytes — stride-times-height pixels' worth — when one
/// is installed, and passes none to record an unbind.
pub fn record_set_texture_buffer<Cs: CallStream<Call>>(
    cs: &mut Cs,
    tex: u32,
    internal_format: u32,
    width: i32,
    height: i32,
    stride: i32,
    buf: Option<&Vec<u8>>,
    min_width: i32,
    min_height: i32,
) -> (serial: usize)
    ensures
        match buf {
            Some(bytes) => {
                &&& final(cs).contents() == old(cs).contents() + seq_encoding::<u8>(
                    old(cs).contents().len(),
                    bytes@,
                )
                &&& final(cs).calls() == old(cs).calls().push(
                    Call::set_texture_buffer {
                        tex,
                        internal_format,
                        width,
                        height,
                        stride,
                        buf: Some(
                            Var::spec_new(
                                (old(cs).contents().len() + pad_len(
                                    old(cs).contents().len(),
                                    8,
                                )) as usize,
                            ),
                        ),
                        min_width,
                        min_height,
                    },
                )
            },
            None => {
                &&& final(cs).contents() == old(cs).contents()
                &&& final(cs).calls() == old(cs).calls().push(
                    Call::set_texture_buffer {
                        tex,
                        internal_format,
                        width,
                        height,
                        stride,
                        buf: None,
                        min_width,
                        min_height,
                    },
                )
            },
        },
        serial == old(cs).calls().len(),
{
    let handle = match buf {
        Some(bytes) => {
            let pos = write_seq_cs::<Call, Cs, u8>(cs, bytes.as_slice());
            Some(Var::new(pos))
        },
        None => None,
    };
    cs.write_call(
        Call::set_texture_buffer {
            tex,
            internal_format,
            width,
            height,
            stride,
            buf: handle,
            min_width,
            min_height,
        },
    )
}

/// Record an installed (or unbound) default-framebuffer backing store.
pub fn record_init_default_framebuffer<Cs: CallStream<Call>>(
    cs: &mut Cs,
    width: i32,
    height: i32,
    stride: i32,
    buf: Option<&Vec<u8>>,
) -> (serial: usize)
    ensures
        match buf {
            Some(bytes) => {
                &&& final(cs).contents() == old(cs).contents() + seq_encoding::<u8>(
                    old(cs).contents().len(),
                    bytes@,
                )
                &&& final(cs).calls() == old(cs).calls().push(
                    Call::init_default_framebuffer {
                        width,
                        height,
                        stride,
                        buf: Some(
                            Var::spec_new(
                                (old(cs).contents().len() + pad_len(
                                    old(cs).contents().len(),
                                    8,
                                )) as usize,
                            ),
                        ),
                    },
                )
            },
            None => {
                &&& final(cs).contents() == old(cs).contents()
                &&& final(cs).calls() == old(cs).calls().push(
                    Call::init_default_framebuffer { width, height, stride, buf: None },
                )
            },
        },
        serial == old(cs).calls().len(),
{
    let handle = match buf {
        Some(bytes) => {
            let pos = write_seq_cs::<Call, Cs, u8>(cs, bytes.as_slice());
            Some(Var::new(pos))
        },
        None => None,
    };
    cs.write_call(Call::init_default_framebuffer { width, height, stride, buf: handle })
}

/// Record a color-buffer readback: the words behind the returned pointer go
/// to the variable stream, the dimensions ride inline, all for validation.
pub fn record_get_color_buffer<Cs: CallStream<Call>>(
    cs: &mut Cs,
    fbo: u32,
    flush: bool,
    words: &Vec<u32>,
    width: i32,
    height: i32,
    stride: i32,
) -> (serial: usize)
    ensures
        final(cs).contents() == old(cs).contents() + seq_encoding::<u32>(
            old(cs).contents().len(),
            words@,
        ),
        final(cs).calls() == old(cs).calls().push(
            Call::get_color_buffer {
                fbo,
                flush,
                returned: (
                    Var::spec_new(
                        (old(cs).contents().len() + pad_len(old(cs).contents().len(), 8)) as usize,
                    ),
                    width,
                    height,
                    stride,
                ),
            },
        ),
        serial == old(cs).calls().len(),
{
    let pos = write_seq_cs::<Call, Cs, u32>(cs, words.as_slice());
    cs.write_call(
        Call::get_color_buffer { fbo, flush, returned: (Var::new(pos), width, height, stride) },
    )
}

/// The buffer-ownership state of one replay session: the rasterizer is handed
/// raw pointers into these buffers, so each must stay owned here, at a fixed
/// address, until a later call for the same id supersedes it or unbinds it.
pub struct ReplayState {
    texture_buffers: HashMap<u32, Vec<u8>>,
    default_framebuffer: Option<Vec<u8>>,
}

impl ReplayState {
    /// The owned texture backing stores, by texture id.
    pub closed spec fn spec_texture_buffers(&self) -> Map<u32, Vec<u8>> {
        self.texture_buffers@
    }

    /// The owned default-framebuffer backing store, if one is installed.
    pub closed spec fn spec_default_framebuffer(&self) -> Option<Vec<u8>> {
        self.default_framebuffer
    }

    /// A fresh session: nothing owned yet.
    pub fn new() -> (r: ReplayState)
        ensures
            r.spec_texture_buffers() == Map::<u32, Vec<u8>>::empty(),
            r.spec_default_framebuffer() is None,
    {
        ReplayState { texture_buffers: HashMap::new(), default_framebuffer: None }
    }

    /// Install a texture's backing store, dropping whatever the same id held
    /// before; installing none removes (unbinds) the id's entry. Returns
    /// whether a buffer is now installed for the id.
    pub fn install_texture_buffer(&mut self, tex: u32, buf: Option<Vec<u8>>) -> (installed: bool)
        ensures
            match buf {
                Some(bytes) => {
                    &&& final(self).spec_texture_buffers() == old(self).spec_texture_buffers().insert(
                        tex,
                        bytes,
                    )
                    &&& installed
                },
                None => {
                    &&& final(self).spec_texture_buffers() == old(self).spec_texture_buffers().remove(
                        tex,
                    )
                    &&& !installed
                },
            },
            final(self).spec_default_framebuffer() == old(self).spec_default_framebuffer(),
    {
        match buf {
            Some(bytes) => {
                self.texture_buffers.insert(tex, bytes);
                true
            },
            None => {
                self.texture_buffers.remove(&tex);
                false
            },
        }
    }

    /// The buffer installed for a texture id, to hand the rasterizer a
    /// pointer into.
    pub fn texture_buffer(&self, tex: u32) -> (r: Option<&Vec<u8>>)
        ensures
            match r {
                Some(b) => self.spec_texture_buffers().contains_key(tex)
                    && *b == self.spec_texture_buffers()[tex],
                None => !self.spec_texture_buffers().contains_key(tex),
            },
    {
        self.texture_buffers.get(&tex)
    }

    /// Install the default framebuffer's backing store, dropping any previous
    /// one; installing none unbinds it. Returns whether one is now installed.
    pub fn install_default_framebuffer(&mut self, buf: Option<Vec<u8>>) -> (installed: bool)
        ensures
            final(self).spec_default_framebuffer() == buf,
            final(self).spec_texture_buffers() == old(self).spec_texture_buffers(),
            installed == (buf is Some),
    {
        let installed = buf.is_some();
        self.default_framebuffer = buf;
        installed
    }
}

/// Hold a recomputed fingerprint against a recorded checkpoint: succeeds
/// exactly on equality, so replay stops at the first checkpoint after a
/// divergence, naming its serial number, and never silently continues past
/// one.
pub fn check_fingerprint(serial: usize, expected: u64, actual: u64) -> (r: Result<(), ReplayError>)
    ensures
        r is Ok <==> expected == actual,
        r matches Err(e) ==> e.serial == serial,
{
    crate::replay::check_return_u64("fingerprint", serial, expected, actual)
}

/// Hold a color-buffer readback against its recording: the dimensions and
/// stride must agree and the words behind the returned pointer must match
/// bit for bit.
pub fn check_color_buffer(
    serial: usize,
    expected_words: &Vec<u32>,
    expected_dims: (i32, i32, i32),
    actual_words: &Vec<u32>,
    actual_dims: (i32, i32, i32),
) -> (r: Result<(), ReplayError>)
    ensures
        r is Ok <==> (expected_words@ == actual_words@ && expected_dims == actual_dims),
        r matches Err(e) ==> e.serial == serial,
{
    if expected_dims.0 != actual_dims.0 || expected_dims.1 != actual_dims.1 || expected_dims.2
        != actual_dims.2 {
        return Err(ReplayError { method: "get_color_buffer", serial });
    }
    crate::replay::check_returned_ids("get_color_buffer", serial, expected_words, actual_words)
}


/// How many bytes back a rasterizer buffer of the given layout: bytes per
/// pixel times the row span times the height, where a nonzero stride takes
/// the width's place. Nothing when the stride is smaller than the width or
/// the size cannot be addressed.
pub open spec fn spec_swgl_buffer_len(
    bytes_per_pixel: usize,
    width: i32,
    height: i32,
    stride: i32,
) -> Option<nat> {
    if stride != 0 && !(width <= stride) {
        None
    } else {
        let row: i32 = if stride != 0 {
            stride
        } else {
            width
        };
        if row < 0 || height < 0 {
            None
        } else {
            let n = bytes_per_pixel * row * height;
            if bytes_per_pixel * row > usize::MAX || n > usize::MAX {
                None
            } else {
                Some(n as nat)
            }
        }
    }
}

/// [`spec_swgl_buffer_len`], executably: how many bytes a caller must
/// capture when a backing-store buffer is installed.
pub fn swgl_buffer_len(bytes_per_pixel: usize, width: i32, height: i32, stride: i32) -> (r: Option<
    usize,
>)
    ensures
        match r {
            Some(n) => spec_swgl_buffer_len(bytes_per_pixel, width, height, stride) == Some(
                n as nat,
            ),
            None => spec_swgl_buffer_len(bytes_per_pixel, width, height, stride) is None,
        },
{
    if stride != 0 && !(width <= stride) {
        return None;
    }
    let row: i32 = if stride != 0 {
        stride
    } else {
        width
    };
    if row < 0 || height < 0 {
        return None;
    }
    match bytes_per_pixel.checked_mul(row as usize) {
        Some(p) => p.checked_mul(height as usize),
        None => None,
    }
}

/// The digest summarizing rasterizer-visible state: every resident texture
/// buffer, in the order the rasterizer hands them out, folded through the
/// standard hasher. Cheap to compute, and a function of the buffer contents
/// alone.
pub fn fingerprint(buffers: &Vec<Vec<u8>>) -> (r: u64)
    ensures
        r == DefaultHasher::spec_finish(crate::var::views_of(buffers@)),
{
    let mut h = DefaultHasher::new();
    let n = buffers.len();
    let mut i: usize = 0;
    while i < n
        invariant
            i <= n,
            n == buffers@.len(),
            h@ == crate::var::views_of(buffers@).take(i as int),
        decreases n - i,
    {
        proof {
            assert(crate::var::views_of(buffers@).take(i + 1) =~= crate::var::views_of(
                buffers@,
            ).take(i as int).push(buffers@[i as int]@));
        }
        h.write(buffers[i].as_slice());
        i = i + 1;
    }
    proof {
        assert(crate::var::views_of(buffers@).take(n as int) =~= crate::var::views_of(buffers@));
    }
    h.finish()
}

/// Compute the digest over the given buffers and append it to the recording
/// as a fingerprint checkpoint: the recorder-level hook that runs after every
/// recorded call when fingerprinting is installed.
pub fn fingerprinter<Cs: CallStream<Call>>(cs: &mut Cs, buffers: &Vec<Vec<u8>>) -> (serial: usize)
    ensures
        final(cs).contents() == old(cs).contents(),
        final(cs).calls() == old(cs).calls().push(
            Call::fingerprint(DefaultHasher::spec_finish(crate::var::views_of(buffers@))),
        ),
        serial == old(cs).calls().len(),
{
    let digest = fingerprint(buffers);
    record_fingerprint(cs, digest)
}

} // verus!

