//! A representation for recorded drawing-interface method calls.

use vstd::prelude::*;
use crate::form::{SeqOf, Str, Var};
use crate::pixels::PixelsForm;

verus! {

/// The bit pattern of a 32-bit float argument. Recording neither reads nor
/// computes with such a value, so it rides through as its exact bits; a
/// caller converts at the boundary.
pub type GlFloatBits = u32;

/// The bit pattern of a 64-bit float argument.
pub type GlDoubleBits = u64;

/// Either captured client memory, or an offset into the currently bound
/// pixel-unpack buffer.
///
/// Several texture-upload methods take a final argument that is an address
/// when no pixel-unpack buffer is bound and a byte offset into that buffer
/// when one is — binding state invisible in the call's own arguments. A
/// captured buffer is recorded as `Buf`, to be handed back by address on
/// replay; an offset is recorded verbatim as `Offset`.
#[derive(Clone, Copy, Debug)]
pub enum TexImageData {
    /// The bytes the argument pointed at, captured to the variable stream.
    Buf(Var<SeqOf<u8>>),
    /// A byte offset into the bound pixel-unpack buffer, replayed as it is.
    Offset(usize),
}

/// One recorded drawing-interface method call.
///
/// One variant per method wired up for recording and replay, holding the
/// arguments — and, where replay must validate it, the `returned` value — as
/// inline scalars or as typed offsets into the variable-length stream. The
/// whole union stays relocatable by copy and must fit the single size byte
/// the recording header stores, 255 bytes.
#[allow(non_camel_case_types)]
#[derive(Clone, Copy, Debug)]
pub enum Call {
    active_texture { texture: u32, },
    bind_buffer { target: u32, buffer: u32, },
    bind_texture { target: u32, texture: u32, },
    bind_vertex_array { vao: u32, },
    buffer_data_untyped { target: u32, size_data: Var<SeqOf<u8>>, usage: u32, },
    clear_color { r: GlFloatBits, g: GlFloatBits, b: GlFloatBits, a: GlFloatBits, },
    disable { cap: u32 },
    disable_vertex_attrib_array { index: u32 },
    enable { cap: u32 },
    enable_vertex_attrib_array { index: u32 },
    gen_buffers { n: i32, returned: Var<SeqOf<u32>> },
    gen_framebuffers { n: i32, returned: Var<SeqOf<u32>> },
    gen_queries { n: i32, returned: Var<SeqOf<u32>> },
    gen_renderbuffers { n: i32, returned: Var<SeqOf<u32>> },
    gen_textures { n: i32, returned: Var<SeqOf<u32>> },
    gen_vertex_arrays { n: i32, returned: Var<SeqOf<u32>> },
    gen_vertex_arrays_apple { n: i32, returned: Var<SeqOf<u32>> },
    line_width { width: GlFloatBits },
    pixel_store_i { name: u32, param: i32, },
    scissor { x: i32, y: i32, width: i32, height: i32 },
    tex_image_2d { target: u32, level: i32, internal_format: i32, width: i32, height: i32, border: i32, format: u32, ty: u32, opt_data: Option<Var<SeqOf<u8>>> },
    tex_image_3d { target: u32, level: i32, internal_format: i32, width: i32, height: i32, depth: i32, border: i32, format: u32, ty: u32, opt_data: Option<Var<SeqOf<u8>>> },
    tex_parameter_f { target: u32, pname: u32, param: GlFloatBits },
    tex_parameter_i { target: u32, pname: u32, param: i32 },
    tex_sub_image_3d { target: u32, level: i32, xoffset: i32, yoffset: i32, zoffset: i32, width: i32, height: i32, depth: i32, format: u32, ty: u32, data: Var<SeqOf<u8>> },
    use_program { program: u32, },
    vertex_attrib_divisor { index: u32, divisor: u32 },
    vertex_attrib_i_pointer { index: u32, size: i32, type_: u32, stride: i32, offset: u32 },
    vertex_attrib_pointer { index: u32, size: i32, type_: u32, normalized: bool, stride: i32, offset: u32 },
    viewport { x: i32, y: i32, width: i32, height: i32 },
    bind_vertex_array_apple { vao: u32 },
    bind_renderbuffer { target: u32, renderbuffer: u32 },
    bind_framebuffer { target: u32, framebuffer: u32 },
    framebuffer_texture_2d { target: u32, attachment: u32, textarget: u32, texture: u32, level: i32 },
    framebuffer_texture_layer { target: u32, attachment: u32, texture: u32, level: i32, layer: i32 },
    blit_framebuffer { src_x0: i32, src_y0: i32, src_x1: i32, src_y1: i32, dst_x0: i32, dst_y0: i32, dst_x1: i32, dst_y1: i32, mask: u32, filter: u32 },
    hint { param_name: u32, param_val: u32 },
    is_enabled { cap: u32 },
    is_shader { shader: u32 },
    is_texture { texture: u32 },
    is_framebuffer { framebuffer: u32 },
    is_renderbuffer { renderbuffer: u32 },
    check_frame_buffer_status { target: u32 },
    renderbuffer_storage { target: u32, internalformat: u32, width: i32, height: i32 },
    framebuffer_renderbuffer { target: u32, attachment: u32, renderbuffertarget: u32, renderbuffer: u32 },
    tex_sub_image_2d_pbo { target: u32, level: i32, xoffset: i32, yoffset: i32, width: i32, height: i32, format: u32, ty: u32, offset: TexImageData },
    flush {  },
    finish {  },
    depth_mask { flag: bool },
    create_program { returned: u32 },
    create_shader { shader_type: u32, returned: u32 },
    shader_source { shader: u32, strings: Var<SeqOf<SeqOf<u8>>> },
    compile_shader { shader: u32 },
    get_shader_iv { shader: u32, pname: u32, result: Var<SeqOf<i32>> },
    attach_shader { program: u32, shader: u32 },
    bind_attrib_location { program: u32, index: u32, name: Var<Str> },
    link_program { program: u32 },
    delete_shader { shader: u32 },
    detach_shader { program: u32, shader: u32 },
    clear { buffer_mask: u32 },
    clear_depth { depth: GlDoubleBits },
    clear_stencil { s: i32 },
    get_attrib_location { program: u32, name: Var<Str> },
    get_frag_data_location { program: u32, name: Var<Str> },
    get_uniform_location { program: u32, name: Var<Str>, returned: i32 },
    get_program_iv { program: u32, pname: u32, result: Var<SeqOf<i32>> },
    uniform_1i { location: i32, v0: i32 },
    uniform_1iv { location: i32, values: Var<SeqOf<i32>> },
    uniform_1f { location: i32, v0: GlFloatBits },
    uniform_1fv { location: i32, values: Var<SeqOf<GlFloatBits>> },
    uniform_1ui { location: i32, v0: u32 },
    uniform_2f { location: i32, v0: GlFloatBits, v1: GlFloatBits },
    uniform_2fv { location: i32, values: Var<SeqOf<GlFloatBits>> },
    uniform_2i { location: i32, v0: i32, v1: i32 },
    uniform_2iv { location: i32, values: Var<SeqOf<i32>> },
    uniform_2ui { location: i32, v0: u32, v1: u32 },
    uniform_3f { location: i32, v0: GlFloatBits, v1: GlFloatBits, v2: GlFloatBits },
    uniform_3fv { location: i32, values: Var<SeqOf<GlFloatBits>> },
    uniform_3i { location: i32, v0: i32, v1: i32, v2: i32 },
    uniform_3iv { location: i32, values: Var<SeqOf<i32>> },
    uniform_3ui { location: i32, v0: u32, v1: u32, v2: u32 },
    uniform_4f { location: i32, x: GlFloatBits, y: GlFloatBits, z: GlFloatBits, w: GlFloatBits },
    uniform_4i { location: i32, x: i32, y: i32, z: i32, w: i32 },
    uniform_4iv { location: i32, values: Var<SeqOf<i32>> },
    uniform_4ui { location: i32, x: u32, y: u32, z: u32, w: u32 },
    uniform_4fv { location: i32, values: Var<SeqOf<GlFloatBits>> },
    uniform_matrix_2fv { location: i32, transpose: bool, value: Var<SeqOf<GlFloatBits>> },
    uniform_matrix_3fv { location: i32, transpose: bool, value: Var<SeqOf<GlFloatBits>> },
    uniform_matrix_4fv { location: i32, transpose: bool, value: Var<SeqOf<GlFloatBits>> },
    depth_range { near: GlDoubleBits, far: GlDoubleBits },
    draw_elements_instanced { mode: u32, count: i32, element_type: u32, indices_offset: u32, primcount: i32 },
    blend_color { r: GlFloatBits, g: GlFloatBits, b: GlFloatBits, a: GlFloatBits },
    blend_func { sfactor: u32, dfactor: u32 },
    blend_func_separate { src_rgb: u32, dest_rgb: u32, src_alpha: u32, dest_alpha: u32 },
    blend_equation { mode: u32 },
    blend_equation_separate { mode_rgb: u32, mode_alpha: u32 },
    color_mask { r: bool, g: bool, b: bool, a: bool },
    cull_face { mode: u32 },
    front_face { mode: u32 },
    depth_func { func: u32 },
    invalidate_framebuffer { target: u32, attachments: Var<SeqOf<u32>> },
    invalidate_sub_framebuffer { target: u32, attachments: Var<SeqOf<u32>>, xoffset: i32, yoffset: i32, width: i32, height: i32 },
    read_buffer { mode: u32 },
    read_pixels_into_buffer { x: i32, y: i32, pixels: Var<PixelsForm> },
    read_pixels { x: i32, y: i32, width: i32, height: i32, format: u32, pixel_type: u32, returned: Var<SeqOf<u8>> },
    read_pixels_into_pbo { x: i32, y: i32, width: i32, height: i32, format: u32, pixel_type: u32 },
    sample_coverage { value: GlFloatBits, invert: bool },
    polygon_offset { factor: GlFloatBits, units: GlFloatBits },
    begin_query { target: u32, id: u32 },
    end_query { target: u32 },
    query_counter { id: u32, target: u32 },
    get_query_object_iv { id: u32, pname: u32, returned: i32 },
    get_query_object_uiv { id: u32, pname: u32, returned: u32 },
    get_query_object_i64v { id: u32, pname: u32, returned: i64 },
    get_query_object_ui64v { id: u32, pname: u32, returned: u64 },
    delete_queries { queries: Var<SeqOf<u32>> },
    delete_vertex_arrays { vertex_arrays: Var<SeqOf<u32>> },
    delete_vertex_arrays_apple { vertex_arrays: Var<SeqOf<u32>> },
    delete_buffers { buffers: Var<SeqOf<u32>> },
    delete_renderbuffers { renderbuffers: Var<SeqOf<u32>> },
    delete_framebuffers { framebuffers: Var<SeqOf<u32>> },
    delete_textures { textures: Var<SeqOf<u32>> },
    delete_program { program: u32 },
    tex_sub_image_3d_pbo { target: u32, level: i32, xoffset: i32, yoffset: i32, zoffset: i32, width: i32, height: i32, depth: i32, format: u32, ty: u32, offset: TexImageData },
    tex_storage_2d { target: u32, levels: i32, internal_format: u32, width: i32, height: i32 },
    tex_storage_3d { target: u32, levels: i32, internal_format: u32, width: i32, height: i32, depth: i32 },
    get_tex_image_into_buffer { target: u32, level: i32, format: u32, ty: u32, output: Var<SeqOf<u8>> },
    copy_image_sub_data { src_name: u32, src_target: u32, src_level: i32, src_x: i32, src_y: i32, src_z: i32, dst_name: u32, dst_target: u32, dst_level: i32, dst_x: i32, dst_y: i32, dst_z: i32, src_width: i32, src_height: i32, src_depth: i32 },
    generate_mipmap { target: u32 },
}

} // verus!
