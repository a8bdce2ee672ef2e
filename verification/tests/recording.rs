//! Recording, resolving, and validating calls end to end, in memory.

use gl_replay::call::{Call, TexImageData};
use gl_replay::file_stream::{Header, Recording};
use gl_replay::pixels::{Pixels, GL_ALPHA, GL_RGBA, GL_UNSIGNED_BYTE};
use gl_replay::recorder::{
    record_buffer_data_untyped, record_gen_buffers, record_get_uniform_location,
    record_read_pixels_into_buffer, record_shader_source, record_simple,
    record_tex_sub_image_3d_pbo, tex_image_upload_len, Recorder,
};
use gl_replay::replay::{check_return_i32, check_returned_ids, get_pixels, get_seq, get_str};
use gl_replay::serialize::DeserializeError;
use gl_replay::var::{read_byte_seqs, read_rle, read_seq_at, read_str, write_rle, write_seq,
    write_str, CallStream, Stream};
use gl_replay::{gl_magic, pack_magic, swgr_magic};

// The magic numbers pack their ASCII names high byte first.
#[test]
fn magic_numbers() {
    assert_eq!(pack_magic(b'G', b'L', b'R', b'R'), 0x474c5252);
    assert_eq!(gl_magic(), 0x474c5252);
    assert_eq!(swgr_magic(), 0x53574752);
}

// Creating a recording, writing calls and variable bytes, and reading the
// header back yields exactly what was written; a reader expecting a different
// magic number or call size is refused with both headers in hand.
#[test]
fn header_round_trip() {
    let mut rec: Recording<Call> = Recording::new();
    let s0 = rec.write_call(Call::flush {});
    let s1 = rec.write_call(Call::finish {});
    assert_eq!((s0, s1), (0, 1));
    rec.write_unaligned(&[1, 2, 3, 4, 5]);
    assert_eq!(rec.calls.len(), 2);
    assert_eq!(rec.variable, vec![1, 2, 3, 4, 5]);
    assert_eq!(rec.call_serial(), 2);
    assert_eq!(rec.mark(), 5);

    let call_size = std::mem::size_of::<Call>() as u8;
    let header = Header::for_call(gl_magic(), call_size, 8);
    let bytes = header.to_bytes();
    assert_eq!(bytes.len(), 8);
    let parsed = Header::parse(&bytes).unwrap();
    assert_eq!(parsed, header);
    assert!(parsed.check(gl_magic(), call_size, 8).is_ok());

    // A different expected magic number is rejected, not misread.
    let err = parsed.check(swgr_magic(), call_size, 8).unwrap_err();
    assert_eq!(err.actual, header);
    assert_eq!(err.expected.magic, swgr_magic());
    // A build whose call size differs is rejected too.
    assert!(parsed.check(gl_magic(), call_size.wrapping_add(1), 8).is_err());
    // The padding byte is not compared.
    let mut scribbled = parsed;
    scribbled.padding = 0;
    assert!(scribbled.check(gl_magic(), call_size, 8).is_ok());
    // A truncated header is refused.
    assert_eq!(Header::parse(&bytes[..7]), Err(DeserializeError::UnexpectedEof));
}

// Both call unions stay within the single size byte the header stores.
#[test]
fn call_size_bound() {
    assert!(std::mem::size_of::<Call>() <= 255);
    assert!(std::mem::size_of::<gl_replay::swgl::Call>() <= 255);
}

// A recorded buffer upload captures its bytes, and they resolve back.
#[test]
fn record_and_resolve_buffer_data() {
    let mut rec: Recording<Call> = Recording::new();
    let data = vec![9u8, 8, 7, 6, 5];
    let serial = record_buffer_data_untyped(&mut rec, 34962, &data, 35044);
    assert_eq!(serial, 0);
    match rec.calls[0] {
        Call::buffer_data_untyped { target, size_data, usage } => {
            assert_eq!((target, usage), (34962, 35044));
            let got = get_seq::<u8>(&rec.variable, size_data).unwrap();
            assert_eq!(got, data);
        }
        _ => panic!("wrong call recorded"),
    }
}

// Replaying a recorded id-allocating call against a target that returns the
// same ids passes; a different count or value is refused, naming the call
// and serial.
#[test]
fn replay_validates_generated_ids() {
    let mut rec: Recording<Call> = Recording::new();
    let ids = vec![3u32, 4, 5];
    let serial = record_gen_buffers(&mut rec, 3, &ids);
    let recorded = match rec.calls[0] {
        Call::gen_buffers { returned, .. } => get_seq::<u32>(&rec.variable, returned).unwrap(),
        _ => panic!("wrong call recorded"),
    };
    assert!(check_returned_ids("gen_buffers", serial, &recorded, &vec![3, 4, 5]).is_ok());

    let err = check_returned_ids("gen_buffers", serial, &recorded, &vec![3, 4]).unwrap_err();
    assert_eq!((err.method, err.serial), ("gen_buffers", 0));
    let err = check_returned_ids("gen_buffers", serial, &recorded, &vec![3, 4, 6]).unwrap_err();
    assert_eq!((err.method, err.serial), ("gen_buffers", 0));
}

// A uniform-location query records its name and expected location; replay
// compares the location exactly.
#[test]
fn uniform_location_round_trip() {
    let mut rec: Recording<Call> = Recording::new();
    let serial = record_get_uniform_location(&mut rec, 11, "uColor", 7);
    match rec.calls[0] {
        Call::get_uniform_location { program, name, returned } => {
            assert_eq!((program, returned), (11, 7));
            assert_eq!(get_str(&rec.variable, name).unwrap(), "uColor");
            assert!(check_return_i32("get_uniform_location", serial, returned, 7).is_ok());
            let err = check_return_i32("get_uniform_location", serial, returned, -1).unwrap_err();
            assert_eq!(err.serial, serial);
        }
        _ => panic!("wrong call recorded"),
    }
}

// Recording a 3-D sub-image upload while a pixel-unpack buffer is bound
// stores the exact offset; with none bound it captures exactly the
// pixel-transfer bytes.
#[test]
fn tex_upload_ambiguity() {
    let mut rec: Recording<Call> = Recording::new();
    record_tex_sub_image_3d_pbo(
        &mut rec, 3553, 0, 0, 0, 0, 2, 2, 1, GL_RGBA, GL_UNSIGNED_BYTE, 9, 0x1234, None,
    );
    match rec.calls[0] {
        Call::tex_sub_image_3d_pbo { offset: TexImageData::Offset(o), .. } => {
            assert_eq!(o, 0x1234)
        }
        _ => panic!("a bound pixel-unpack buffer must record an offset"),
    }
    assert!(rec.variable.is_empty());

    // No buffer bound: the caller computes the transfer size and captures
    // exactly that many bytes.
    let len = tex_image_upload_len(2, 1, 2, GL_RGBA, GL_UNSIGNED_BYTE, 0).unwrap();
    assert_eq!(len, 16);
    // An unpack-row-length override takes the width's place.
    assert_eq!(tex_image_upload_len(2, 1, 2, GL_RGBA, GL_UNSIGNED_BYTE, 3), Some(24));
    // An override smaller than the width is refused.
    assert_eq!(tex_image_upload_len(2, 1, 2, GL_RGBA, GL_UNSIGNED_BYTE, 1), None);

    let bytes: Vec<u8> = (0..16u8).collect();
    record_tex_sub_image_3d_pbo(
        &mut rec, 3553, 0, 0, 0, 0, 2, 1, 2, GL_RGBA, GL_UNSIGNED_BYTE, 0, 0, Some(&bytes),
    );
    match rec.calls[1] {
        Call::tex_sub_image_3d_pbo { offset: TexImageData::Buf(var), .. } => {
            assert_eq!(get_seq::<u8>(&rec.variable, var).unwrap(), bytes);
        }
        _ => panic!("no bound pixel-unpack buffer must capture the bytes"),
    }
}

// A pixel block in a 1-byte-per-pixel format round trips, and its payload is
// the single run the concrete example calls for.
#[test]
fn pixel_block_round_trip_one_byte() {
    let mut rec: Recording<Call> = Recording::new();
    rec.write_unaligned(&[0xEE]);  // misalign the stream first
    let p = Pixels {
        width: 2,
        height: 2,
        depth: 1,
        format: GL_ALPHA,
        pixel_type: GL_UNSIGNED_BYTE,
        bytes: vec![10, 10, 10, 10],
    };
    let pos = p.serialize(&mut rec).unwrap();
    assert_eq!(pos, 4);
    // Alignment padding, then width, height, depth, format (0x1906),
    // pixel type (0x1401), payload length, and the run itself.
    assert_eq!(
        rec.variable[1..],
        [0x50, 0x50, 0x50, 2, 2, 1, 0x86, 0x32, 0x81, 0x28, 2, 4, 10]
    );
    let (q, end) = Pixels::deserialize(&rec.variable, pos).unwrap();
    assert_eq!(end, rec.variable.len());
    assert_eq!(
        (q.width, q.height, q.depth, q.format, q.pixel_type),
        (2, 2, 1, GL_ALPHA, GL_UNSIGNED_BYTE)
    );
    assert_eq!(q.bytes, vec![10, 10, 10, 10]);
}

// A four-byte-per-pixel block goes through the word path and round trips.
#[test]
fn pixel_block_round_trip_four_byte() {
    let mut rec: Recording<Call> = Recording::new();
    let p = Pixels {
        width: 2,
        height: 2,
        depth: 1,
        format: GL_RGBA,
        pixel_type: GL_UNSIGNED_BYTE,
        bytes: vec![1, 2, 3, 4, 1, 2, 3, 4, 1, 2, 3, 4, 9, 9, 9, 9],
    };
    let pos = p.serialize(&mut rec).unwrap();
    let handle: gl_replay::form::Var<gl_replay::pixels::PixelsForm> =
        gl_replay::form::Var::new(pos);
    let q = get_pixels(&rec.variable, handle).unwrap();
    assert_eq!(
        (q.width, q.height, q.depth, q.format, q.pixel_type),
        (2, 2, 1, GL_RGBA, GL_UNSIGNED_BYTE)
    );
    assert_eq!(q.bytes, p.bytes);
}

// A block whose bytes disagree with its dimensions, or whose pixel width is
// not implemented, is refused by name.
#[test]
fn pixel_block_refusals() {
    let mut rec: Recording<Call> = Recording::new();
    let short = Pixels {
        width: 2,
        height: 2,
        depth: 1,
        format: GL_ALPHA,
        pixel_type: GL_UNSIGNED_BYTE,
        bytes: vec![10, 10],
    };
    assert_eq!(
        short.serialize(&mut rec),
        Err(gl_replay::pixels::PixelsError::SizeMismatch)
    );
    let two_wide = Pixels {
        width: 1,
        height: 1,
        depth: 1,
        format: GL_ALPHA,
        pixel_type: gl_replay::pixels::GL_UNSIGNED_SHORT,
        bytes: vec![0, 0],
    };
    assert_eq!(
        two_wide.serialize(&mut rec),
        Err(gl_replay::pixels::PixelsError::UnsupportedFormat)
    );
    assert!(rec.variable.is_empty());
}

// Sequences and strings written to the variable stream read back, and
// corrupt ones are refused with the right error.
#[test]
fn sequence_and_string_round_trip() {
    let mut rec: Recording<Call> = Recording::new();
    rec.write_unaligned(&[0xAB, 0xCD, 0xEF]);  // arbitrary preceding data
    let words = vec![0xdead_beefu32, 42, 0];
    let pos = write_seq::<Recording<Call>, u32>(&mut rec, &words);
    let text = "hello, recording";
    let spos = write_str(&mut rec, text);
    let (got, _) = read_seq_at::<u32>(&rec.variable, pos).unwrap();
    assert_eq!(got, words);
    assert_eq!(read_str(&rec.variable, spos).unwrap(), text);

    // Truncation is reported as such.
    let cut = &rec.variable[..rec.variable.len() - 1];
    assert_eq!(read_str(cut, spos), Err(DeserializeError::UnexpectedEof));

    // Bytes that are not UTF-8 are refused as such.
    let mut bad: Recording<Call> = Recording::new();
    let bpos = write_seq::<Recording<Call>, u8>(&mut bad, &vec![0xff, 0xfe]);
    assert_eq!(read_str(&bad.variable, bpos), Err(DeserializeError::BadUTF8));
}

// A varint count too large for any machine word is refused, not truncated.
#[test]
fn oversized_count_is_refused() {
    let stream = [0xff, 0xff, 0xff, 0xff, 0xff, 0xff, 0xff, 0xff, 0xff, 0x7f, 1];
    assert_eq!(
        gl_replay::rle::read_u8(&stream),
        Err(DeserializeError::CountOverflow)
    );
}

// The recorder wrapper: construction, the wrapped value, the stream, and the
// fingerprinting switch.
#[test]
fn recorder_wrapper() {
    let rec: Recording<Call> = Recording::new();
    let mut r = Recorder::new("a placeholder drawing interface", rec);
    assert_eq!(*r.inner_gl(), "a placeholder drawing interface");
    assert!(!r.fingerprinting());
    let serial = record_simple(r.lock_call_stream(), Call::flush {});
    assert_eq!(serial, 0);
    assert_eq!(r.lock_call_stream().call_serial(), 1);
    let r = r.with_fingerprinter();
    assert!(r.fingerprinting());
}

// A captured pixel readback resolves back through its handle.
#[test]
fn record_pixel_readback() {
    let mut rec: Recording<Call> = Recording::new();
    let p = Pixels {
        width: 2,
        height: 1,
        depth: 1,
        format: GL_RGBA,
        pixel_type: GL_UNSIGNED_BYTE,
        bytes: vec![1, 2, 3, 4, 1, 2, 3, 4],
    };
    let serial = record_read_pixels_into_buffer(&mut rec, 5, 6, &p).unwrap();
    assert_eq!(serial, 0);
    match rec.calls[0] {
        Call::read_pixels_into_buffer { x: 5, y: 6, pixels } => {
            let q = get_pixels(&rec.variable, pixels).unwrap();
            assert_eq!(q.bytes, p.bytes);
            assert_eq!((q.width, q.height, q.depth), (2, 1, 1));
        }
        _ => panic!("wrong call recorded"),
    }
}

// Bytes pushed through the generic run-length form of the variable stream
// come back out unchanged.
#[test]
fn rle_form_round_trip() {
    let mut rec: Recording<Call> = Recording::new();
    let data: Vec<u8> = vec![0, 0, 0, 0, 9, 8, 7, 7, 7, 7, 7, 1];
    let pos = write_rle(&mut rec, &data);
    assert_eq!(pos, 0);
    assert_eq!(read_rle(&rec.variable, pos).unwrap(), data);
}

// Shader sources are recorded element by element and resolve back in order.
#[test]
fn shader_source_round_trip() {
    let mut rec: Recording<Call> = Recording::new();
    let sources: Vec<Vec<u8>> = vec![
        b"#version 300 es\n".to_vec(),
        b"void main() {}\n".to_vec(),
        Vec::new(),
    ];
    record_shader_source(&mut rec, 17, &sources);
    match rec.calls[0] {
        Call::shader_source { shader: 17, strings } => {
            let (got, _) = read_byte_seqs(&rec.variable, strings.offset()).unwrap();
            assert_eq!(got, sources);
        }
        _ => panic!("wrong call recorded"),
    }
}


// The variable-stream size valve: configurable, and tripped exactly when the
// stream outgrows it.
#[test]
fn size_limit_valve() {
    let mut rec: Recording<Call> = Recording::new();
    assert_eq!(rec.size_limit, gl_replay::file_stream::DEFAULT_SIZE_LIMIT);
    assert_eq!(rec.size_limit, 4 * 1024 * 1024 * 1024);
    assert!(!rec.size_limit_exceeded());
    rec.set_size_limit(4);
    rec.write_unaligned(&[1, 2, 3, 4]);
    assert!(!rec.size_limit_exceeded());
    rec.write_unaligned(&[5]);
    assert!(rec.size_limit_exceeded());
}

// A degenerate rectangle cannot be rendered: the encoder refuses it by name
// rather than producing an empty image.
#[test]
fn png_refuses_zero_dimensions() {
    let empty = Pixels {
        width: 0,
        height: 0,
        depth: 1,
        format: GL_RGBA,
        pixel_type: GL_UNSIGNED_BYTE,
        bytes: Vec::new(),
    };
    assert_eq!(
        empty.to_png(),
        Err(gl_replay::pixels::PixelsError::EncodingFailed)
    );
}

// With the fingerprinter installed, the after-call hook appends a checkpoint
// carrying the digest of the given buffers; without it, it appends nothing.
#[test]
fn fingerprint_hook() {
    let buffers = vec![vec![1u8, 2, 3]];
    let digest = gl_replay::swgl::fingerprint(&buffers);

    let rec: Recording<gl_replay::swgl::Call> = Recording::new();
    let mut plain = Recorder::new(0u8, rec);
    assert_eq!(plain.fingerprint_after_call(&buffers), None);
    let (_, stream) = plain.into_parts();
    assert!(stream.calls.is_empty());

    let rec: Recording<gl_replay::swgl::Call> = Recording::new();
    let mut printing = Recorder::new(0u8, rec).with_fingerprinter();
    assert_eq!(printing.fingerprint_after_call(&buffers), Some(0));
    let (_, stream) = printing.into_parts();
    match stream.calls[0] {
        gl_replay::swgl::Call::fingerprint(d) => assert_eq!(d, digest),
        _ => panic!("wrong call recorded"),
    }
}
