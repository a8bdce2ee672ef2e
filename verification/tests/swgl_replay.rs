//! The software-rasterizer extension: recording its entry points and driving
//! the replay state machine.

use gl_replay::file_stream::Recording;
use gl_replay::replay::get_seq;
use gl_replay::swgl::{
    check_color_buffer, check_fingerprint, fingerprint, fingerprinter, record_fingerprint,
    record_get_color_buffer, record_init_default_framebuffer, record_note,
    record_set_texture_buffer, swgl_buffer_len, Call, ReplayState,
};
use gl_replay::var::CallStream;

// A note entry carries its text through the variable stream.
#[test]
fn note_round_trip() {
    let mut rec: Recording<Call> = Recording::new();
    let serial = record_note(&mut rec, "frame 1 begins");
    assert_eq!(serial, 0);
    match rec.calls[0] {
        Call::note(handle) => {
            assert_eq!(
                gl_replay::replay::get_str(&rec.variable, handle).unwrap(),
                "frame 1 begins"
            );
        }
        _ => panic!("wrong call recorded"),
    }
}

// An installed texture buffer is captured; an absent one records an unbind
// verbatim.
#[test]
fn set_texture_buffer_record() {
    let mut rec: Recording<Call> = Recording::new();
    let backing = vec![1u8, 1, 2, 2];
    record_set_texture_buffer(&mut rec, 7, 0x8058, 2, 2, 0, Some(&backing), 0, 0);
    record_set_texture_buffer(&mut rec, 7, 0x8058, 2, 2, 0, None, 0, 0);
    match rec.calls[0] {
        Call::set_texture_buffer { tex, buf: Some(handle), .. } => {
            assert_eq!(tex, 7);
            assert_eq!(get_seq::<u8>(&rec.variable, handle).unwrap(), backing);
        }
        _ => panic!("wrong first call"),
    }
    match rec.calls[1] {
        Call::set_texture_buffer { buf: None, .. } => {}
        _ => panic!("an unbind must record no buffer"),
    }
}

// The replay state owns texture backing stores: installing replaces, absent
// unbinds, and the default framebuffer is tracked separately.
#[test]
fn replay_state_ownership() {
    let mut state = ReplayState::new();
    assert!(state.install_texture_buffer(7, Some(vec![1, 2, 3])));
    assert!(state.install_texture_buffer(9, Some(vec![4])));
    assert_eq!(state.texture_buffer(7), Some(&vec![1, 2, 3]));
    // A later install for the same id supersedes the old buffer.
    assert!(state.install_texture_buffer(7, Some(vec![5, 6])));
    assert_eq!(state.texture_buffer(7), Some(&vec![5, 6]));
    // Unbinding removes the entry; others stay.
    assert!(!state.install_texture_buffer(7, None));
    assert_eq!(state.texture_buffer(7), None);
    assert_eq!(state.texture_buffer(9), Some(&vec![4]));

    assert!(state.install_default_framebuffer(Some(vec![0; 8])));
    assert!(!state.install_default_framebuffer(None));
}

// A fingerprint checkpoint stops replay at the first divergence, naming the
// serial number, and passes silently while the digests agree.
#[test]
fn fingerprint_divergence() {
    let mut rec: Recording<Call> = Recording::new();
    record_note(&mut rec, "checkpointed run");
    let serial = record_fingerprint(&mut rec, 0xfeed_f00d_dead_beef);
    match rec.calls[serial] {
        Call::fingerprint(expected) => {
            assert!(check_fingerprint(serial, expected, 0xfeed_f00d_dead_beef).is_ok());
            let err = check_fingerprint(serial, expected, 0xfeed_f00d_dead_bee0).unwrap_err();
            assert_eq!(err.serial, serial);
        }
        _ => panic!("wrong call recorded"),
    }
}

// A color-buffer readback validates pointer contents and dimensions exactly.
#[test]
fn color_buffer_validation() {
    let mut rec: Recording<Call> = Recording::new();
    let words = vec![0xffffffffu32, 0, 0xff00ff00, 0x00ff00ff];
    record_get_color_buffer(&mut rec, 0, true, &words, 2, 2, 2);
    match rec.calls[0] {
        Call::get_color_buffer { returned: (handle, w, h, s), .. } => {
            let expected = get_seq::<u32>(&rec.variable, handle).unwrap();
            assert!(check_color_buffer(0, &expected, (w, h, s), &words, (2, 2, 2)).is_ok());
            assert!(check_color_buffer(0, &expected, (w, h, s), &words, (2, 2, 4)).is_err());
            let other = vec![0u32, 0, 0, 0];
            assert!(check_color_buffer(0, &expected, (w, h, s), &other, (2, 2, 2)).is_err());
        }
        _ => panic!("wrong call recorded"),
    }
}

// An installed default framebuffer records its captured backing store.
#[test]
fn init_default_framebuffer_record() {
    let mut rec: Recording<Call> = Recording::new();
    let backing = vec![9u8; 16];
    record_init_default_framebuffer(&mut rec, 2, 2, 0, Some(&backing));
    match rec.calls[0] {
        Call::init_default_framebuffer { width: 2, height: 2, stride: 0, buf: Some(handle) } => {
            assert_eq!(get_seq::<u8>(&rec.variable, handle).unwrap(), backing);
        }
        _ => panic!("wrong call recorded"),
    }
    assert_eq!(rec.call_serial(), 1);
}

// The PNG rendering helper encodes a real image: the output starts with the
// PNG signature, so the bytes are an encoding, not the input handed back.
#[test]
fn png_snapshot() {
    let p = gl_replay::pixels::Pixels {
        width: 2,
        height: 1,
        depth: 1,
        format: gl_replay::pixels::GL_RGBA,
        pixel_type: gl_replay::pixels::GL_UNSIGNED_BYTE,
        bytes: vec![255, 0, 0, 255, 0, 255, 0, 255],
    };
    let png = p.to_png().unwrap();
    assert_eq!(&png[..8], &[137, 80, 78, 71, 13, 10, 26, 10]);

    let wrong = gl_replay::pixels::Pixels {
        width: 2,
        height: 1,
        depth: 1,
        format: gl_replay::pixels::GL_ALPHA,
        pixel_type: gl_replay::pixels::GL_UNSIGNED_BYTE,
        bytes: vec![1, 2],
    };
    assert_eq!(
        wrong.to_png(),
        Err(gl_replay::pixels::PixelsError::UnsupportedFormat)
    );
}

// The digest is a function of the buffer contents alone: two identical
// buffer sets agree, and one changed byte diverges, so a checkpoint recorded
// after the change fires.
#[test]
fn fingerprint_tracks_contents() {
    let run_a = vec![vec![1u8, 2, 3], vec![4u8; 16]];
    let run_b = vec![vec![1u8, 2, 3], vec![4u8; 16]];
    assert_eq!(fingerprint(&run_a), fingerprint(&run_b));
    let mut run_c = run_b.clone();
    run_c[1][7] = 5;
    assert_ne!(fingerprint(&run_a), fingerprint(&run_c));

    let mut rec: Recording<Call> = Recording::new();
    let serial = fingerprinter(&mut rec, &run_a);
    match rec.calls[serial] {
        Call::fingerprint(expected) => {
            assert!(check_fingerprint(serial, expected, fingerprint(&run_b)).is_ok());
            let err = check_fingerprint(serial, expected, fingerprint(&run_c)).unwrap_err();
            assert_eq!(err.serial, serial);
        }
        _ => panic!("wrong call recorded"),
    }
}

// Backing-store capture sizes: the stride overrides the width only when it
// is at least the width.
#[test]
fn buffer_capture_sizes() {
    assert_eq!(swgl_buffer_len(4, 10, 3, 0), Some(120));
    assert_eq!(swgl_buffer_len(4, 10, 3, 16), Some(192));
    assert_eq!(swgl_buffer_len(4, 10, 3, 9), None);
    assert_eq!(swgl_buffer_len(1, 0, 0, 0), Some(0));
}

// A composite call is all scalars: it records through the simple pattern.
#[test]
fn composite_record() {
    let mut rec: Recording<Call> = Recording::new();
    let serial = gl_replay::recorder::record_simple(
        &mut rec,
        Call::composite {
            src_id: 3,
            src_x: 0,
            src_y: 0,
            src_width: 16,
            src_height: 16,
            dst_x: 8,
            dst_y: 8,
            opaque: true,
            flip: false,
        },
    );
    assert_eq!(serial, 0);
    assert!(rec.variable.is_empty());
    match rec.calls[0] {
        Call::composite { src_id: 3, opaque: true, flip: false, .. } => {}
        _ => panic!("wrong call recorded"),
    }
}
