//! The run-length codec on concrete streams.

use gl_replay::rle::{read_u32, read_u8, write_u32, write_u8};

#[test]
fn test_write_u8() {
    fn check(data: &[u8], rle: &[u8]) {
        let mut buf = vec![];
        write_u8(&mut buf, data);
        assert_eq!(buf, rle);
    }

    check(&[], &[]);
    check(&[1], &[1, 1]);
    check(&[1, 1], &[2, 1]);
    check(&[1, 1, 1, 2, 2, 2, 2], &[3, 1, 0, 4, 2]);
    check(&[1, 2, 3, 4, 5, 6], &[1, 1, 5, 2, 3, 4, 5, 6]);
    check(&[1, 2, 3, 3, 3], &[1, 1, 4, 2, 3, 3, 3]);
    check(&[1, 2, 3, 3, 3, 3], &[1, 1, 1, 2, 4, 3]);
    check(&[1, 2, 3, 3, 3, 3, 3], &[1, 1, 1, 2, 5, 3]);

    check(&[1, 2, 3, 3, 3, 3, 3, 4, 5], &[1, 1, 1, 2, 5, 3, 2, 4, 5]);
    check(
        &[1, 2, 3, 3, 3, 3, 4, 4, 4, 4, 5, 5, 5, 5],
        &[1, 1, 1, 2, 4, 3, 0, 4, 4, 0, 4, 5],
    );
}

#[test]
fn test_write_u32() {
    fn check(data: &[u32], rle: &[u32]) {
        let mut buf = vec![];
        write_u32(&mut buf, data);
        assert_eq!(buf, rle);
    }

    check(&[], &[]);
    check(&[90], &[1, 90]);
    check(&[1, 1], &[2, 1]);
    check(&[1, 1, 1, 2, 2, 2, 2], &[3, 1, 0, 4, 2]);
    check(&[1, 2, 3, 4, 5, 6], &[1, 1, 5, 2, 3, 4, 5, 6]);
    check(&[1, 2, 3, 3, 3], &[1, 1, 4, 2, 3, 3, 3]);
    check(&[1, 2, 3, 3, 3, 3], &[1, 1, 1, 2, 4, 3]);
    check(&[1, 2, 3, 3, 3, 3, 3], &[1, 1, 1, 2, 5, 3]);

    check(&[1, 2, 3, 3, 3, 3, 3, 4, 5], &[1, 1, 1, 2, 5, 3, 2, 4, 5]);
    check(
        &[1, 2, 3, 3, 3, 3, 4, 4, 4, 4, 5, 5, 5, 5],
        &[1, 1, 1, 2, 4, 3, 0, 4, 4, 0, 4, 5],
    );
}

#[test]
fn test_read_u8() {
    fn check(rle: &[u8], expected: &[u8]) {
        let result = read_u8(rle);

        assert_eq!(result.unwrap(), expected);
    }

    check(&[], &[]);
    check(&[1, 1], &[1]);
    check(&[2, 1], &[1, 1]);
    check(&[3, 1, 0, 4, 2], &[1, 1, 1, 2, 2, 2, 2]);
    check(&[1, 1, 5, 2, 3, 4, 5, 6], &[1, 2, 3, 4, 5, 6]);
    check(&[1, 1, 4, 2, 3, 3, 3], &[1, 2, 3, 3, 3]);
    check(&[1, 1, 1, 2, 4, 3], &[1, 2, 3, 3, 3, 3]);
    check(&[1, 1, 1, 2, 5, 3], &[1, 2, 3, 3, 3, 3, 3]);

    check(&[1, 1, 1, 2, 5, 3, 2, 4, 5], &[1, 2, 3, 3, 3, 3, 3, 4, 5]);
    check(
        &[1, 1, 1, 2, 4, 3, 0, 4, 4, 0, 4, 5],
        &[1, 2, 3, 3, 3, 3, 4, 4, 4, 4, 5, 5, 5, 5],
    );
}

#[test]
fn test_read_u32() {
    fn check(rle: &[u32], expected: &[u32]) {
        let result = read_u32(rle);

        assert_eq!(result.unwrap(), expected);
    }

    check(&[], &[]);
    check(&[1, 90], &[90]);
    check(&[3, 1, 0, 4, 2], &[1, 1, 1, 2, 2, 2, 2]);
    check(&[1, 1, 1, 2, 4, 3], &[1, 2, 3, 3, 3, 3]);
}

// A long run needs a multi-byte LEB128 count in the byte stream, while the
// word stream stores the same count as one word.
#[test]
fn multibyte_counts() {
    let data = vec![7u8; 300];
    let mut buf = vec![];
    write_u8(&mut buf, &data);
    assert_eq!(buf, &[0xac, 0x02, 7]);
    assert_eq!(read_u8(&buf).unwrap(), data);

    let words = vec![7u32; 300];
    let mut wbuf = vec![];
    write_u32(&mut wbuf, &words);
    assert_eq!(wbuf, &[300, 7]);
    assert_eq!(read_u32(&wbuf).unwrap(), words);
}

// Byte-stream and word-stream round trips over irregular data.
#[test]
fn round_trips() {
    let samples: Vec<Vec<u8>> = vec![
        vec![],
        vec![0],
        vec![0, 0, 0, 0, 0, 1, 2, 3, 9, 9, 9, 9, 9, 4],
        (0..=255u8).collect(),
        vec![5; 1000],
    ];
    for data in &samples {
        let mut buf = vec![];
        write_u8(&mut buf, data);
        assert_eq!(&read_u8(&buf).unwrap(), data);
    }

    let wsamples: Vec<Vec<u32>> = vec![
        vec![],
        vec![0xdead_beef],
        vec![1, 1, 1, 1, 2, 3, 4, 4, 4, 4, 4],
        (0..100u32).collect(),
    ];
    for data in &wsamples {
        let mut buf = vec![];
        write_u32(&mut buf, data);
        assert_eq!(&read_u32(&buf).unwrap(), data);
    }
}

// Malformed streams fail rather than mis-expand: a truncated count, a count
// with no value, and a literal that runs past the end.
#[test]
fn malformed_streams() {
    assert!(read_u8(&[0x80]).is_err());
    assert!(read_u8(&[3]).is_err());
    assert!(read_u8(&[1, 1, 5, 2, 3]).is_err());
    assert!(read_u32(&[2]).is_err());
    assert!(read_u32(&[1, 1, 3, 9]).is_err());
}
