//! Byte-level primitives: values that serialize as their raw bytes.
//!
//! A [`Simple`] type is an ordinary fixed-width scalar with no embedded
//! addresses and no process-specific meaning, so a value of it can be written
//! to a recording as a short little-endian byte string and read back the same
//! way on any host this format supports. This is strictly narrower than
//! "copyable": a borrowed string slice is `Copy`, yet an address is only
//! meaningful inside the address space that produced it, so it is excluded.

use vstd::prelude::*;

verus! {

/// A scalar that serializes as its little-endian bytes.
pub trait Simple: Sized + Copy {
    /// How many bytes one value occupies.
    spec fn byte_len() -> nat;

    /// The alignment the variable-length stream gives a value of this type.
    spec fn align_of() -> nat;

    /// The little-endian bytes of `self`.
    spec fn to_byte_seq(self) -> Seq<u8>;

    /// The value the bytes `s` spell, read little-endian.
    spec fn from_byte_seq(s: Seq<u8>) -> Self;

    /// Sizes and alignments are small, positive, and consistent.
    proof fn lemma_layout()
        ensures
            1 <= Self::byte_len() <= 8,
            1 <= Self::align_of() <= 8,
    ;

    /// A value's byte string has exactly `byte_len` bytes.
    proof fn lemma_to_len(self)
        ensures
            self.to_byte_seq().len() == Self::byte_len(),
    ;

    /// Reading back what was written yields the value again.
    proof fn lemma_bytes_round_trip(self)
        ensures
            Self::from_byte_seq(self.to_byte_seq()) == self,
    ;

    /// `byte_len`, for executable code.
    fn exec_byte_len() -> (r: usize)
        ensures
            r == Self::byte_len(),
    ;

    /// `align_of`, for executable code.
    fn exec_align() -> (r: usize)
        ensures
            r == Self::align_of(),
    ;

    /// Append the bytes of `self` to `out`.
    fn push_bytes(&self, out: &mut Vec<u8>)
        ensures
            final(out)@ == old(out)@ + self.to_byte_seq(),
    ;

    /// Read one value whose bytes start at `pos`.
    fn read_at(buf: &[u8], pos: usize) -> (r: Self)
        requires
            pos + Self::byte_len() <= buf@.len(),
        ensures
            r == Self::from_byte_seq(buf@.subrange(pos as int, pos + Self::byte_len())),
    ;
}

/// The bytes of a value, as a fresh buffer.
pub fn as_bytes<T: Simple>(r: &T) -> (out: Vec<u8>)
    ensures
        out@ == r.to_byte_seq(),
{
    let mut v: Vec<u8> = Vec::new();
    r.push_bytes(&mut v);
    v
}

impl Simple for u8 {
    open spec fn byte_len() -> nat {
        1
    }

    open spec fn align_of() -> nat {
        1
    }

    open spec fn to_byte_seq(self) -> Seq<u8> {
        seq![self]
    }

    open spec fn from_byte_seq(s: Seq<u8>) -> u8 {
        s[0]
    }

    proof fn lemma_layout() {
    }

    proof fn lemma_to_len(self) {
    }

    proof fn lemma_bytes_round_trip(self) {
    }

    fn exec_byte_len() -> (r: usize) {
        1
    }

    fn exec_align() -> (r: usize) {
        1
    }

    fn push_bytes(&self, out: &mut Vec<u8>) {
        out.push(*self);
        assert(out@ =~= old(out)@ + seq![*self]);
    }

    fn read_at(buf: &[u8], pos: usize) -> (r: u8) {
        let b = buf[pos];
        assert(buf@.subrange(pos as int, pos + 1)[0] == b);
        b
    }
}

impl Simple for u32 {
    open spec fn byte_len() -> nat {
        4
    }

    open spec fn align_of() -> nat {
        4
    }

    open spec fn to_byte_seq(self) -> Seq<u8> {
        seq![
            (self & 0xff) as u8,
            ((self >> 8) & 0xff) as u8,
            ((self >> 16) & 0xff) as u8,
            ((self >> 24) & 0xff) as u8,
        ]
    }

    open spec fn from_byte_seq(s: Seq<u8>) -> u32 {
        (s[0] as u32) | ((s[1] as u32) << 8) | ((s[2] as u32) << 16) | ((s[3] as u32) << 24)
    }

    proof fn lemma_layout() {
    }

    proof fn lemma_to_len(self) {
    }

    proof fn lemma_bytes_round_trip(self) {
        let x = self;
        assert(((x & 0xff) as u8 as u32) | (((x >> 8) & 0xff) as u8 as u32) << 8 | (((x >> 16)
            & 0xff) as u8 as u32) << 16 | (((x >> 24) & 0xff) as u8 as u32) << 24 == x)
            by (bit_vector);
    }

    fn exec_byte_len() -> (r: usize) {
        4
    }

    fn exec_align() -> (r: usize) {
        4
    }

    fn push_bytes(&self, out: &mut Vec<u8>) {
        let x = *self;
        let b0 = (x & 0xff) as u8;
        let b1 = ((x >> 8) & 0xff) as u8;
        let b2 = ((x >> 16) & 0xff) as u8;
        let b3 = ((x >> 24) & 0xff) as u8;
        out.push(b0);
        out.push(b1);
        out.push(b2);
        out.push(b3);
        assert(out@ =~= old(out)@ + seq![b0, b1, b2, b3]);
    }

    fn read_at(buf: &[u8], pos: usize) -> (r: u32) {
        let b0 = buf[pos] as u32;
        let b1 = buf[pos + 1] as u32;
        let b2 = buf[pos + 2] as u32;
        let b3 = buf[pos + 3] as u32;
        let ghost s = buf@.subrange(pos as int, pos + 4);
        proof {
            assert(s[0] == buf@[pos as int]);
            assert(s[1] == buf@[pos as int + 1]);
            assert(s[2] == buf@[pos as int + 2]);
            assert(s[3] == buf@[pos as int + 3]);
        }
        b0 | (b1 << 8) | (b2 << 16) | (b3 << 24)
    }
}

impl Simple for u64 {
    open spec fn byte_len() -> nat {
        8
    }

    open spec fn align_of() -> nat {
        8
    }

    open spec fn to_byte_seq(self) -> Seq<u8> {
        seq![
            (self & 0xff) as u8,
            ((self >> 8) & 0xff) as u8,
            ((self >> 16) & 0xff) as u8,
            ((self >> 24) & 0xff) as u8,
            ((self >> 32) & 0xff) as u8,
            ((self >> 40) & 0xff) as u8,
            ((self >> 48) & 0xff) as u8,
            ((self >> 56) & 0xff) as u8,
        ]
    }

    open spec fn from_byte_seq(s: Seq<u8>) -> u64 {
        (s[0] as u64) | ((s[1] as u64) << 8) | ((s[2] as u64) << 16) | ((s[3] as u64) << 24) | ((
        s[4] as u64) << 32) | ((s[5] as u64) << 40) | ((s[6] as u64) << 48) | ((s[7] as u64) << 56)
    }

    proof fn lemma_layout() {
    }

    proof fn lemma_to_len(self) {
    }

    proof fn lemma_bytes_round_trip(self) {
        let x = self;
        assert(((x & 0xff) as u8 as u64) | (((x >> 8) & 0xff) as u8 as u64) << 8 | (((x >> 16)
            & 0xff) as u8 as u64) << 16 | (((x >> 24) & 0xff) as u8 as u64) << 24 | (((x >> 32)
            & 0xff) as u8 as u64) << 32 | (((x >> 40) & 0xff) as u8 as u64) << 40 | (((x >> 48)
            & 0xff) as u8 as u64) << 48 | (((x >> 56) & 0xff) as u8 as u64) << 56 == x)
            by (bit_vector);
    }

    fn exec_byte_len() -> (r: usize) {
        8
    }

    fn exec_align() -> (r: usize) {
        8
    }

    fn push_bytes(&self, out: &mut Vec<u8>) {
        let x = *self;
        let b0 = (x & 0xff) as u8;
        let b1 = ((x >> 8) & 0xff) as u8;
        let b2 = ((x >> 16) & 0xff) as u8;
        let b3 = ((x >> 24) & 0xff) as u8;
        let b4 = ((x >> 32) & 0xff) as u8;
        let b5 = ((x >> 40) & 0xff) as u8;
        let b6 = ((x >> 48) & 0xff) as u8;
        let b7 = ((x >> 56) & 0xff) as u8;
        out.push(b0);
        out.push(b1);
        out.push(b2);
        out.push(b3);
        out.push(b4);
        out.push(b5);
        out.push(b6);
        out.push(b7);
        assert(out@ =~= old(out)@ + seq![b0, b1, b2, b3, b4, b5, b6, b7]);
    }

    fn read_at(buf: &[u8], pos: usize) -> (r: u64) {
        let b0 = buf[pos] as u64;
        let b1 = buf[pos + 1] as u64;
        let b2 = buf[pos + 2] as u64;
        let b3 = buf[pos + 3] as u64;
        let b4 = buf[pos + 4] as u64;
        let b5 = buf[pos + 5] as u64;
        let b6 = buf[pos + 6] as u64;
        let b7 = buf[pos + 7] as u64;
        let ghost s = buf@.subrange(pos as int, pos + 8);
        proof {
            assert forall|m: int| 0 <= m < 8 implies #[trigger] s[m] == buf@[pos + m] by {}
        }
        b0 | (b1 << 8) | (b2 << 16) | (b3 << 24) | (b4 << 32) | (b5 << 40) | (b6 << 48) | (b7
            << 56)
    }
}

impl Simple for i32 {
    open spec fn byte_len() -> nat {
        4
    }

    open spec fn align_of() -> nat {
        4
    }

    open spec fn to_byte_seq(self) -> Seq<u8> {
        (self as u32).to_byte_seq()
    }

    open spec fn from_byte_seq(s: Seq<u8>) -> i32 {
        <u32 as Simple>::from_byte_seq(s) as i32
    }

    proof fn lemma_layout() {
    }

    proof fn lemma_to_len(self) {
    }

    proof fn lemma_bytes_round_trip(self) {
        (self as u32).lemma_bytes_round_trip();
        assert((self as u32) as i32 == self) by (bit_vector);
    }

    fn exec_byte_len() -> (r: usize) {
        4
    }

    fn exec_align() -> (r: usize) {
        4
    }

    fn push_bytes(&self, out: &mut Vec<u8>) {
        let x = *self as u32;
        x.push_bytes(out);
    }

    fn read_at(buf: &[u8], pos: usize) -> (r: i32) {
        let x = <u32 as Simple>::read_at(buf, pos);
        x as i32
    }
}

} // verus!
