//! Serialization for variable-length values.
//!
//! Every write to the variable-length stream is preceded by enough padding
//! (the ASCII byte `P`) to bring the payload to an offset aligned for its
//! element type. Sequences are stored as a 64-bit count followed by the
//! elements; strings as their UTF-8 bytes in sequence form. Offsets handed
//! out by the writing side are stable for the life of the recording.

use vstd::prelude::*;
use crate::raw::Simple;
use crate::rle;
use crate::serialize::DeserializeError;

verus! {

/// The padding byte: ASCII `P`.
pub const PAD_BYTE: u8 = 0x50;

/// How many padding bytes bring `pos` up to a multiple of `align`.
pub open spec fn pad_len(pos: nat, align: nat) -> nat {
    ((align - (pos % align) as int) % align as int) as nat
}

/// The padding itself.
pub open spec fn pad_bytes(pos: nat, align: nat) -> Seq<u8> {
    Seq::new(pad_len(pos, align), |m: int| PAD_BYTE)
}

/// Padding stops short of a full block and lands exactly on a boundary.
pub proof fn lemma_pad(pos: nat, align: nat)
    requires
        1 <= align,
    ensures
        pad_len(pos, align) < align,
        (pos + pad_len(pos, align)) % align == 0,
{
    let r = (pos % align) as int;
    vstd::arithmetic::div_mod::lemma_fundamental_div_mod(pos as int, align as int);
    if r == 0 {
        vstd::arithmetic::div_mod::lemma_mod_self_0(align as int);
        assert(pad_len(pos, align) == 0);
        vstd::arithmetic::div_mod::lemma_mod_multiples_basic(
            pos as int / align as int,
            align as int,
        );
    } else {
        assert((align as int - r) % align as int == align as int - r) by {
            vstd::arithmetic::div_mod::lemma_small_mod((align as int - r) as nat, align);
        }
        assert(pos + pad_len(pos, align) == align as int * (pos as int / align as int) + align);
        assert((align as int * (pos as int / align as int) + align) % align as int == 0) by {
            let q = pos as int / align as int;
            vstd::arithmetic::div_mod::lemma_mod_multiples_basic(q + 1, align as int);
            assert(align as int * (q + 1) == align as int * q + align) by (nonlinear_arith);
        }
    }
}

/// Nothing pads a unit alignment.
pub proof fn lemma_pad_one(x: nat)
    ensures
        pad_len(x, 1) == 0,
{
    vstd::arithmetic::div_mod::lemma_fundamental_div_mod(x as int, 1int);
    vstd::arithmetic::div_mod::lemma_mod_self_0(1int);
}

/// The bytes of a whole slice of simple values, element after element.
pub open spec fn elems_bytes<T: Simple>(data: Seq<T>) -> Seq<u8>
    decreases data.len(),
{
    if data.len() == 0 {
        Seq::empty()
    } else {
        data[0].to_byte_seq() + elems_bytes(data.skip(1))
    }
}

/// Appending one element appends its bytes.
pub proof fn lemma_elems_bytes_push<T: Simple>(data: Seq<T>, x: T)
    ensures
        elems_bytes(data.push(x)) == elems_bytes(data) + x.to_byte_seq(),
    decreases data.len(),
{
    if data.len() == 0 {
        assert(data.push(x)[0] == x);
        assert(data.push(x).skip(1) =~= Seq::<T>::empty());
        assert(elems_bytes(data) =~= Seq::<u8>::empty());
        assert(elems_bytes(data.push(x)) == x.to_byte_seq() + elems_bytes(
            Seq::<T>::empty(),
        ));
        assert(x.to_byte_seq() + Seq::<u8>::empty() =~= Seq::<u8>::empty() + x.to_byte_seq());
    } else {
        lemma_elems_bytes_push(data.skip(1), x);
        assert(data.push(x).skip(1) =~= data.skip(1).push(x));
        assert(data.push(x)[0] == data[0]);
        assert(data[0].to_byte_seq() + (elems_bytes(data.skip(1)) + x.to_byte_seq()) =~= (
        data[0].to_byte_seq() + elems_bytes(data.skip(1))) + x.to_byte_seq());
    }
}

/// A slice's bytes occupy its length times the element size.
pub proof fn lemma_elems_bytes_len<T: Simple>(data: Seq<T>)
    ensures
        elems_bytes(data).len() == data.len() * T::byte_len(),
    decreases data.len(),
{
    if data.len() == 0 {
        assert(0 * T::byte_len() == 0) by (nonlinear_arith);
    } else {
        data[0].lemma_to_len();
        lemma_elems_bytes_len(data.skip(1));
        assert(T::byte_len() + (data.len() - 1) * T::byte_len() == data.len() * T::byte_len())
            by (nonlinear_arith);
    }
}

/// Element `i`'s bytes sit at `i * byte_len` within the slice's bytes.
pub proof fn lemma_elems_bytes_index<T: Simple>(data: Seq<T>, i: int)
    requires
        0 <= i < data.len(),
    ensures
        elems_bytes(data).subrange(i * T::byte_len(), i * T::byte_len() + T::byte_len())
            == data[i].to_byte_seq(),
    decreases i,
{
    let sz = T::byte_len() as int;
    lemma_elems_bytes_len(data);
    data[0].lemma_to_len();
    T::lemma_layout();
    assert(data.len() * sz >= (i + 1) * sz) by (nonlinear_arith)
        requires sz >= 0 && data.len() >= i + 1;
    lemma_elems_bytes_len(data.skip(1));
    assert(data.len() * sz == sz + (data.len() - 1) * sz) by (nonlinear_arith);
    if i == 0 {
        assert((data.len() - 1) * sz >= 0) by (nonlinear_arith)
            requires data.len() >= 1 && sz >= 0;
        assert(i * sz == 0) by (nonlinear_arith) requires i == 0;
        assert(elems_bytes(data).subrange(0, sz) =~= data[0].to_byte_seq());
    } else {
        lemma_elems_bytes_index(data.skip(1), i - 1);
        assert((i - 1) * sz == i * sz - sz) by (nonlinear_arith);
        assert(i * sz >= sz) by (nonlinear_arith) requires i >= 1 && sz >= 0;
        assert((i - 1) * sz + sz <= (data.len() - 1) * sz) by (nonlinear_arith)
            requires i <= data.len() - 1 && sz >= 0;
        assert(elems_bytes(data).subrange(i * sz, i * sz + sz) =~= elems_bytes(
            data.skip(1),
        ).subrange((i - 1) * sz, (i - 1) * sz + sz));
        assert(data.skip(1)[i - 1] == data[i]);
    }
}

/// A data stream that tracks its own current byte offset, to which serialized
/// values can be appended.
pub trait Stream: Sized {
    /// Everything written so far.
    spec fn contents(&self) -> Seq<u8>;

    /// The current byte offset: the position the next write lands at.
    fn mark(&self) -> (r: usize)
        ensures
            r == self.contents().len(),
    ;

    /// Append `buf` as it is; return the offset it landed at.
    fn write_unaligned(&mut self, buf: &[u8]) -> (pos: usize)
        ensures
            final(self).contents() == old(self).contents() + buf@,
            pos == old(self).contents().len(),
    ;
}

/// Write padding bytes so that the next write lands on a multiple of `align`.
pub fn align_for<S: Stream>(s: &mut S, align: usize)
    requires
        1 <= align <= 8,
    ensures
        final(s).contents() == old(s).contents() + pad_bytes(old(s).contents().len(), align as nat),
        final(s).contents().len() % align as nat == 0,
        final(s).contents().len() < old(s).contents().len() + align,
{
    let m = s.mark();
    let pad: usize = (align - (m % align)) % align;
    proof {
        lemma_pad(m as nat, align as nat);
    }
    let mut p: Vec<u8> = Vec::new();
    let mut c: usize = 0;
    while c < pad
        invariant
            c <= pad,
            p@ =~= Seq::new(c as nat, |m: int| PAD_BYTE),
        decreases pad - c,
    {
        p.push(PAD_BYTE);
        assert(p@ =~= Seq::new((c + 1) as nat, |m: int| PAD_BYTE));
        c = c + 1;
    }
    s.write_unaligned(p.as_slice());
    assert(final(s).contents() =~= old(s).contents() + pad_bytes(
        old(s).contents().len(),
        align as nat,
    ));
}

/// Write the contents of `slice` to the stream, first padding so that the
/// payload starts at an offset aligned for `T`. Return the payload's start
/// position, after any padding.
pub fn write_aligned_slice<S: Stream, T: Simple>(s: &mut S, slice: &[T]) -> (pos: usize)
    ensures
        final(s).contents() == old(s).contents() + pad_bytes(
            old(s).contents().len(),
            T::align_of(),
        ) + elems_bytes(slice@),
        pos == old(s).contents().len() + pad_len(old(s).contents().len(), T::align_of()),
        pos as nat % T::align_of() == 0,
{
    proof {
        T::lemma_layout();
    }
    align_for(s, T::exec_align());
    let ghost aligned = s.contents();
    let mut bytes: Vec<u8> = Vec::new();
    let mut m: usize = 0;
    let len: usize = slice.len();
    while m < len
        invariant
            m <= len,
            len == slice@.len(),
            bytes@ == elems_bytes(slice@.take(m as int)),
        decreases len - m,
    {
        proof {
            assert(slice@.take(m + 1) =~= slice@.take(m as int).push(slice@[m as int]));
            lemma_elems_bytes_push(slice@.take(m as int), slice@[m as int]);
        }
        let e: T = slice[m];
        e.push_bytes(&mut bytes);
        m = m + 1;
    }
    assert(slice@.take(len as int) =~= slice@);
    let pos = s.write_unaligned(bytes.as_slice());
    pos
}

/// Borrow-free counterpart of the writer: read `count` aligned `T` values
/// from `buf` starting at `pos`, skipping the alignment padding first.
///
/// Returns the values and the position just past them; fails exactly when
/// fewer bytes remain than the padding and payload need.
pub fn take_aligned_slice<T: Simple>(buf: &[u8], pos: usize, count: usize) -> (r: Result<
    (Vec<T>, usize),
    DeserializeError,
>)
    requires
        pos <= buf@.len(),
    ensures
        match r {
            Ok((v, newpos)) => {
                let start = pos + pad_len(pos as nat, T::align_of());
                &&& v@.len() == count
                &&& newpos == start + count * T::byte_len()
                &&& newpos <= buf@.len()
                &&& forall|i: int|
                    0 <= i < count ==> v@[i] == T::from_byte_seq(
                        #[trigger] buf@.subrange(
                            start + i * T::byte_len(),
                            start + i * T::byte_len() + T::byte_len(),
                        ),
                    )
            },
            Err(e) => {
                &&& e == DeserializeError::UnexpectedEof
                &&& buf@.len() < pos + pad_len(pos as nat, T::align_of()) + count * T::byte_len()
            },
        },
{
    proof {
        T::lemma_layout();
    }
    let align = T::exec_align();
    let size = T::exec_byte_len();
    let skip: usize = (align - (pos % align)) % align;
    proof {
        lemma_pad(pos as nat, T::align_of());
    }
    if skip > buf.len() - pos {
        proof {
            assert(count * T::byte_len() >= 0) by (nonlinear_arith);
        }
        return Err(DeserializeError::UnexpectedEof);
    }
    let start: usize = pos + skip;
    if count > (buf.len() - start) / size {
        proof {
            let avail = (buf@.len() - start) as int;
            let sz = T::byte_len() as int;
            vstd::arithmetic::div_mod::lemma_fundamental_div_mod(avail, sz);
            assert(count as int * sz > avail) by (nonlinear_arith)
                requires
                    sz >= 1,
                    count as int >= avail / sz + 1,
                    avail == sz * (avail / sz) + avail % sz,
                    0 <= avail % sz < sz,
            ;
        }
        return Err(DeserializeError::UnexpectedEof);
    }
    proof {
        let avail = (buf@.len() - start) as int;
        let sz = T::byte_len() as int;
        vstd::arithmetic::div_mod::lemma_fundamental_div_mod(avail, sz);
        assert(count as int * sz <= avail) by (nonlinear_arith)
            requires
                sz >= 1,
                count as int <= avail / sz,
                avail == sz * (avail / sz) + avail % sz,
                0 <= avail % sz < sz,
        ;
    }
    let mut v: Vec<T> = Vec::new();
    let mut i: usize = 0;
    while i < count
        invariant
            i <= count,
            buf@.len() <= usize::MAX,
            start + count * T::byte_len() <= buf@.len(),
            start + i * T::byte_len() <= buf@.len(),
            size == T::byte_len(),
            1 <= size,
            v@.len() == i,
            forall|k: int|
                0 <= k < i ==> v@[k] == T::from_byte_seq(
                    #[trigger] buf@.subrange(
                        start + k * T::byte_len(),
                        start + k * T::byte_len() + T::byte_len(),
                    ),
                ),
        decreases count - i,
    {
        proof {
            assert((i + 1) * T::byte_len() <= count * T::byte_len()) by (nonlinear_arith)
                requires i + 1 <= count && T::byte_len() >= 0;
            assert((i + 1) * T::byte_len() == i * T::byte_len() + T::byte_len())
                by (nonlinear_arith);
            assert(0 <= i * T::byte_len() <= count * T::byte_len()) by (nonlinear_arith)
                requires 0 <= i <= count && T::byte_len() >= 0;
        }
        let e: T = T::read_at(buf, start + i * size);
        v.push(e);
        i = i + 1;
    }
    proof {
        assert(count * T::byte_len() >= 0) by (nonlinear_arith)
            requires count >= 0 && T::byte_len() >= 0;
    }
    Ok((v, start + count * size))
}


/// The full wire image of a sequence written at offset `pos`: padding to an
/// 8-byte boundary, the element count as a 64-bit value, padding for the
/// element type, then the elements.
pub open spec fn seq_encoding<T: Simple>(pos: nat, data: Seq<T>) -> Seq<u8> {
    let p1 = pad_bytes(pos, 8);
    let len_bytes = (data.len() as u64).to_byte_seq();
    let pos2 = pos + p1.len() + 8;
    p1 + len_bytes + pad_bytes(pos2, T::align_of()) + elems_bytes(data)
}

/// Serialize a slice in sequence form: the count, then the elements, each
/// aligned. Returns the offset of the count, which is what a `Var` handle
/// records.
pub fn write_seq<S: Stream, T: Simple>(s: &mut S, data: &[T]) -> (pos: usize)
    ensures
        final(s).contents() == old(s).contents() + seq_encoding(old(s).contents().len(), data@),
        pos == old(s).contents().len() + pad_len(old(s).contents().len(), 8),
{
    let ghost base = s.contents().len();
    let len: usize = data.len();
    align_for(s, 8);
    let mut lb: Vec<u8> = Vec::new();
    let n64: u64 = len as u64;
    n64.push_bytes(&mut lb);
    proof {
        n64.lemma_to_len();
    }
    let pos = s.write_unaligned(lb.as_slice());
    let ghost mid = s.contents().len();
    let _ = write_aligned_slice::<S, T>(s, data);
    proof {
        assert(mid == base + pad_len(base, 8) + 8);
        assert(final(s).contents() =~= old(s).contents() + seq_encoding(base, data@));
    }
    pos
}

/// Read a sequence written by [`write_seq`]: the count, then that many
/// elements, each aligned. Returns the values and the position just past
/// them; fails exactly when the count or the elements run past the end of
/// the buffer, or the count does not fit this platform.
pub fn read_seq<T: Simple>(buf: &[u8], pos: usize) -> (r: Result<(Vec<T>, usize), DeserializeError>)
    requires
        pos <= buf@.len(),
    ensures
        ({
            let start0 = pos + pad_len(pos as nat, 8);
            match r {
                Ok((v, newpos)) => {
                    let n = <u64 as Simple>::from_byte_seq(
                        buf@.subrange(start0 as int, start0 as int + 8),
                    );
                    let start1 = start0 + 8 + pad_len((start0 + 8) as nat, T::align_of());
                    &&& start0 + 8 <= buf@.len()
                    &&& v@.len() == n
                    &&& newpos == start1 + v@.len() * T::byte_len()
                    &&& newpos <= buf@.len()
                    &&& forall|i: int|
                        0 <= i < v@.len() ==> v@[i] == T::from_byte_seq(
                            #[trigger] buf@.subrange(
                                start1 + i * T::byte_len(),
                                start1 + i * T::byte_len() + T::byte_len(),
                            ),
                        )
                },
                Err(e) => {
                    if buf@.len() < start0 + 8 {
                        e == DeserializeError::UnexpectedEof
                    } else {
                        let n = <u64 as Simple>::from_byte_seq(
                            buf@.subrange(start0 as int, start0 as int + 8),
                        );
                        let start1 = start0 + 8 + pad_len((start0 + 8) as nat, T::align_of());
                        if n > usize::MAX {
                            e == DeserializeError::CountOverflow
                        } else {
                            &&& e == DeserializeError::UnexpectedEof
                            &&& buf@.len() < start1 + n * T::byte_len()
                        }
                    }
                },
            }
        }),
{
    proof {
        T::lemma_layout();
    }
    let (lenv, p1) = match take_aligned_slice::<u64>(buf, pos, 1) {
        Ok(x) => x,
        Err(e) => {
            proof {
                assert(1 * <u64 as Simple>::byte_len() == 8) by (nonlinear_arith)
                    requires <u64 as Simple>::byte_len() == 8;
            }
            return Err(e);
        },
    };
    proof {
        assert(1 * <u64 as Simple>::byte_len() == 8) by (nonlinear_arith)
            requires <u64 as Simple>::byte_len() == 8;
        assert(0 * <u64 as Simple>::byte_len() == 0) by (nonlinear_arith);
    }
    let n64: u64 = lenv[0];
    proof {
        let start0 = pos as int + pad_len(pos as nat, 8);
        let bl = <u64 as Simple>::byte_len() as int;
        assert(0 * bl == 0) by (nonlinear_arith);
        assert(lenv@[0] == <u64 as Simple>::from_byte_seq(
            buf@.subrange(start0 + 0 * bl, start0 + 0 * bl + bl),
        ));
        assert(buf@.subrange(start0 + 0 * bl, start0 + 0 * bl + bl) == buf@.subrange(
            start0,
            start0 + 8,
        ));
    }
    if n64 > usize::MAX as u64 {
        return Err(DeserializeError::CountOverflow);
    }
    let n: usize = n64 as usize;
    match take_aligned_slice::<T>(buf, p1, n) {
        Ok((v, newpos)) => Ok((v, newpos)),
        Err(e) => Err(e),
    }
}


/// A sequence written at the end of `pre` is read back exactly, whatever
/// `post` follows it: the byte conditions in [`read_seq`]'s contract all come
/// out as the written data.
pub proof fn lemma_seq_written_reads_back<T: Simple>(pre: Seq<u8>, data: Seq<T>, post: Seq<u8>)
    requires
        data.len() <= usize::MAX,
    ensures
        ({
            let buf = pre + seq_encoding(pre.len(), data) + post;
            let pos = pre.len();
            let start0 = pos + pad_len(pos, 8);
            let start1 = start0 + 8 + pad_len((start0 + 8) as nat, T::align_of());
            &&& start0 + 8 <= pos + seq_encoding(pre.len(), data).len()
            &&& <u64 as Simple>::from_byte_seq(buf.subrange(start0 as int, start0 as int + 8))
                == data.len() as u64
            &&& start1 + data.len() * T::byte_len() == pos + seq_encoding(pre.len(), data).len()
            &&& forall|i: int|
                0 <= i < data.len() ==> T::from_byte_seq(
                    #[trigger] buf.subrange(
                        start1 + i * T::byte_len(),
                        start1 + i * T::byte_len() + T::byte_len(),
                    ),
                ) == data[i]
        }),
{
    T::lemma_layout();
    let pos = pre.len();
    let enc = seq_encoding(pre.len(), data);
    let buf = pre + enc + post;
    let n64 = data.len() as u64;
    let lb = n64.to_byte_seq();
    n64.lemma_to_len();
    let p1 = pad_bytes(pos, 8);
    let start0 = pos + p1.len();
    let pos2 = start0 + 8;
    let p2 = pad_bytes(pos2 as nat, T::align_of());
    let eb = elems_bytes(data);
    let start1 = pos2 + p2.len();
    lemma_elems_bytes_len(data);
    assert(enc =~= p1 + lb + p2 + eb);
    assert(buf.subrange(start0 as int, start0 as int + 8) =~= lb);
    n64.lemma_bytes_round_trip();
    assert(buf.subrange(start1 as int, start1 as int + eb.len() as int) =~= eb);
    let bl = T::byte_len() as int;
    assert forall|i: int| 0 <= i < data.len() implies T::from_byte_seq(
        #[trigger] buf.subrange(start1 + i * bl, start1 + i * bl + bl),
    ) == data[i] by {
        lemma_elems_bytes_index(data, i);
        assert(0 <= i * bl && i * bl + bl <= data.len() * bl) by (nonlinear_arith)
            requires 0 <= i < data.len() && bl >= 0;
        assert(buf.subrange(start1 + i * bl, start1 + i * bl + bl) =~= eb.subrange(
            i * bl,
            i * bl + bl,
        ));
        data[i].lemma_bytes_round_trip();
    }
}


/// An extension of [`Stream`] that also accumulates an array of fixed-size
/// call records. `C` is generic: any suitably simple record type can ride in
/// the call stream.
pub trait CallStream<C>: Stream {
    /// Every call written so far, in order.
    spec fn calls(&self) -> Seq<C>;

    /// Append one call; return its serial number.
    fn write_call(&mut self, call: C) -> (serial: usize)
        ensures
            final(self).calls() == old(self).calls().push(call),
            final(self).contents() == old(self).contents(),
            serial == old(self).calls().len(),
    ;

    /// The serial number the next call will get.
    fn call_serial(&self) -> (r: usize)
        ensures
            r == self.calls().len(),
    ;

    /// Append `buf` to the variable stream, leaving the call stream as it
    /// is; return the offset it landed at.
    fn write_variable(&mut self, buf: &[u8]) -> (pos: usize)
        ensures
            final(self).contents() == old(self).contents() + buf@,
            final(self).calls() == old(self).calls(),
            pos == old(self).contents().len(),
    ;
}


/// What a sequence read of element type `T` finds at offset `pos` of `buf`:
/// the values, or nothing when the count or the elements run past the end of
/// the buffer or the count cannot be materialized on this platform.
pub open spec fn seq_at<T: Simple>(buf: Seq<u8>, pos: nat) -> Option<Seq<T>> {
    let start0 = pos + pad_len(pos, 8);
    if buf.len() < start0 + 8 {
        None
    } else {
        let n = <u64 as Simple>::from_byte_seq(buf.subrange(start0 as int, start0 as int + 8));
        let start1 = start0 + 8 + pad_len((start0 + 8) as nat, T::align_of());
        if n > usize::MAX || buf.len() < start1 + n * T::byte_len() {
            None
        } else {
            Some(
                Seq::new(
                    n as nat,
                    |i: int|
                        T::from_byte_seq(
                            buf.subrange(
                                start1 + i * T::byte_len(),
                                start1 + i * T::byte_len() + T::byte_len(),
                            ),
                        ),
                ),
            )
        }
    }
}

/// [`read_seq`], stated against [`seq_at`]: it succeeds with exactly the
/// values the bytes describe, and fails exactly when they describe none.
pub fn read_seq_at<T: Simple>(buf: &[u8], pos: usize) -> (r: Result<(Vec<T>, usize), DeserializeError>)
    requires
        pos <= buf@.len(),
    ensures
        match r {
            Ok((v, newpos)) => {
                &&& seq_at::<T>(buf@, pos as nat) == Some(v@)
                &&& newpos <= buf@.len()
                &&& newpos == pos + pad_len(pos as nat, 8) + 8 + pad_len(
                    (pos + pad_len(pos as nat, 8) + 8) as nat,
                    T::align_of(),
                ) + v@.len() * T::byte_len()
            },
            Err(e) => seq_at::<T>(buf@, pos as nat) is None && (e
                == DeserializeError::UnexpectedEof || e == DeserializeError::CountOverflow),
        },
{
    proof {
        T::lemma_layout();
    }
    match read_seq::<T>(buf, pos) {
        Ok((v, newpos)) => {
            proof {
                let ghost found = seq_at::<T>(buf@, pos as nat).unwrap();
                assert(found =~= v@);
            }
            Ok((v, newpos))
        },
        Err(e) => {
            proof {
                let start0 = pos as nat + pad_len(pos as nat, 8);
                if buf@.len() >= start0 + 8 {
                    let n = <u64 as Simple>::from_byte_seq(
                        buf@.subrange(start0 as int, start0 as int + 8),
                    );
                    if n <= usize::MAX {
                        assert(e == DeserializeError::UnexpectedEof);
                    }
                }
            }
            Err(e)
        },
    }
}

/// Writing a sequence and reading at the offset the writer returned yields the
/// data again, whatever was in the stream before and whatever follows.
pub proof fn lemma_seq_at_written<T: Simple>(pre: Seq<u8>, data: Seq<T>, post: Seq<u8>)
    requires
        data.len() <= usize::MAX,
    ensures
        seq_at::<T>(
            pre + seq_encoding(pre.len(), data) + post,
            pre.len() + pad_len(pre.len(), 8),
        ) == Some(data),
        seq_at::<T>(pre + seq_encoding(pre.len(), data) + post, pre.len()) == Some(data),
    decreases 0nat,
{
    T::lemma_layout();
    lemma_seq_written_reads_back::<T>(pre, data, post);
    let buf = pre + seq_encoding(pre.len(), data) + post;
    let pos = pre.len();
    let start0 = pos + pad_len(pos, 8);
    lemma_pad(pos, 8);
    assert(pad_len(start0, 8) == 0) by {
        vstd::arithmetic::div_mod::lemma_mod_self_0(8int);
    }
    assert((data.len() as u64) as nat == data.len());
    match seq_at::<T>(buf, pos) {
        None => {},
        Some(found) => {
            assert(found =~= data);
        },
    }
    match seq_at::<T>(buf, start0) {
        None => {},
        Some(found) => {
            assert(found =~= data);
        },
    }
}

/// UTF-8 decoding as a pure function of the bytes: `Some` exactly on
/// well-formed UTF-8. This names what `String::from_utf8` returns.
pub uninterp spec fn utf8_chars(bytes: Seq<u8>) -> Option<Seq<char>>;

/// The UTF-8 bytes of a string. This names what `str::as_bytes` returns.
pub uninterp spec fn utf8_bytes(text: Seq<char>) -> Seq<u8>;

/// Relies on `String::from_utf8`: it succeeds exactly on well-formed UTF-8,
/// and its result is a function of the bytes alone, here named `utf8_chars`.
#[verifier::external_body]
pub fn utf8_to_string(bytes: Vec<u8>) -> (r: Result<String, DeserializeError>)
    ensures
        match r {
            Ok(s) => utf8_chars(bytes@) == Some(s@),
            Err(e) => utf8_chars(bytes@) is None && e == DeserializeError::BadUTF8,
        },
{
    match String::from_utf8(bytes) {
        Ok(s) => Ok(s),
        Err(_) => Err(DeserializeError::BadUTF8),
    }
}

/// Relies on `str::as_bytes`: the UTF-8 bytes of a string, a function of the
/// string alone (named `utf8_bytes`), which `String::from_utf8` documents it
/// decodes back to the same string.
#[verifier::external_body]
pub fn str_to_bytes(text: &str) -> (r: Vec<u8>)
    ensures
        r@ == utf8_bytes(text@),
        utf8_chars(r@) == Some(text@),
{
    text.as_bytes().to_vec()
}

/// Serialize a string: its UTF-8 bytes in sequence form. Returns the offset
/// of the count, which is what a `Var<Str>` handle records.
pub fn write_str<S: Stream>(s: &mut S, text: &str) -> (pos: usize)
    ensures
        final(s).contents() == old(s).contents() + seq_encoding::<u8>(
            old(s).contents().len(),
            utf8_bytes(text@),
        ),
        pos == old(s).contents().len() + pad_len(old(s).contents().len(), 8),
        utf8_chars(utf8_bytes(text@)) == Some(text@),
{
    let bytes = str_to_bytes(text);
    write_seq::<S, u8>(s, bytes.as_slice())
}

/// Read back a string written by [`write_str`]: a byte sequence validated as
/// UTF-8. Fails with `BadUTF8` exactly when the bytes are not UTF-8, and
/// otherwise exactly when the byte sequence itself cannot be read.
pub fn read_str(buf: &[u8], pos: usize) -> (r: Result<String, DeserializeError>)
    requires
        pos <= buf@.len(),
    ensures
        match r {
            Ok(s) => {
                &&& seq_at::<u8>(buf@, pos as nat) is Some
                &&& utf8_chars(seq_at::<u8>(buf@, pos as nat).unwrap()) == Some(s@)
            },
            Err(DeserializeError::BadUTF8) => {
                &&& seq_at::<u8>(buf@, pos as nat) is Some
                &&& utf8_chars(seq_at::<u8>(buf@, pos as nat).unwrap()) is None
            },
            Err(e) => seq_at::<u8>(buf@, pos as nat) is None,
        },
{
    let (bytes, _end) = match read_seq_at::<u8>(buf, pos) {
        Ok(x) => x,
        Err(e) => {
            return Err(e);
        },
    };
    utf8_to_string(bytes)
}


/// The sequence-form bytes of `data` as written at offset `pos`, built in
/// memory: the padding, the count, the element padding, and the elements.
pub fn encode_seq_to_vec<T: Simple>(pos: usize, data: &[T]) -> (out: Vec<u8>)
    ensures
        out@ == seq_encoding::<T>(pos as nat, data@),
{
    proof {
        T::lemma_layout();
    }
    let mut out: Vec<u8> = Vec::new();
    let pad1: usize = (8 - (pos % 8)) % 8;
    proof {
        lemma_pad(pos as nat, 8);
    }
    let mut c: usize = 0;
    while c < pad1
        invariant
            c <= pad1,
            out@ =~= Seq::new(c as nat, |m: int| PAD_BYTE),
        decreases pad1 - c,
    {
        out.push(PAD_BYTE);
        assert(out@ =~= Seq::new((c + 1) as nat, |m: int| PAD_BYTE));
        c = c + 1;
    }
    assert(out@ == pad_bytes(pos as nat, 8));
    let len: usize = data.len();
    let n64: u64 = len as u64;
    n64.push_bytes(&mut out);
    proof {
        n64.lemma_to_len();
    }
    let ghost pos2 = pos as nat + pad_len(pos as nat, 8) + 8;
    let align = T::exec_align();
    let pm: usize = pos % align;
    let pad2: usize = (align - ((pm + pad1 + 8) % align)) % align;
    proof {
        lemma_pad(pos2, T::align_of());
        let a = align as int;
        vstd::arithmetic::div_mod::lemma_add_mod_noop(pos as int, (pad1 + 8) as int, a);
        vstd::arithmetic::div_mod::lemma_add_mod_noop(pm as int, (pad1 + 8) as int, a);
        vstd::arithmetic::div_mod::lemma_mod_twice(pos as int, a);
        assert((pos + (pad1 + 8)) % a == (pm + (pad1 + 8)) % a);
        assert(pos2 as int == pos + (pad1 + 8));
    }
    let ghost mid = out@;
    let mut c2: usize = 0;
    while c2 < pad2
        invariant
            c2 <= pad2,
            out@ =~= mid + Seq::new(c2 as nat, |m: int| PAD_BYTE),
        decreases pad2 - c2,
    {
        proof {
            assert(mid + Seq::new((c2 + 1) as nat, |m: int| PAD_BYTE) =~= (mid + Seq::new(
                c2 as nat,
                |m: int| PAD_BYTE,
            )).push(PAD_BYTE));
        }
        out.push(PAD_BYTE);
        c2 = c2 + 1;
    }
    assert(out@ =~= pad_bytes(pos as nat, 8) + n64.to_byte_seq() + pad_bytes(
        pos2,
        T::align_of(),
    ));
    let ghost mid2 = out@;
    let mut m: usize = 0;
    while m < len
        invariant
            m <= len,
            len == data@.len(),
            out@ == mid2 + elems_bytes(data@.take(m as int)),
        decreases len - m,
    {
        proof {
            assert(data@.take(m + 1) =~= data@.take(m as int).push(data@[m as int]));
            lemma_elems_bytes_push(data@.take(m as int), data@[m as int]);
        }
        let e: T = data[m];
        e.push_bytes(&mut out);
        m = m + 1;
    }
    proof {
        assert(data@.take(len as int) =~= data@);
        assert(out@ =~= seq_encoding::<T>(pos as nat, data@));
    }
    out
}

/// [`write_seq`], to a call stream: the calls already recorded stay as they
/// are.
pub fn write_seq_cs<C, Cs: CallStream<C>, T: Simple>(cs: &mut Cs, data: &[T]) -> (pos: usize)
    ensures
        final(cs).contents() == old(cs).contents() + seq_encoding::<T>(
            old(cs).contents().len(),
            data@,
        ),
        final(cs).calls() == old(cs).calls(),
        pos == old(cs).contents().len() + pad_len(old(cs).contents().len(), 8),
{
    let base = cs.mark();
    let bytes = encode_seq_to_vec::<T>(base, data);
    let pad1: usize = (8 - (base % 8)) % 8;
    proof {
        lemma_pad(base as nat, 8);
    }
    cs.write_variable(bytes.as_slice());
    let end = cs.mark();
    assert(base + pad1 <= end);
    base + pad1
}

/// [`write_str`], to a call stream: the calls already recorded stay as they
/// are.
pub fn write_str_cs<C, Cs: CallStream<C>>(cs: &mut Cs, text: &str) -> (pos: usize)
    ensures
        final(cs).contents() == old(cs).contents() + seq_encoding::<u8>(
            old(cs).contents().len(),
            utf8_bytes(text@),
        ),
        final(cs).calls() == old(cs).calls(),
        pos == old(cs).contents().len() + pad_len(old(cs).contents().len(), 8),
        utf8_chars(utf8_bytes(text@)) == Some(text@),
{
    let bytes = str_to_bytes(text);
    write_seq_cs::<C, Cs, u8>(cs, bytes.as_slice())
}


/// Serialize bytes in the run-length form: the alternating run/literal
/// stream, appended as it is. Returns the offset it starts at; the reader
/// must know where it ends, so this form rides inside length-delimited
/// containers (or fills the rest of a stream, as the typed-form round trip
/// exercises).
pub fn write_rle<S: Stream>(s: &mut S, data: &[u8]) -> (pos: usize)
    ensures
        final(s).contents() == old(s).contents() + rle::rle_encode::<u8>(data@),
        pos == old(s).contents().len(),
{
    let mut tmp: Vec<u8> = Vec::new();
    rle::write_u8(&mut tmp, data);
    s.write_unaligned(tmp.as_slice())
}

/// Decode a run-length-formed value that fills `buf` from `pos` to its end.
pub fn read_rle(buf: &[u8], pos: usize) -> (r: Result<Vec<u8>, DeserializeError>)
    requires
        pos <= buf@.len(),
    ensures
        match r {
            Ok(v) => rle::rle_decode::<u8>(buf@.skip(pos as int)) == Some(v@),
            Err(e) => rle::rle_decode::<u8>(buf@.skip(pos as int)) is None,
        },
{
    let len = buf.len();
    let tail = vstd::slice::slice_subrange(buf, pos, len);
    proof {
        assert(tail@ =~= buf@.skip(pos as int));
    }
    rle::read_u8(tail)
}

/// The typed-form round trip: bytes written through the run-length form into
/// a stream decode from the stream to the original bytes, whatever the
/// stream held before.
pub proof fn lemma_rle_form_round_trip(pre: Seq<u8>, data: Seq<u8>)
    requires
        data.len() <= usize::MAX,
    ensures
        rle::rle_decode::<u8>((pre + rle::rle_encode::<u8>(data)).skip(pre.len() as int)) == Some(
            data,
        ),
{
    assert((pre + rle::rle_encode::<u8>(data)).skip(pre.len() as int) =~= rle::rle_encode::<u8>(
        data,
    ));
    rle::lemma_rle_round_trip::<u8>(data);
}


/// Append `n` padding bytes.
pub fn push_pad(out: &mut Vec<u8>, n: usize)
    ensures
        final(out)@ == old(out)@ + Seq::new(n as nat, |m: int| PAD_BYTE),
{
    let mut c: usize = 0;
    while c < n
        invariant
            c <= n,
            out@ =~= old(out)@ + Seq::new(c as nat, |m: int| PAD_BYTE),
        decreases n - c,
    {
        proof {
            assert(old(out)@ + Seq::new((c + 1) as nat, |m: int| PAD_BYTE) =~= (old(out)@
                + Seq::new(c as nat, |m: int| PAD_BYTE)).push(PAD_BYTE));
        }
        out.push(PAD_BYTE);
        c = c + 1;
    }
}


/// The views of a list of byte buffers.
pub open spec fn views_of(parts: Seq<Vec<u8>>) -> Seq<Seq<u8>> {
    parts.map_values(|p: Vec<u8>| p@)
}

/// The wire image of a list of byte sequences written one after another from
/// offset `pos`: each in sequence form, at the position the previous one
/// ends.
pub open spec fn nested_tail_encoding(pos: nat, parts: Seq<Seq<u8>>) -> Seq<u8>
    decreases parts.len(),
{
    if parts.len() == 0 {
        Seq::empty()
    } else {
        let e = seq_encoding::<u8>(pos, parts[0]);
        e + nested_tail_encoding(pos + e.len(), parts.skip(1))
    }
}

/// The wire image of a nested byte-sequence value written at offset `pos`:
/// the outer count, then each inner sequence in order. This is the
/// element-by-element form that slices of non-primitive elements take.
pub open spec fn nested_encoding(pos: nat, parts: Seq<Seq<u8>>) -> Seq<u8> {
    let p1 = pad_bytes(pos, 8);
    let cnt = (parts.len() as u64).to_byte_seq();
    p1 + cnt + nested_tail_encoding(pos + p1.len() + 8, parts)
}

/// Extending the list appends one more sequence image at the tail's end.
pub proof fn lemma_nested_tail_push(pos: nat, parts: Seq<Seq<u8>>, x: Seq<u8>)
    ensures
        nested_tail_encoding(pos, parts.push(x)) == nested_tail_encoding(pos, parts)
            + seq_encoding::<u8>(pos + nested_tail_encoding(pos, parts).len(), x),
    decreases parts.len(),
{
    if parts.len() == 0 {
        assert(parts.push(x)[0] == x);
        assert(parts.push(x).skip(1) =~= Seq::<Seq<u8>>::empty());
        assert(nested_tail_encoding(pos, parts) =~= Seq::<u8>::empty());
        assert(nested_tail_encoding(pos, parts.push(x)) == seq_encoding::<u8>(
            pos,
            parts.push(x)[0],
        ) + nested_tail_encoding(
            pos + seq_encoding::<u8>(pos, parts.push(x)[0]).len(),
            parts.push(x).skip(1),
        ));
        assert(nested_tail_encoding(
            pos + seq_encoding::<u8>(pos, x).len(),
            Seq::<Seq<u8>>::empty(),
        ) =~= Seq::<u8>::empty());
        assert(seq_encoding::<u8>(pos, x) + Seq::<u8>::empty() =~= seq_encoding::<u8>(pos, x));
        assert(Seq::<u8>::empty() + seq_encoding::<u8>(pos + 0, x) =~= seq_encoding::<u8>(
            pos,
            x,
        ));
    } else {
        let e = seq_encoding::<u8>(pos, parts[0]);
        assert(parts.push(x)[0] == parts[0]);
        assert(parts.push(x).skip(1) =~= parts.skip(1).push(x));
        lemma_nested_tail_push(pos + e.len(), parts.skip(1), x);
        let t = nested_tail_encoding(pos + e.len(), parts.skip(1));
        assert(nested_tail_encoding(pos, parts) == e + t);
        assert(e + (t + seq_encoding::<u8>(pos + e.len() + t.len(), x)) =~= (e + t)
            + seq_encoding::<u8>(pos + (e + t).len(), x));
    }
}

/// Serialize a list of byte buffers in nested sequence form: the outer count,
/// then each buffer, element by element. Returns the offset of the count.
pub fn write_byte_seqs_cs<C, Cs: CallStream<C>>(cs: &mut Cs, parts: &Vec<Vec<u8>>) -> (pos: usize)
    ensures
        final(cs).contents() == old(cs).contents() + nested_encoding(
            old(cs).contents().len(),
            views_of(parts@),
        ),
        final(cs).calls() == old(cs).calls(),
        pos == old(cs).contents().len() + pad_len(old(cs).contents().len(), 8),
{
    let ghost vparts = views_of(parts@);
    let base = cs.mark();
    let pad1: usize = (8 - (base % 8)) % 8;
    proof {
        lemma_pad(base as nat, 8);
    }
    let mut head: Vec<u8> = Vec::new();
    push_pad(&mut head, pad1);
    let n: usize = parts.len();
    let n64: u64 = n as u64;
    n64.push_bytes(&mut head);
    proof {
        n64.lemma_to_len();
        assert(head@ =~= pad_bytes(base as nat, 8) + n64.to_byte_seq());
    }
    cs.write_variable(head.as_slice());
    let ghost start = cs.contents().len();
    let mut i: usize = 0;
    while i < n
        invariant
            i <= n,
            n == parts@.len(),
            vparts == views_of(parts@),
            vparts.len() == n,
            cs.contents() == old(cs).contents() + pad_bytes(old(cs).contents().len(), 8)
                + (n as u64).to_byte_seq() + nested_tail_encoding(start, vparts.take(i as int)),
            cs.calls() == old(cs).calls(),
            start == old(cs).contents().len() + pad_len(old(cs).contents().len(), 8) + 8,
        decreases n - i,
    {
        let ghost cur = cs.contents().len();
        proof {
            assert(vparts.take(i + 1) =~= vparts.take(i as int).push(vparts[i as int]));
            lemma_nested_tail_push(start, vparts.take(i as int), vparts[i as int]);
            assert(cur == start + nested_tail_encoding(start, vparts.take(i as int)).len());
            assert(vparts[i as int] == parts@[i as int]@);
        }
        let ghost before = cs.contents();
        write_seq_cs::<C, Cs, u8>(cs, parts[i].as_slice());
        proof {
            assert(cs.contents() =~= old(cs).contents() + pad_bytes(
                old(cs).contents().len(),
                8,
            ) + (n as u64).to_byte_seq() + nested_tail_encoding(start, vparts.take(i + 1)));
        }
        i = i + 1;
    }
    proof {
        assert(vparts.take(n as int) =~= vparts);
        assert(cs.contents() =~= old(cs).contents() + nested_encoding(
            old(cs).contents().len(),
            vparts,
        ));
    }
    let end = cs.mark();
    assert(base + pad1 <= end);
    base + pad1
}

/// What a nested byte-sequence read finds at offset `pos`: the buffers and
/// the position just past them, or nothing when any part runs out.
pub open spec fn nested_at(buf: Seq<u8>, pos: nat) -> Option<(Seq<Seq<u8>>, nat)> {
    let start0 = pos + pad_len(pos, 8);
    if buf.len() < start0 + 8 {
        None
    } else {
        let n = <u64 as Simple>::from_byte_seq(buf.subrange(start0 as int, start0 as int + 8));
        if n > usize::MAX {
            None
        } else {
            nested_tail_at(buf, start0 + 8, n as nat)
        }
    }
}

/// The tail of [`nested_at`]: `n` byte sequences, one after another.
pub open spec fn nested_tail_at(buf: Seq<u8>, pos: nat, n: nat) -> Option<(Seq<Seq<u8>>, nat)>
    decreases n,
{
    if n == 0 {
        Some((Seq::empty(), pos))
    } else {
        match seq_at::<u8>(buf, pos) {
            None => None,
            Some(part) => {
                let end = pos + pad_len(pos, 8) + 8 + part.len();
                if !(pos <= end <= buf.len()) {
                    None
                } else {
                    match nested_tail_at(buf, end, (n - 1) as nat) {
                        None => None,
                        Some((rest, fin)) => Some((seq![part] + rest, fin)),
                    }
                }
            },
        }
    }
}

/// Read a nested byte-sequence value written by [`write_byte_seqs_cs`].
pub fn read_byte_seqs(buf: &[u8], pos: usize) -> (r: Result<(Vec<Vec<u8>>, usize), DeserializeError>)
    requires
        pos <= buf@.len(),
    ensures
        match r {
            Ok((v, newpos)) => nested_at(buf@, pos as nat) == Some((views_of(v@), newpos as nat))
                && newpos <= buf@.len(),
            Err(e) => nested_at(buf@, pos as nat) is None,
        },
{
    proof {
        <u64 as Simple>::lemma_layout();
    }
    let (cntv, p1) = match take_aligned_slice::<u64>(buf, pos, 1) {
        Ok(x) => x,
        Err(e) => {
            proof {
                assert(1 * <u64 as Simple>::byte_len() == 8) by (nonlinear_arith)
                    requires <u64 as Simple>::byte_len() == 8;
            }
            return Err(DeserializeError::UnexpectedEof);
        },
    };
    proof {
        assert(1 * <u64 as Simple>::byte_len() == 8) by (nonlinear_arith)
            requires <u64 as Simple>::byte_len() == 8;
        assert(0 * <u64 as Simple>::byte_len() == 0) by (nonlinear_arith);
    }
    let n64: u64 = cntv[0];
    proof {
        let start0 = pos as int + pad_len(pos as nat, 8);
        let bl = <u64 as Simple>::byte_len() as int;
        assert(cntv@[0] == <u64 as Simple>::from_byte_seq(
            buf@.subrange(start0 + 0 * bl, start0 + 0 * bl + bl),
        ));
        assert(buf@.subrange(start0 + 0 * bl, start0 + 0 * bl + bl) == buf@.subrange(
            start0,
            start0 + 8,
        ));
    }
    if n64 > usize::MAX as u64 {
        return Err(DeserializeError::CountOverflow);
    }
    let n: usize = n64 as usize;
    let mut out: Vec<Vec<u8>> = Vec::new();
    let mut cursor: usize = p1;
    let mut i: usize = 0;
    proof {
        match nested_tail_at(buf@, cursor as nat, n as nat) {
            None => {},
            Some((rest, fin)) => {
                assert(views_of(out@) + rest =~= rest);
            },
        }
    }
    while i < n
        invariant
            i <= n,
            cursor <= buf@.len(),
            out@.len() == i,
            nested_at(buf@, pos as nat) == nested_tail_at(buf@, p1 as nat, n as nat),
            nested_tail_at(buf@, p1 as nat, n as nat) == match nested_tail_at(
                buf@,
                cursor as nat,
                (n - i) as nat,
            ) {
                None => None::<(Seq<Seq<u8>>, nat)>,
                Some((rest, fin)) => Some((views_of(out@) + rest, fin)),
            },
        decreases n - i,
    {
        let ghost pre = out@;
        let (part, end) = match read_seq_at::<u8>(buf, cursor) {
            Ok(x) => x,
            Err(e) => {
                return Err(e);
            },
        };
        proof {
            assert(end as nat == cursor as nat + pad_len(cursor as nat, 8) + 8 + part@.len()) by {
                lemma_pad_one((cursor as nat + pad_len(cursor as nat, 8) + 8) as nat);
                assert(part@.len() * <u8 as Simple>::byte_len() == part@.len())
                    by (nonlinear_arith)
                    requires <u8 as Simple>::byte_len() == 1;
            }
        }
        out.push(part);
        proof {
            assert(views_of(out@) =~= views_of(pre).push(out@[i as int]@));
            match nested_tail_at(buf@, end as nat, (n - i - 1) as nat) {
                None => {},
                Some((rest, fin)) => {
                    assert(views_of(pre) + (seq![out@[i as int]@] + rest) =~= views_of(out@)
                        + rest);
                },
            }
        }
        cursor = end;
        i = i + 1;
    }
    proof {
        assert(nested_tail_at(buf@, cursor as nat, 0) == Some(
            (Seq::<Seq<u8>>::empty(), cursor as nat),
        ));
        assert(views_of(out@) + Seq::<Seq<u8>>::empty() =~= views_of(out@));
    }
    Ok((out, cursor))
}

} // verus!








