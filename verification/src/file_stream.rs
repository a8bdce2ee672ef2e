//! Recording storage: the call stream, the variable stream, and the header
//! that guards them.
//!
//! On disk a recording is a directory of two files. `calls` starts with the
//! 8-byte [`Header`] and continues with the fixed-size call records;
//! `variable` is the raw variable-length stream. This module holds the
//! verified in-memory form of both streams and the header rules; reading and
//! writing the files themselves is the caller's ordinary I/O.

use vstd::prelude::*;
use crate::raw::Simple;
use crate::serialize::DeserializeError;
use crate::var::{CallStream, Stream};

verus! {

/// The 8-byte record at the start of the `calls` file: a magic number and the
/// three layout facts a reader must agree on, plus one padding byte.
///
/// Every field but the padding byte must match the reader's expectation
/// exactly; the padding byte is copied over unchecked.
#[derive(Clone, Copy, Debug, PartialEq, Eq, Structural)]
pub struct Header {
    /// Four ASCII bytes packed high-byte-first, stored like every other word.
    pub magic: u32,
    /// The byte width of the recording host's native word.
    pub size_of_usize: u8,
    /// The byte size of one call record.
    pub size_of_call: u8,
    /// The strictest alignment a recorded type needs.
    pub max_alignment: u8,
    /// Literal filler, the ASCII byte `P`.
    pub padding: u8,
}

/// The byte image of a header.
pub open spec fn header_bytes(h: Header) -> Seq<u8> {
    h.magic.to_byte_seq() + seq![h.size_of_usize, h.size_of_call, h.max_alignment, h.padding]
}

/// The header the bytes `s` spell.
pub open spec fn header_of_bytes(s: Seq<u8>) -> Header {
    Header {
        magic: <u32 as Simple>::from_byte_seq(s.subrange(0, 4)),
        size_of_usize: s[4],
        size_of_call: s[5],
        max_alignment: s[6],
        padding: s[7],
    }
}

/// Which header fields two headers disagree on, ignoring the padding byte.
pub open spec fn headers_match(actual: Header, expected: Header) -> bool {
    &&& actual.magic == expected.magic
    &&& actual.size_of_usize == expected.size_of_usize
    &&& actual.size_of_call == expected.size_of_call
    &&& actual.max_alignment == expected.max_alignment
}

/// A rejected open: the header found on disk beside the one the reader
/// expected, for diagnostics.
#[derive(Clone, Copy, Debug, PartialEq, Eq, Structural)]
pub struct HeaderMismatch {
    /// What the reader required.
    pub expected: Header,
    /// What the recording held.
    pub actual: Header,
}

impl Header {
    /// The header a recording of calls of the given size and alignment gets.
    ///
    /// This format stores its counts as 64-bit words, which the word-size
    /// field records; a call record must fit its size in the single byte the
    /// header reserves for it, which bounds it at 255 bytes.
    pub fn for_call(magic: u32, size_of_call: u8, max_alignment: u8) -> (r: Header)
        ensures
            r.magic == magic,
            r.size_of_usize == 8,
            r.size_of_call == size_of_call,
            r.max_alignment == max_alignment,
            r.padding == 0x50,
    {
        Header { magic, size_of_usize: 8, size_of_call, max_alignment, padding: 0x50 }
    }

    /// An all-zero header, for reading into.
    pub fn zeros() -> (r: Header)
        ensures
            r.magic == 0 && r.size_of_usize == 0 && r.size_of_call == 0 && r.max_alignment == 0
                && r.padding == 0,
    {
        Header { magic: 0, size_of_usize: 0, size_of_call: 0, max_alignment: 0, padding: 0 }
    }

    /// The 8 bytes this header writes at the front of the `calls` file.
    pub fn to_bytes(&self) -> (out: Vec<u8>)
        ensures
            out@ == header_bytes(*self),
            out@.len() == 8,
    {
        let mut out: Vec<u8> = Vec::new();
        self.magic.push_bytes(&mut out);
        out.push(self.size_of_usize);
        out.push(self.size_of_call);
        out.push(self.max_alignment);
        out.push(self.padding);
        assert(out@ =~= header_bytes(*self));
        out
    }

    /// Read a header back from the front of `buf`; fails exactly when fewer
    /// than 8 bytes are there.
    pub fn parse(buf: &[u8]) -> (r: Result<Header, DeserializeError>)
        ensures
            match r {
                Ok(h) => buf@.len() >= 8 && h == header_of_bytes(buf@),
                Err(e) => buf@.len() < 8 && e == DeserializeError::UnexpectedEof,
            },
    {
        if buf.len() < 8 {
            return Err(DeserializeError::UnexpectedEof);
        }
        let magic = <u32 as Simple>::read_at(buf, 0);
        let h = Header {
            magic,
            size_of_usize: buf[4],
            size_of_call: buf[5],
            max_alignment: buf[6],
            padding: buf[7],
        };
        proof {
            assert(buf@.subrange(0, 4) =~= buf@.subrange(0int, 0int + <u32 as Simple>::byte_len() as int));
        }
        Ok(h)
    }

    /// Validate this header, as read from a recording, against what a reader
    /// expecting the given magic number and call layout requires. The padding
    /// byte is not compared. On a mismatch, both headers come back for the
    /// error message.
    pub fn check(&self, magic: u32, size_of_call: u8, max_alignment: u8) -> (r: Result<
        (),
        HeaderMismatch,
    >)
        ensures
            r is Ok <==> headers_match(
                *self,
                Header {
                    magic,
                    size_of_usize: 8,
                    size_of_call,
                    max_alignment,
                    padding: self.padding,
                },
            ),
            r matches Err(m) ==> m.actual == *self && headers_match(*self, m.expected) == false,
    {
        let expected = Header {
            magic,
            size_of_usize: 8,
            size_of_call,
            max_alignment,
            padding: self.padding,
        };
        if self.magic == expected.magic && self.size_of_usize == expected.size_of_usize
            && self.size_of_call == expected.size_of_call && self.max_alignment
            == expected.max_alignment {
            Ok(())
        } else {
            Err(HeaderMismatch { expected, actual: *self })
        }
    }
}

/// Parsing a header's bytes yields the header again, padding byte included.
pub proof fn lemma_header_round_trip(h: Header)
    ensures
        header_of_bytes(header_bytes(h)) == h,
{
    let s = header_bytes(h);
    h.magic.lemma_to_len();
    assert(s.subrange(0, 4) =~= h.magic.to_byte_seq());
    h.magic.lemma_bytes_round_trip();
}

/// The variable-stream size past which recording must stop: a safety valve
/// against a runaway recording owning the machine, not a precise quota.
pub const DEFAULT_SIZE_LIMIT: u64 = 4 * 1024 * 1024 * 1024;

/// A recording: the sequence of fixed-size call records and the
/// variable-length stream they point into. Serves both as the sink a recorder
/// appends to and as the loaded form a replayer walks.
pub struct Recording<C> {
    /// The recorded calls, in the order they were appended.
    pub calls: Vec<C>,
    /// The variable-length side data.
    pub variable: Vec<u8>,
    /// The size-valve threshold for the variable stream, in bytes. Writes
    /// themselves never fail; the driver that records consults
    /// [`Recording::size_limit_exceeded`] after each one and aborts on a
    /// breach, so one write may overshoot — an accepted imprecision in a
    /// safety valve.
    pub size_limit: u64,
}

impl<C> Recording<C> {
    /// An empty recording, ready to append to, with the default size valve.
    pub fn new() -> (r: Recording<C>)
        ensures
            r.calls@ =~= Seq::<C>::empty(),
            r.variable@ =~= Seq::<u8>::empty(),
            r.size_limit == DEFAULT_SIZE_LIMIT,
    {
        Recording { calls: Vec::new(), variable: Vec::new(), size_limit: DEFAULT_SIZE_LIMIT }
    }

    /// Configure the size valve.
    pub fn set_size_limit(&mut self, limit: u64)
        ensures
            final(self).size_limit == limit,
            final(self).calls@ == old(self).calls@,
            final(self).variable@ == old(self).variable@,
    {
        self.size_limit = limit;
    }

    /// Whether the variable stream has outgrown the valve: exactly when its
    /// byte count exceeds the configured limit. The recording driver checks
    /// this after every write and treats a breach as fatal.
    pub fn size_limit_exceeded(&self) -> (r: bool)
        ensures
            r <==> self.variable@.len() > self.size_limit,
    {
        self.variable.len() as u64 > self.size_limit
    }
}

impl<C> Stream for Recording<C> {
    open spec fn contents(&self) -> Seq<u8> {
        self.variable@
    }

    fn mark(&self) -> (r: usize) {
        self.variable.len()
    }

    fn write_unaligned(&mut self, buf: &[u8]) -> (pos: usize) {
        let pos = self.variable.len();
        let mut m: usize = 0;
        let len = buf.len();
        while m < len
            invariant
                m <= len,
                len == buf@.len(),
                self.variable@ == old(self).variable@ + buf@.take(m as int),
                self.calls@ == old(self).calls@,
            decreases len - m,
        {
            proof {
                assert(buf@.take(m + 1) =~= buf@.take(m as int).push(buf@[m as int]));
            }
            let ghost before = self.variable@;
            self.variable.push(buf[m]);
            proof {
                assert(before.push(buf@[m as int]) =~= old(self).variable@ + buf@.take(m + 1));
            }
            m = m + 1;
        }
        assert(buf@.take(len as int) =~= buf@);
        pos
    }
}

impl<C> CallStream<C> for Recording<C> {
    open spec fn calls(&self) -> Seq<C> {
        self.calls@
    }

    fn write_call(&mut self, call: C) -> (serial: usize) {
        let serial = self.calls.len();
        self.calls.push(call);
        serial
    }

    fn call_serial(&self) -> (r: usize) {
        self.calls.len()
    }

    fn write_variable(&mut self, buf: &[u8]) -> (pos: usize) {
        let pos = self.variable.len();
        let mut m: usize = 0;
        let len = buf.len();
        while m < len
            invariant
                m <= len,
                len == buf@.len(),
                self.variable@ == old(self).variable@ + buf@.take(m as int),
                self.calls@ == old(self).calls@,
            decreases len - m,
        {
            proof {
                assert(buf@.take(m + 1) =~= buf@.take(m as int).push(buf@[m as int]));
            }
            let ghost before = self.variable@;
            self.variable.push(buf[m]);
            proof {
                assert(before.push(buf@[m as int]) =~= old(self).variable@ + buf@.take(m + 1));
            }
            m = m + 1;
        }
        assert(buf@.take(len as int) =~= buf@);
        pos
    }
}

} // verus!
