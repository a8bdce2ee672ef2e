//! Replay-side argument resolution and return-value validation.
//!
//! A replayer walks a recording's calls in stored order, resolves each
//! argument back to its natural value with the functions here, re-issues the
//! call against a target implementation, and — for calls that recorded a
//! `returned` value — holds the target's answer against the recording.
//! Replay is all-or-nothing: its purpose is bit-exact reproduction, so the
//! first mismatch ends it, naming the method and the call's serial number.

use vstd::prelude::*;
use crate::form::{SeqOf, Str, Var};
use crate::pixels::{pixels_at, Pixels, PixelsForm};
use crate::raw::Simple;
use crate::serialize::DeserializeError;
use crate::var::{read_seq_at, read_str, seq_at, utf8_chars};

verus! {

/// A validated call came back different on replay: which method, at which
/// serial number. The caller reports it and stops; there is no recovery or
/// partial-replay mode.
#[derive(Clone, Copy, Debug)]
pub struct ReplayError {
    /// The name of the method whose result diverged.
    pub method: &'static str,
    /// The serial number of the diverging call.
    pub serial: usize,
}

/// Resolve a sequence handle against the variable stream, owned.
pub fn get_seq<T: Simple>(variable: &[u8], handle: Var<SeqOf<T>>) -> (r: Result<
    Vec<T>,
    DeserializeError,
>)
    ensures
        match r {
            Ok(v) => handle.spec_offset() <= variable@.len() && seq_at::<T>(
                variable@,
                handle.spec_offset() as nat,
            ) == Some(v@),
            Err(e) => handle.spec_offset() > variable@.len() || seq_at::<T>(
                variable@,
                handle.spec_offset() as nat,
            ) is None,
        },
{
    let off = handle.offset();
    if off > variable.len() {
        return Err(DeserializeError::UnexpectedEof);
    }
    match read_seq_at::<T>(variable, off) {
        Ok((v, _end)) => Ok(v),
        Err(e) => Err(e),
    }
}

/// Resolve a string handle against the variable stream, owned.
pub fn get_str(variable: &[u8], handle: Var<Str>) -> (r: Result<String, DeserializeError>)
    ensures
        match r {
            Ok(s) => {
                &&& handle.spec_offset() <= variable@.len()
                &&& seq_at::<u8>(variable@, handle.spec_offset() as nat) is Some
                &&& utf8_chars(seq_at::<u8>(variable@, handle.spec_offset() as nat).unwrap())
                    == Some(s@)
            },
            Err(_) => handle.spec_offset() > variable@.len() || seq_at::<u8>(
                variable@,
                handle.spec_offset() as nat,
            ) is None || utf8_chars(
                seq_at::<u8>(variable@, handle.spec_offset() as nat).unwrap(),
            ) is None,
        },
{
    let off = handle.offset();
    if off > variable.len() {
        return Err(DeserializeError::UnexpectedEof);
    }
    read_str(variable, off)
}

/// Resolve a pixel-block handle against the variable stream, owned.
pub fn get_pixels(variable: &[u8], handle: Var<PixelsForm>) -> (r: Result<
    Pixels,
    DeserializeError,
>)
    ensures
        match r {
            Ok(p) => {
                &&& handle.spec_offset() <= variable@.len()
                &&& pixels_at(variable@, handle.spec_offset() as nat) is Some
                &&& pixels_at(variable@, handle.spec_offset() as nat).unwrap().0 == p@
            },
            Err(_) => handle.spec_offset() > variable@.len() || pixels_at(
                variable@,
                handle.spec_offset() as nat,
            ) is None,
        },
{
    let off = handle.offset();
    if off > variable.len() {
        return Err(DeserializeError::UnexpectedEof);
    }
    match Pixels::deserialize(variable, off) {
        Ok((p, end)) => {
            proof {
                assert(pixels_at(variable@, off as nat) == Some((p@, end as nat)));
            }
            Ok(p)
        },
        Err(e) => Err(e),
    }
}

/// Hold a scalar result against its recording: succeeds exactly on equality,
/// and a failure names the method and serial number.
pub fn check_return_u32(method: &'static str, serial: usize, expected: u32, actual: u32) -> (r:
    Result<(), ReplayError>)
    ensures
        r is Ok <==> expected == actual,
        r matches Err(e) ==> e.method == method && e.serial == serial,
{
    if expected == actual {
        Ok(())
    } else {
        Err(ReplayError { method, serial })
    }
}

/// As [`check_return_u32`], for signed results such as uniform locations.
pub fn check_return_i32(method: &'static str, serial: usize, expected: i32, actual: i32) -> (r:
    Result<(), ReplayError>)
    ensures
        r is Ok <==> expected == actual,
        r matches Err(e) ==> e.method == method && e.serial == serial,
{
    if expected == actual {
        Ok(())
    } else {
        Err(ReplayError { method, serial })
    }
}

/// As [`check_return_u32`], for 64-bit results such as query objects.
pub fn check_return_u64(method: &'static str, serial: usize, expected: u64, actual: u64) -> (r:
    Result<(), ReplayError>)
    ensures
        r is Ok <==> expected == actual,
        r matches Err(e) ==> e.method == method && e.serial == serial,
{
    if expected == actual {
        Ok(())
    } else {
        Err(ReplayError { method, serial })
    }
}

/// Hold a generated-id list against its recording: succeeds exactly when the
/// counts and every id agree, in order.
pub fn check_returned_ids(
    method: &'static str,
    serial: usize,
    expected: &Vec<u32>,
    actual: &Vec<u32>,
) -> (r: Result<(), ReplayError>)
    ensures
        r is Ok <==> expected@ == actual@,
        r matches Err(e) ==> e.method == method && e.serial == serial,
{
    if expected.len() != actual.len() {
        assert(expected@ != actual@);
        return Err(ReplayError { method, serial });
    }
    let n = expected.len();
    let mut i: usize = 0;
    while i < n
        invariant
            i <= n,
            n == expected@.len() == actual@.len(),
            forall|k: int| 0 <= k < i ==> expected@[k] == actual@[k],
        decreases n - i,
    {
        if expected[i] != actual[i] {
            assert(expected@ != actual@);
            return Err(ReplayError { method, serial });
        }
        i = i + 1;
    }
    proof {
        assert(expected@ =~= actual@);
    }
    Ok(())
}

/// Hold a filled byte buffer against its recording: succeeds exactly when
/// the lengths and every byte agree.
pub fn check_returned_bytes(
    method: &'static str,
    serial: usize,
    expected: &Vec<u8>,
    actual: &Vec<u8>,
) -> (r: Result<(), ReplayError>)
    ensures
        r is Ok <==> expected@ == actual@,
        r matches Err(e) ==> e.method == method && e.serial == serial,
{
    if expected.len() != actual.len() {
        assert(expected@ != actual@);
        return Err(ReplayError { method, serial });
    }
    let n = expected.len();
    let mut i: usize = 0;
    while i < n
        invariant
            i <= n,
            n == expected@.len() == actual@.len(),
            forall|k: int| 0 <= k < i ==> expected@[k] == actual@[k],
        decreases n - i,
    {
        if expected[i] != actual[i] {
            assert(expected@ != actual@);
            return Err(ReplayError { method, serial });
        }
        i = i + 1;
    }
    proof {
        assert(expected@ =~= actual@);
    }
    Ok(())
}

} // verus!
