//! Types representing the form in which values are serialized.
//!
//! The markers here are zero-payload types that select a wire encoding at
//! compile time; [`Var`] carries the one piece of real state in this layer,
//! the byte offset of a value in the variable-length stream.

use vstd::prelude::*;
use core::marker::PhantomData;

verus! {

/// A typed offset: the position of a `T`-formed value in the variable-length
/// stream. It carries no payload of its own and is meaningful only together
/// with the stream it was produced against.
#[derive(Debug)]
pub struct Var<T> {
    offset: usize,
    form: PhantomData<T>,
}

impl<T> Clone for Var<T> {
    fn clone(&self) -> (r: Self)
        ensures
            r == *self,
    {
        Var { offset: self.offset, form: PhantomData }
    }
}

impl<T> Copy for Var<T> {

}

impl<T> Var<T> {
    /// The byte offset this handle points at.
    pub closed spec fn spec_offset(self) -> usize {
        self.offset
    }

    /// The handle with the given offset, for specifications.
    pub closed spec fn spec_new(offset: usize) -> Var<T> {
        Var { offset, form: PhantomData }
    }

    /// The spec constructor makes the handle its offset says.
    pub proof fn lemma_spec_new(offset: usize)
        ensures
            Var::<T>::spec_new(offset).spec_offset() == offset,
    {
    }

    /// Make a handle for the value at `offset`.
    pub fn new(offset: usize) -> (r: Var<T>)
        ensures
            r == Var::<T>::spec_new(offset),
            r.spec_offset() == offset,
    {
        Var { offset, form: PhantomData }
    }

    /// The byte offset this handle points at.
    pub fn offset(&self) -> (r: usize)
        ensures
            r == self.spec_offset(),
    {
        self.offset
    }
}

/// A sequence of values: the form of slices and growable buffers. Serialized
/// as a count followed by that many encoded elements, each aligned.
#[derive(Debug)]
pub struct SeqOf<T> {
    form: PhantomData<T>,
}

impl<T> Clone for SeqOf<T> {
    fn clone(&self) -> (r: Self)
        ensures
            r == *self,
    {
        SeqOf { form: PhantomData }
    }
}

impl<T> Copy for SeqOf<T> {

}

/// A UTF-8 string: a byte count followed by the text, via `SeqOf<u8>`.
#[derive(Clone, Copy, Debug, PartialEq, Eq)]
pub struct Str;


/// A run-length-coded stream of `T`: alternating runs and literals, counts in
/// LEB128, as the `rle` module writes them.
#[derive(Debug)]
pub struct Rle<T> {
    form: PhantomData<T>,
}

impl<T> Clone for Rle<T> {
    fn clone(&self) -> (r: Self)
        ensures
            r == *self,
    {
        Rle { form: PhantomData }
    }
}

impl<T> Copy for Rle<T> {

}

} // verus!
