//! Writing values as bytes into a vector that starts out empty.

use vstd::prelude::*;

verus! {

/// A vector that was empty when it was handed out for filling.
#[derive(Debug)]
pub struct EmptyVec<'a, T>(&'a mut Vec<T>);

/// The vector handed in was not empty.
#[derive(Clone, Copy, Debug)]
pub struct NotEmptyError;

impl NotEmptyError {
    /// What went wrong, for people.
    pub fn message(&self) -> (r: &'static str)
        ensures
            r@ == "vector is not empty"@,
    {
        "vector is not empty"
    }
}

impl<'a, T> EmptyVec<'a, T> {
    /// The elements of the vector when it was wrapped: none.
    pub closed spec fn contents(&self) -> Seq<T> {
        self.0@
    }

    /// Wraps `value` where it is empty.
    pub fn new(value: &'a mut Vec<T>) -> (r: Result<Self, NotEmptyError>)
        ensures
            r is Ok <==> old(value)@.len() == 0,
            r matches Ok(e) ==> e.contents() == Seq::<T>::empty(),
    {
        if value.len() == 0 {
            Ok(EmptyVec(value))
        } else {
            Err(NotEmptyError)
        }
    }

    /// The vector, to be filled.
    pub fn into_inner(self) -> (r: &'a mut Vec<T>)
        ensures
            r@ == self.contents(),
    {
        self.0
    }
}

/// A value that writes itself as bytes into an empty vector.
pub trait FillByteVec {
    /// How many bytes are likely written, to reserve room ahead.
    fn size_hint() -> usize;

    /// Writes the value's bytes into `vec`.
    fn fill_bytes(&self, vec: EmptyVec<u8>);
}

/// A value that shows its bytes to a closure.
pub trait IntoBytesSlice {
    /// Calls `f` with the value's bytes and returns what it returns.
    fn into_bytes_slice<T, F: FnOnce(&[u8]) -> T>(&self, f: F) -> T;
}

} // verus!
