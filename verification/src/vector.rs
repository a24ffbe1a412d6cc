use vstd::prelude::*;

verus! {

/// A fixed-size tuple of `N` elements stored inline, all of them live.
pub struct Vector<T, const N: usize> {
    buffer: [T; N],
}

impl<T, const N: usize> View for Vector<T, N> {
    type V = Seq<T>;

    closed spec fn view(&self) -> Seq<T> {
        self.buffer@
    }
}

impl<T, const N: usize> Vector<T, N> {
    /// Wraps `buffer` without copying it.
    pub fn new(buffer: [T; N]) -> (v: Self)
        ensures
            v@ == buffer@,
    {
        Vector { buffer }
    }

    /// Unwraps the buffer, handing its elements back to the caller.
    pub fn into_items(self) -> (b: [T; N])
        ensures
            b@ == self@,
    {
        self.buffer
    }

    /// The elements, in order, as one borrowed sequence.
    pub fn items(&self) -> (s: &[T])
        ensures
            s@ == self@,
    {
        self.buffer.as_slice()
    }
}

} // verus!
