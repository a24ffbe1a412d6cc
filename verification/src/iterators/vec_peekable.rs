use vstd::prelude::*;

verus! {

/// Lookahead over a run of copyable items, peeked by value.
pub struct VecPeekable<T> {
    buffer: Vec<T>,
}

impl<T> View for VecPeekable<T> {
    type V = Seq<T>;

    closed spec fn view(&self) -> Seq<T> {
        self.buffer@
    }
}

impl<T: Copy> VecPeekable<T> {
    /// Wraps the items still to be consumed, in order.
    pub fn from_items(items: Vec<T>) -> (r: Self)
        ensures
            r@ == items@,
    {
        VecPeekable { buffer: items }
    }

    /// A copy of the front item; absence when no item remains.
    pub fn peek(&self) -> (r: Option<T>)
        ensures
            self@.len() > 0 ==> r == Some(self@.first()),
            self@.len() == 0 ==> r == None::<T>,
    {
        self.nth_peek(0)
    }

    /// A copy of the item `index` places ahead; absence when fewer than
    /// `index + 1` items remain.
    pub fn nth_peek(&self, index: usize) -> (r: Option<T>)
        ensures
            index < self@.len() ==> r == Some(self@[index as int]),
            index >= self@.len() ==> r == None::<T>,
    {
        if index < self.buffer.len() {
            Some(self.buffer[index])
        } else {
            None
        }
    }

    /// All items still to come, in order, as one borrowed sequence.
    pub fn peek_any(&self) -> (s: &[T])
        ensures
            s@ == self@,
    {
        self.buffer.as_slice()
    }
}

} // verus!
