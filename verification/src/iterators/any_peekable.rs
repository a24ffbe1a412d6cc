use vstd::prelude::*;

verus! {

/// Lookahead over a run of items consumed front to back.
///
/// The items still to come are buffered by value, and peeking borrows them in
/// place, so no reference ever outlives the buffer it points into.
pub struct AnyPeekable<T> {
    buffer: Vec<T>,
}

impl<T> View for AnyPeekable<T> {
    type V = Seq<T>;

    closed spec fn view(&self) -> Seq<T> {
        self.buffer@
    }
}

impl<T> AnyPeekable<T> {
    /// Wraps the items still to be consumed, in order.
    pub fn from_items(items: Vec<T>) -> (r: Self)
        ensures
            r@ == items@,
    {
        AnyPeekable { buffer: items }
    }

    /// Consumes the front item and hands it to the caller; absence when no
    /// item remains.
    pub fn next(&mut self) -> (r: Option<T>)
        ensures
            old(self)@.len() == 0 ==> r == None::<T> && final(self)@ == old(self)@,
            old(self)@.len() > 0 ==> r == Some(old(self)@.first()) && final(self)@ == old(
                self,
            )@.drop_first(),
    {
        if self.buffer.len() == 0 {
            None
        } else {
            let item = self.buffer.remove(0);
            proof {
                assert(self.buffer@ =~= old(self)@.drop_first());
            }
            Some(item)
        }
    }

    /// Borrows the front item without consuming it; absence when no item
    /// remains.
    pub fn peek(&self) -> (r: Option<&T>)
        ensures
            match r {
                Some(item) => self@.len() > 0 && *item == self@.first(),
                None => self@.len() == 0,
            },
    {
        self.nth_peek(0)
    }

    /// Borrows the item `index` places ahead without consuming anything;
    /// absence when fewer than `index + 1` items remain.
    pub fn nth_peek(&self, index: usize) -> (r: Option<&T>)
        ensures
            match r {
                Some(item) => index < self@.len() && *item == self@[index as int],
                None => index >= self@.len(),
            },
    {
        if index < self.buffer.len() {
            Some(&self.buffer[index])
        } else {
            None
        }
    }

    /// All items still to come, in order, as one borrowed sequence.
    pub fn peek_any(&self) -> (s: &[T])
        ensures
            s@ == self@,
    {
        self.buffer.as_slice()
    }
}

} // verus!
