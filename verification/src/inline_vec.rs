use vstd::prelude::*;

verus! {

/// A fixed-capacity sequence of at most `N` elements.
///
/// The container owns every live element: elements enter only through `push`,
/// which fails once `N` elements are held and hands the rejected value back to
/// the caller, and leave only through `pop`, which transfers ownership out.
pub struct InlineVec<T, const N: usize> {
    items: Vec<T>,
}

impl<T, const N: usize> View for InlineVec<T, N> {
    type V = Seq<T>;

    closed spec fn view(&self) -> Seq<T> {
        self.items@
    }
}

impl<T, const N: usize> InlineVec<T, N> {
    /// The live elements never outnumber the capacity `N`; `new` establishes
    /// this and every method preserves it.
    pub closed spec fn well_formed(self) -> bool {
        self.items@.len() <= N
    }

    /// A new container is empty.
    pub fn new() -> (v: Self)
        ensures
            v.well_formed(),
            v@ == Seq::<T>::empty(),
    {
        InlineVec { items: Vec::new() }
    }

    /// The capacity is `N`, fixed for the type's lifetime.
    pub fn capacity(&self) -> (n: usize)
        ensures
            n == N,
    {
        N
    }

    /// Appends `item` behind the last live element, unless the container is
    /// full, in which case nothing changes and `item` is returned to the caller.
    pub fn push(&mut self, item: T) -> (r: Result<(), T>)
        requires
            old(self).well_formed(),
        ensures
            final(self).well_formed(),
            old(self)@.len() < N ==> r == Ok::<(), T>(()) && final(self)@ == old(self)@.push(item),
            old(self)@.len() >= N ==> r == Err::<(), T>(item) && final(self)@ == old(self)@,
    {
        if self.items.len() >= N {
            return Err(item);
        }
        self.items.push(item);
        Ok(())
    }

    /// Removes the last live element and hands it to the caller; on an empty
    /// container it reports absence and changes nothing.
    pub fn pop(&mut self) -> (r: Option<T>)
        requires
            old(self).well_formed(),
        ensures
            final(self).well_formed(),
            old(self)@.len() == 0 ==> r == None::<T> && final(self)@ == old(self)@,
            old(self)@.len() > 0 ==> r == Some(old(self)@.last()) && final(self)@ == old(
                self,
            )@.drop_last(),
    {
        self.items.pop()
    }

    /// Borrows the last live element without mutating; absence on an empty
    /// container.
    pub fn peek(&self) -> (r: Option<&T>)
        ensures
            match r {
                Some(item) => self@.len() > 0 && *item == self@.last(),
                None => self@.len() == 0,
            },
    {
        if self.items.len() == 0 {
            None
        } else {
            Some(&self.items[self.items.len() - 1])
        }
    }

    /// The number of live elements.
    pub fn len(&self) -> (n: usize)
        ensures
            n == self@.len(),
    {
        self.items.len()
    }

    /// Whether no element is live.
    pub fn is_empty(&self) -> (b: bool)
        ensures
            b == (self@.len() == 0),
    {
        self.items.len() == 0
    }

    /// Borrows the element at `index`; absence when `index` is past the last
    /// live element.
    pub fn get(&self, index: usize) -> (r: Option<&T>)
        ensures
            match r {
                Some(item) => index < self@.len() && *item == self@[index as int],
                None => index >= self@.len(),
            },
    {
        if index < self.items.len() {
            Some(&self.items[index])
        } else {
            None
        }
    }

    /// The live elements `[0, length)` as one contiguous mutable sequence;
    /// the caller may rearrange or overwrite them but cannot change how many
    /// there are.
    pub fn items_mut(&mut self) -> (s: &mut [T])
        requires
            old(self).well_formed(),
        ensures
            s@ == old(self)@,
            final(self)@ == final(s)@,
            final(s)@.len() == old(self)@.len() ==> final(self).well_formed(),
    {
        self.items.as_mut_slice()
    }

    /// The live elements `[0, length)` as one contiguous borrowed sequence.
    pub fn items(&self) -> (s: &[T])
        ensures
            s@ == self@,
    {
        self.items.as_slice()
    }
}

/// The values yielded by popping a container holding `s` down to empty: each
/// pop hands back the last live element and drops it from the view.
pub open spec fn drained_of<T>(s: Seq<T>) -> Seq<T>
    decreases s.len(),
{
    if s.len() == 0 {
        Seq::empty()
    } else {
        seq![s.last()] + drained_of(s.drop_last())
    }
}

/// Popping every element of a container holding `s` yields exactly the
/// elements of `s`, in reverse order of how `push` placed them, and leaves the
/// container empty.
pub proof fn lemma_drain_reverses<T>(s: Seq<T>)
    ensures
        drained_of(s) == s.reverse(),
    decreases s.len(),
{
    if s.len() > 0 {
        lemma_drain_reverses(s.drop_last());
        assert(drained_of(s) =~= s.reverse());
    } else {
        assert(drained_of(s) =~= s.reverse());
    }
}

impl<T, const N: usize> Default for InlineVec<T, N> {
    /// The default container is empty.
    fn default() -> (v: Self)
        ensures
            v.well_formed(),
            v@ == Seq::<T>::empty(),
    {
        InlineVec::new()
    }
}

} // verus!
