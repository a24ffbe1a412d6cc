use vstd::prelude::*;

verus! {

/// Bulk insertion of a contiguous run of elements into a growable array at an
/// arbitrary index.
pub trait RangeInsertable<T>: Sized {
    /// The elements the array currently holds, in order.
    spec fn contents(&self) -> Seq<T>;

    /// Inserts all of `items`, in order, at `index`: the array becomes
    /// `contents[0..index] ++ items ++ contents[index..]`, growing its length
    /// by `items.len()`. An `index` past the end of the array is a
    /// precondition violation.
    fn insert_range(&mut self, index: usize, items: Vec<T>)
        requires
            index <= old(self).contents().len(),
        ensures
            final(self).contents() == old(self).contents().subrange(0, index as int) + items@
                + old(self).contents().subrange(index as int, old(self).contents().len() as int),
    ;

    /// Opens a window of `len` contiguous slots at `index` by shifting the
    /// elements `contents[index..]` right by `len` places, preserving their
    /// order; the window `[index, index + len)` is then occupied by copies of
    /// `fill`, standing in for slots whose prior contents the caller must not
    /// rely on. The length grows by `len` immediately. An `index` past the end
    /// of the array is a precondition violation.
    fn reserve_range(&mut self, index: usize, len: usize, fill: T)
        where T: Copy
        requires
            index <= old(self).contents().len(),
        ensures
            final(self).contents() == old(self).contents().subrange(0, index as int) + Seq::new(
                len as nat,
                |i: int| fill,
            ) + old(self).contents().subrange(index as int, old(self).contents().len() as int),
    ;
}

impl<T> RangeInsertable<T> for Vec<T> {
    open spec fn contents(&self) -> Seq<T> {
        self@
    }

    #[verifier::loop_isolation(false)]
    fn insert_range(&mut self, index: usize, items: Vec<T>) {
        let ghost orig = self@;
        let ghost items0 = items@;
        let mut items = items;
        while items.len() > 0
            invariant
                items@.len() <= items0.len(),
                items@ == items0.subrange(0, items@.len() as int),
                self@ == orig.subrange(0, index as int) + items0.subrange(
                    items@.len() as int,
                    items0.len() as int,
                ) + orig.subrange(index as int, orig.len() as int),
            decreases items@.len(),
        {
            let ghost k = items@.len() as int;
            let ghost pre = items@;
            let item = items.pop().unwrap();
            proof {
                assert(pre == items0.subrange(0, k));
                assert(item == pre[k - 1] && pre[k - 1] == items0[k - 1]);
                assert(items@ =~= items0.subrange(0, k - 1));
            }
            self.insert(index, item);
            proof {
                assert(self@ =~= orig.subrange(0, index as int) + items0.subrange(
                    k - 1,
                    items0.len() as int,
                ) + orig.subrange(index as int, orig.len() as int));
            }
        }
        proof {
            assert(items0.subrange(0, items0.len() as int) =~= items0);
            assert(self@ =~= orig.subrange(0, index as int) + items0 + orig.subrange(
                index as int,
                orig.len() as int,
            ));
        }
    }

    #[verifier::loop_isolation(false)]
    fn reserve_range(&mut self, index: usize, len: usize, fill: T) where T: Copy {
        let ghost orig = self@;
        self.reserve(len);
        if len == 0 {
            proof {
                assert(self@ =~= orig.subrange(0, index as int) + Seq::new(0, |i: int| fill)
                    + orig.subrange(index as int, orig.len() as int));
            }
            return ;
        }
        let old_len = self.len();
        let mut k: usize = 0;
        while k < len
            invariant
                k <= len,
                self@ == orig + Seq::new(k as nat, |i: int| fill),
            decreases len - k,
        {
            self.push(fill);
            proof {
                assert(self@ =~= orig + Seq::new((k + 1) as nat, |i: int| fill));
            }
            k += 1;
        }
        let new_len = self.len();
        assert(new_len == old_len + len);
        let mut idx = old_len;
        while idx > index
            invariant
                index <= idx <= old_len,
                old_len == orig.len(),
                old_len + len == self@.len(),
                self@.len() <= usize::MAX,
                forall|j: int| 0 <= j < idx ==> self@[j] == orig[j],
                forall|j: int| idx <= j < idx + len ==> self@[j] == fill,
                forall|j: int| idx + len <= j < self@.len() ==> self@[j] == orig[j - len],
            decreases idx,
        {
            idx -= 1;
            let value = self[idx];
            let ghost before = self@;
            self[idx + len] = value;
            self[idx] = fill;
            proof {
                assert(self@ == before.update(idx + len, value).update(idx as int, fill));
                assert forall|j: int| idx + len <= j < self@.len() implies self@[j] == orig[j
                    - len] by {
                    if j == idx + len {
                        assert(value == orig[idx as int]);
                    } else {
                        assert(self@[j] == before[j]);
                    }
                }
            }
        }
        proof {
            assert(self@ =~= orig.subrange(0, index as int) + Seq::new(len as nat, |i: int| fill)
                + orig.subrange(index as int, orig.len() as int));
        }
    }
}

} // verus!
