use vstd::prelude::*;
use vstd::seq_lib::group_to_multiset_ensures;
use vstd::seq_lib::lemma_multiset_commutative;
use vstd::multiset::group_multiset_axioms;
use vstd::multiset::Multiset;

verus! {

/// The elements of `s` that the decision sequence `m` keeps (`m[i]` true means
/// element `i` is removed), in their original order.
pub open spec fn kept_of<T>(s: Seq<T>, m: Seq<bool>) -> Seq<T>
    decreases s.len(),
{
    if s.len() == 0 {
        Seq::empty()
    } else if m[s.len() - 1] {
        kept_of(s.drop_last(), m.drop_last())
    } else {
        kept_of(s.drop_last(), m.drop_last()).push(s.last())
    }
}

/// The elements of `s` that the decision sequence `m` removes, in their
/// original order.
pub open spec fn removed_of<T>(s: Seq<T>, m: Seq<bool>) -> Seq<T>
    decreases s.len(),
{
    if s.len() == 0 {
        Seq::empty()
    } else if m[s.len() - 1] {
        removed_of(s.drop_last(), m.drop_last()).push(s.last())
    } else {
        removed_of(s.drop_last(), m.drop_last())
    }
}

/// `m` records, for every element of `s`, a verdict that the predicate `p`
/// can return on that element.
pub open spec fn decided_by<T, P: Fn(&T) -> bool>(s: Seq<T>, m: Seq<bool>, p: P) -> bool {
    &&& m.len() == s.len()
    &&& forall|i: int| 0 <= i < s.len() ==> call_ensures(p, (&s[i],), m[i])
}

/// A decision sequence that removes nothing keeps every element in place and
/// removes none.
pub proof fn lemma_no_removal_keeps_all<T>(s: Seq<T>, m: Seq<bool>)
    requires
        m.len() == s.len(),
        forall|i: int| 0 <= i < m.len() ==> !m[i],
    ensures
        kept_of(s, m) == s,
        removed_of(s, m) == Seq::<T>::empty(),
    decreases s.len(),
{
    if s.len() > 0 {
        lemma_no_removal_keeps_all(s.drop_last(), m.drop_last());
        assert(kept_of(s, m) =~= s);
    } else {
        assert(kept_of(s, m) =~= s);
    }
}

/// Every element is classified exactly once: the kept and the removed
/// elements together are exactly the elements of `s`, none lost and none
/// duplicated.
pub proof fn lemma_every_element_classified<T>(s: Seq<T>, m: Seq<bool>)
    requires
        m.len() == s.len(),
    ensures
        kept_of(s, m).len() + removed_of(s, m).len() == s.len(),
        kept_of(s, m).to_multiset().add(removed_of(s, m).to_multiset()) == s.to_multiset(),
    decreases s.len(),
{
    broadcast use group_to_multiset_ensures, group_multiset_axioms;

    if s.len() == 0 {
        assert(kept_of(s, m).to_multiset().add(removed_of(s, m).to_multiset())
            =~= s.to_multiset());
    } else {
        lemma_every_element_classified(s.drop_last(), m.drop_last());
        assert(s.drop_last().push(s.last()) =~= s);
        let kept1 = kept_of(s.drop_last(), m.drop_last());
        let removed1 = removed_of(s.drop_last(), m.drop_last());
        if m[s.len() - 1] {
            assert(removed_of(s, m) == removed1.push(s.last()));
            assert(removed_of(s, m).to_multiset() == removed1.to_multiset().insert(s.last()));
        } else {
            assert(kept_of(s, m) == kept1.push(s.last()));
            assert(kept_of(s, m).to_multiset() == kept1.to_multiset().insert(s.last()));
        }
        assert(kept_of(s, m).to_multiset().add(removed_of(s, m).to_multiset())
            =~= s.to_multiset());
    }
}

proof fn lemma_decisions_prepend<T>(x: T, s: Seq<T>, b: bool, m: Seq<bool>)
    requires
        m.len() == s.len(),
    ensures
        kept_of(seq![x] + s, seq![b] + m) == (if b {
            kept_of(s, m)
        } else {
            seq![x] + kept_of(s, m)
        }),
        removed_of(seq![x] + s, seq![b] + m) == (if b {
            seq![x] + removed_of(s, m)
        } else {
            removed_of(s, m)
        }),
    decreases s.len(),
{
    let xs = seq![x] + s;
    let bm = seq![b] + m;
    if s.len() == 0 {
        assert(xs.drop_last() =~= Seq::<T>::empty());
        assert(bm.drop_last() =~= Seq::<bool>::empty());
        assert(xs.last() == x && bm[0] == b);
        assert(kept_of(Seq::<T>::empty(), Seq::<bool>::empty()) == Seq::<T>::empty());
        assert(removed_of(Seq::<T>::empty(), Seq::<bool>::empty()) == Seq::<T>::empty());
        if b {
            assert(kept_of(xs, bm) =~= kept_of(s, m));
            assert(removed_of(xs, bm) =~= seq![x] + removed_of(s, m));
        } else {
            assert(kept_of(xs, bm) =~= seq![x] + kept_of(s, m));
            assert(removed_of(xs, bm) =~= removed_of(s, m));
        }
    } else {
        lemma_decisions_prepend(x, s.drop_last(), b, m.drop_last());
        assert(xs.drop_last() =~= seq![x] + s.drop_last());
        assert(bm.drop_last() =~= seq![b] + m.drop_last());
        assert(xs.last() == s.last());
        assert(bm[xs.len() - 1] == m[s.len() - 1]);
        if m[s.len() - 1] {
            if b {
                assert(removed_of(xs, bm) =~= seq![x] + removed_of(s, m));
            } else {
                assert(removed_of(xs, bm) =~= removed_of(s, m));
            }
        } else {
            if b {
                assert(kept_of(xs, bm) =~= kept_of(s, m));
            } else {
                assert(kept_of(xs, bm) =~= seq![x] + kept_of(s, m));
            }
        }
    }
}

proof fn lemma_false_block_prepend<T>(p: Seq<T>, s: Seq<T>, f: Seq<bool>, m: Seq<bool>)
    requires
        m.len() == s.len(),
        f.len() == p.len(),
        forall|i: int| 0 <= i < f.len() ==> !f[i],
    ensures
        kept_of(p + s, f + m) == p + kept_of(s, m),
        removed_of(p + s, f + m) == removed_of(s, m),
    decreases p.len(),
{
    if p.len() == 0 {
        assert(p + s =~= s);
        assert(f + m =~= m);
        assert(p + kept_of(s, m) =~= kept_of(s, m));
    } else {
        let p1 = p.drop_first();
        let f1 = f.drop_first();
        lemma_false_block_prepend(p1, s, f1, m);
        assert(p + s =~= seq![p[0]] + (p1 + s));
        assert(f + m =~= seq![false] + (f1 + m));
        lemma_decisions_prepend(p[0], p1 + s, false, f1 + m);
        assert(kept_of(p + s, f + m) == seq![p[0]] + (p1 + kept_of(s, m)));
        assert(seq![p[0]] + (p1 + kept_of(s, m)) =~= p + kept_of(s, m));
    }
}

proof fn lemma_swap_step<T>(
    orig: Seq<T>,
    pre: Seq<T>,
    post: Seq<T>,
    idx: int,
    rest: int,
    msuf0: Seq<bool>,
    msuf: Seq<bool>,
)
    requires
        0 <= idx < rest,
        rest <= pre.len(),
        pre.len() <= orig.len(),
        rest + msuf0.len() == orig.len(),
        forall|j: int| 0 <= j < rest ==> pre[j] == orig[j],
        pre.skip(rest).to_multiset() == kept_of(orig.skip(rest), msuf0).to_multiset(),
        pre.len() - rest == kept_of(orig.skip(rest), msuf0).len(),
        post == pre.update(idx, pre.last()).drop_last(),
        msuf.len() == orig.len() - idx,
        msuf[0] == true,
        forall|j: int| 1 <= j < rest - idx ==> !msuf[j],
        forall|j: int| rest - idx <= j < msuf.len() ==> msuf[j] == msuf0[j - (rest - idx)],
    ensures
        post.take(idx) == orig.take(idx),
        post.skip(idx).to_multiset() == kept_of(orig.skip(idx), msuf).to_multiset(),
        post.len() - idx == kept_of(orig.skip(idx), msuf).len(),
        removed_of(orig.skip(idx), msuf) == seq![orig[idx]] + removed_of(orig.skip(rest), msuf0),
{
    broadcast use group_to_multiset_ensures, group_multiset_axioms;

    let p = orig[idx];
    let mid = orig.subrange(idx + 1, rest);
    let tail = orig.skip(rest);
    let falses = msuf.subrange(1, rest - idx);
    assert(msuf =~= seq![true] + (falses + msuf0));
    lemma_false_block_prepend(mid, tail, falses, msuf0);
    lemma_decisions_prepend(p, mid + tail, true, falses + msuf0);
    assert(orig.skip(idx) =~= seq![p] + (mid + tail));
    assert(kept_of(orig.skip(idx), msuf) == mid + kept_of(tail, msuf0));
    assert(removed_of(orig.skip(idx), msuf) == seq![p] + removed_of(tail, msuf0));
    // the prefix below idx is untouched
    assert(post.take(idx) =~= orig.take(idx));
    // the kept elements survive as a multiset
    lemma_swap_remove_multiset(pre, idx);
    assert(post.to_multiset() == pre.to_multiset().remove(p));
    assert(pre =~= pre.take(idx) + pre.skip(idx));
    assert(post =~= post.take(idx) + post.skip(idx));
    lemma_multiset_commutative(pre.take(idx), pre.skip(idx));
    lemma_multiset_commutative(post.take(idx), post.skip(idx));
    assert(post.take(idx) =~= pre.take(idx));
    assert(pre.skip(idx) =~= seq![p] + (mid + pre.skip(rest)));
    lemma_multiset_commutative(mid, pre.skip(rest));
    lemma_multiset_commutative(seq![p], mid + pre.skip(rest));
    assert(seq![p] =~= Seq::<T>::empty().push(p));
    assert(seq![p].to_multiset() =~= Multiset::<T>::empty().insert(p));
    lemma_multiset_commutative(mid, kept_of(tail, msuf0));
    assert(pre[idx] == p);
    assert(pre.skip(idx)[0] == p);
    assert(pre.skip(idx).contains(p));
    assert(pre.skip(idx).to_multiset().count(p) >= 1);
    assert forall|q: T|
        post.skip(idx).to_multiset().count(q) == pre.skip(idx).to_multiset().remove(p).count(
        q,
    ) by {
        assert(post.to_multiset().count(q) == post.take(idx).to_multiset().count(q) + post.skip(
            idx,
        ).to_multiset().count(q));
        assert(pre.to_multiset().count(q) == pre.take(idx).to_multiset().count(q) + pre.skip(
            idx,
        ).to_multiset().count(q));
        assert(post.to_multiset().count(q) == pre.to_multiset().remove(p).count(q));
    }
    assert(post.skip(idx).to_multiset() =~= pre.skip(idx).to_multiset().remove(p));
    assert(post.skip(idx).to_multiset() == kept_of(orig.skip(idx), msuf).to_multiset());
}

/// Bulk removal of every element matching a predicate from a growable array.
///
/// Both methods classify every element exactly once: an element either stays
/// in the array or is handed back in the returned sequence of removed
/// elements, never both and never neither.
pub trait RangeRemovable<T>: Sized {
    /// The elements the array currently holds, in order.
    spec fn elements(&self) -> Seq<T>;

    /// Removes every element matching `predicate` by repeatedly swapping the
    /// rightmost match of the still-unprocessed prefix with the array's last
    /// element; the kept elements survive as a multiset, their relative order
    /// is not preserved. The removed elements are returned rightmost-first. A
    /// predicate that matches nothing leaves the array untouched.
    fn swap_remove_all<P: Fn(&T) -> bool>(&mut self, predicate: P) -> (removed: Vec<T>)
        requires
            forall|i: int|
                0 <= i < old(self).elements().len() ==> call_requires(
                    predicate,
                    (&old(self).elements()[i],),
                ),
        ensures
            exists|m: Seq<bool>|
                {
                    &&& decided_by(old(self).elements(), m, predicate)
                    &&& final(self).elements().to_multiset() == kept_of(
                        old(self).elements(),
                        m,
                    ).to_multiset()
                    &&& removed@ == removed_of(old(self).elements(), m).reverse()
                },
            (forall|x: T, b: bool| call_ensures(predicate, (&x,), b) ==> !b) ==> (
            final(self).elements() == old(self).elements() && removed@.len() == 0),
    ;

    /// Removes every element matching `predicate` in one forward pass,
    /// relocating each kept element backward over the gaps so that the kept
    /// elements survive in their original order; the removed elements are
    /// returned in their original order. A predicate that matches nothing
    /// leaves the array untouched.
    fn remove_all<P: Fn(&T) -> bool>(&mut self, predicate: P) -> (removed: Vec<T>)
        requires
            forall|i: int|
                0 <= i < old(self).elements().len() ==> call_requires(
                    predicate,
                    (&old(self).elements()[i],),
                ),
        ensures
            exists|m: Seq<bool>|
                {
                    &&& decided_by(old(self).elements(), m, predicate)
                    &&& final(self).elements() == kept_of(old(self).elements(), m)
                    &&& removed@ == removed_of(old(self).elements(), m)
                },
            (forall|x: T, b: bool| call_ensures(predicate, (&x,), b) ==> !b) ==> (
            final(self).elements() == old(self).elements() && removed@.len() == 0),
    ;
}

impl<T> RangeRemovable<T> for Vec<T> {
    open spec fn elements(&self) -> Seq<T> {
        self@
    }

    #[verifier::loop_isolation(false)]
    #[verifier::rlimit(50)]
    fn swap_remove_all<P: Fn(&T) -> bool>(&mut self, predicate: P) -> (removed: Vec<T>) {
        let ghost orig = self@;
        let mut removed: Vec<T> = Vec::new();
        let mut rest: usize = self.len();
        let ghost mut msuf = Seq::<bool>::empty();
        proof {
            assert(old(self).elements() == orig);
            assert forall|j: int| 0 <= j < orig.len() implies call_requires(
                predicate,
                (&orig[j],),
            ) by {
                assert(old(self).elements()[j] == orig[j]);
            }
            assert(kept_of(Seq::<T>::empty(), Seq::<bool>::empty()) == Seq::<T>::empty());
            assert(removed_of(Seq::<T>::empty(), Seq::<bool>::empty()) == Seq::<T>::empty());
            assert(Seq::<T>::empty().reverse() == Seq::<T>::empty());
            assert(orig.skip(rest as int) =~= Seq::<T>::empty());
            assert(self@.skip(rest as int) =~= Seq::<T>::empty());
            assert(self@.take(rest as int) =~= orig.take(rest as int));
        }
        loop
            invariant
                rest as int <= self@.len(),
                self@.len() <= orig.len(),
                rest + msuf.len() == orig.len(),
                self@.take(rest as int) == orig.take(rest as int),
                forall|j: int|
                    rest <= j < orig.len() ==> call_ensures(predicate, (&orig[j],), msuf[j - rest]),
                self@.skip(rest as int).to_multiset() == kept_of(
                    orig.skip(rest as int),
                    msuf,
                ).to_multiset(),
                self@.len() - rest == kept_of(orig.skip(rest as int), msuf).len(),
                removed@ == removed_of(orig.skip(rest as int), msuf).reverse(),
                removed@.len() == 0 ==> self@ == orig,
            decreases rest,
        {
            let mut i: usize = rest;
            let mut found = false;
            let mut idx: usize = 0;
            while i > 0 && !found
                invariant
                    i <= rest,
                    !found ==> forall|j: int|
                        i <= j < rest ==> call_ensures(predicate, (&orig[j],), false),
                    found ==> idx < rest && call_ensures(predicate, (&orig[idx as int],), true) && (
                    forall|j: int| idx < j < rest ==> call_ensures(predicate, (&orig[j],), false)),
                decreases i,
            {
                i -= 1;
                proof {
                    assert(self@.take(rest as int)[i as int] == orig.take(rest as int)[i as int]);
                    assert(self@[i as int] == orig[i as int]);
                    assert(call_requires(predicate, (&orig[i as int],)));
                    assert(call_requires(predicate, (&self@[i as int],)));
                }
                if predicate(&self[i]) {
                    found = true;
                    idx = i;
                }
            }
            if !found {
                proof {
                    assert(old(self).elements() == orig);
                    let prefix = orig.take(rest as int);
                    let tail = orig.skip(rest as int);
                    let falses = Seq::new(prefix.len(), |j: int| false);
                    let mfull = falses + msuf;
                    lemma_false_block_prepend(prefix, tail, falses, msuf);
                    assert(prefix + tail =~= orig);
                    assert(kept_of(orig, mfull) == prefix + kept_of(tail, msuf));
                    assert(removed_of(orig, mfull) == removed_of(tail, msuf));
                    assert(decided_by(orig, mfull, predicate)) by {
                        assert forall|j: int|
                            0 <= j < orig.len() implies call_ensures(
                            predicate,
                            (&orig[j],),
                            mfull[j],
                        ) by {
                            if j < rest {
                                assert(mfull[j] == false);
                            } else {
                                assert(mfull[j] == msuf[j - rest]);
                            }
                        }
                    }
                    assert(self@ =~= self@.take(rest as int) + self@.skip(rest as int));
                    assert(kept_of(orig, mfull) =~= prefix + kept_of(tail, msuf));
                    lemma_multiset_commutative(self@.take(rest as int), self@.skip(rest as int));
                    lemma_multiset_commutative(prefix, kept_of(tail, msuf));
                    assert(self@.to_multiset() == kept_of(orig, mfull).to_multiset());
                    if forall|x: T, b: bool| call_ensures(predicate, (&x,), b) ==> !b {
                        assert forall|j: int| 0 <= j < msuf.len() implies !msuf[j] by {
                            assert(call_ensures(predicate, (&orig[j + rest],), msuf[j]));
                        }
                        lemma_no_removal_keeps_all(tail, msuf);
                        assert(removed@.len() == 0);
                    }
                }
                return removed;
            }
            let ghost pre = self@;
            let x = self.swap_remove(idx);
            removed.push(x);
            proof {
                let p = orig[idx as int];
                let tail = orig.skip(rest as int);
                let falses = Seq::new((rest - idx - 1) as nat, |j: int| false);
                let msuf0 = msuf;
                msuf = seq![true] + (falses + msuf0);
                assert forall|j: int| 0 <= j < rest implies pre[j] == orig[j] by {
                    assert(pre.take(rest as int)[j] == orig.take(rest as int)[j]);
                }
                assert(x == p);
                // decisions cover the new suffix
                assert forall|j: int|
                    idx <= j < orig.len() implies call_ensures(
                    predicate,
                    (&orig[j],),
                    msuf[j - idx],
                ) by {
                    if j == idx {
                        assert(msuf[0] == true);
                    } else if j < rest {
                        assert(msuf[j - idx] == falses[j - idx - 1]);
                    } else {
                        assert(msuf[j - idx] == msuf0[j - rest]);
                    }
                }
                assert(msuf[0] == true);
                assert forall|j: int| 1 <= j < rest - idx implies !msuf[j] by {
                    assert(msuf[j] == falses[j - 1]);
                }
                assert forall|j: int|
                    rest - idx <= j < msuf.len() implies msuf[j] == msuf0[j - (rest - idx)] by {}
                lemma_swap_step(orig, pre, self@, idx as int, rest as int, msuf0, msuf);
                // removed elements, rightmost first
                assert((seq![p] + removed_of(tail, msuf0)).reverse() =~= removed_of(
                    tail,
                    msuf0,
                ).reverse().push(p));
                assert(removed@ == removed_of(orig.skip(idx as int), msuf).reverse());
            }
            rest = idx;
        }
    }

    #[verifier::loop_isolation(false)]
    #[verifier::rlimit(50)]
    fn remove_all<P: Fn(&T) -> bool>(&mut self, predicate: P) -> (removed: Vec<T>) {
        let ghost orig = self@;
        let mut removed: Vec<T> = Vec::new();
        let mut i: usize = 0;
        let ghost mut m = Seq::<bool>::empty();
        proof {
            assert(old(self).elements() == orig);
            assert forall|j: int| 0 <= j < orig.len() implies call_requires(
                predicate,
                (&orig[j],),
            ) by {
                assert(old(self).elements()[j] == orig[j]);
            }
            assert(kept_of(Seq::<T>::empty(), Seq::<bool>::empty()) == Seq::<T>::empty());
            assert(removed_of(Seq::<T>::empty(), Seq::<bool>::empty()) == Seq::<T>::empty());
            assert(orig.take(0) =~= Seq::<T>::empty());
            assert(orig.skip(0) =~= orig);
            assert(self@ =~= kept_of(orig.take(0), m) + orig.skip(0));
        }
        while i < self.len()
            invariant
                i + removed@.len() == m.len(),
                m.len() <= orig.len(),
                forall|j: int| 0 <= j < m.len() ==> call_ensures(predicate, (&orig[j],), m[j]),
                i as int == kept_of(orig.take(m.len() as int), m).len(),
                self@ == kept_of(orig.take(m.len() as int), m) + orig.skip(m.len() as int),
                removed@ == removed_of(orig.take(m.len() as int), m),
            decreases orig.len() - m.len(),
        {
            let ghost k = m.len() as int;
            let ghost m0 = m;
            let ghost kept0 = kept_of(orig.take(k), m0);
            proof {
                assert(self@[i as int] == orig.skip(k)[0]);
                assert(orig.skip(k)[0] == orig[k]);
                assert(call_requires(predicate, (&orig[k],)));
                assert(call_requires(predicate, (&self@[i as int],)));
                assert(orig.take(k + 1).drop_last() =~= orig.take(k));
                assert(orig.take(k + 1).last() == orig[k]);
            }
            let matched = predicate(&self[i]);
            if matched {
                let x = self.remove(i);
                removed.push(x);
                proof {
                    m = m0.push(true);
                    assert(m.drop_last() =~= m0);
                    assert(kept_of(orig.take(k + 1), m) == kept0);
                    assert(removed_of(orig.take(k + 1), m) == removed_of(orig.take(k), m0).push(
                        orig[k],
                    ));
                    assert(x == orig[k]);
                    assert(self@ =~= kept0 + orig.skip(k + 1));
                }
            } else {
                i += 1;
                proof {
                    m = m0.push(false);
                    assert(m.drop_last() =~= m0);
                    assert(kept_of(orig.take(k + 1), m) == kept0.push(orig[k]));
                    assert(removed_of(orig.take(k + 1), m) == removed_of(orig.take(k), m0));
                    assert(self@ =~= kept0.push(orig[k]) + orig.skip(k + 1));
                }
            }
        }
        proof {
            assert(orig.skip(m.len() as int).len() == 0);
            assert(m.len() == orig.len());
            assert(orig.take(m.len() as int) =~= orig);
            assert(self@ =~= kept_of(orig, m));
            assert(old(self).elements() == orig);
            assert(decided_by(old(self).elements(), m, predicate));
            assert(self@ == kept_of(old(self).elements(), m));
            assert(removed@ == removed_of(old(self).elements(), m));
            if forall|x: T, b: bool| call_ensures(predicate, (&x,), b) ==> !b {
                assert forall|j: int| 0 <= j < m.len() implies !m[j] by {
                    assert(call_ensures(predicate, (&orig[j],), m[j]));
                }
                lemma_no_removal_keeps_all(orig, m);
            }
        }
        removed
    }
}

proof fn lemma_swap_remove_multiset<T>(s: Seq<T>, i: int)
    requires
        0 <= i < s.len(),
    ensures
        s.update(i, s.last()).drop_last().to_multiset() == s.to_multiset().remove(s[i]),
{
    broadcast use group_to_multiset_ensures, group_multiset_axioms;

    let t = s.update(i, s.last());
    assert(t.last() == s.last());
    assert(t.drop_last() =~= t.remove(t.len() - 1));
    assert(t.remove(t.len() - 1).to_multiset() =~= t.to_multiset().remove(t.last()));
    assert(t.to_multiset() =~= s.to_multiset().remove(s[i]).insert(s.last()));
    assert(s.to_multiset().remove(s[i]).insert(s.last()).remove(s.last()) =~= s.to_multiset()
        .remove(s[i]));
}

} // verus!
