//! Walks: the iterators of this crate, with what they yield stated.
//!
//! A walk is finite and fused: [`Walk::rest`] is what it still yields, and once
//! that is empty it stays empty.

use vstd::prelude::*;

verus! {

/// Whether `accs` are the values that folding `items` with `f` goes through,
/// from `init` on.
pub open spec fn fold_chain<A, B, F: FnMut(B, A) -> B>(
    f: F,
    items: Seq<A>,
    init: B,
    accs: Seq<B>,
) -> bool {
    &&& accs.len() == items.len() + 1
    &&& accs[0] == init
    &&& forall|i: int|
        0 <= i < items.len() ==> call_ensures(f, (accs[i], #[trigger] items[i]), accs[i + 1])
}

/// Whether `f` can be called wherever folding `items` from `init` can come to.
pub open spec fn fold_ready<A, B, F: FnMut(B, A) -> B>(f: F, items: Seq<A>, init: B) -> bool {
    forall|k: int, accs: Seq<B>|
        0 <= k < items.len() && #[trigger] fold_chain(f, items.take(k), init, accs)
            ==> call_requires(f, (accs[k], items[k]))
}

/// Whether a function gives one result for each pair of arguments.
pub open spec fn one_answer<A, B, F: FnMut(B, A) -> B>(f: F) -> bool {
    forall|b: B, a: A, x: B, y: B| #[trigger]
        call_ensures(f, (b, a), x) && #[trigger] call_ensures(f, (b, a), y) ==> x == y
}

/// Folding with a function of one answer has one outcome.
pub proof fn a_fold_has_one_outcome<A, B, F: FnMut(B, A) -> B>(
    f: F,
    items: Seq<A>,
    init: B,
    one: Seq<B>,
    other: Seq<B>,
)
    requires
        one_answer(f),
        fold_chain(f, items, init, one),
        fold_chain(f, items, init, other),
    ensures
        one == other,
{
    assert forall|k: int| 0 <= k < one.len() implies one[k] == other[k] by {
        lemma_chains_meet(f, items, init, one, other, k);
    }
    assert(one =~= other);
}

proof fn lemma_chains_meet<A, B, F: FnMut(B, A) -> B>(
    f: F,
    items: Seq<A>,
    init: B,
    one: Seq<B>,
    other: Seq<B>,
    k: int,
)
    requires
        one_answer(f),
        fold_chain(f, items, init, one),
        fold_chain(f, items, init, other),
        0 <= k < one.len(),
    ensures
        one[k] == other[k],
    decreases k,
{
    if k > 0 {
        lemma_chains_meet(f, items, init, one, other, k - 1);
        assert(call_ensures(f, (one[k - 1], items[k - 1]), one[k - 1 + 1]));
        assert(call_ensures(f, (other[k - 1], items[k - 1]), other[k - 1 + 1]));
    }
}

/// Folding goes through the items from the first to the last: over none it
/// stays at the start, and one item more is one call more, of what the fold has
/// come to and that item.
pub proof fn a_fold_takes_the_items_in_order<A, B, F: FnMut(B, A) -> B>(
    f: F,
    items: Seq<A>,
    init: B,
    accs: Seq<B>,
    item: A,
    acc: B,
)
    ensures
        fold_chain(f, Seq::<A>::empty(), init, accs) <==> accs == seq![init],
        accs.len() == items.len() + 1 ==> (fold_chain(f, items.push(item), init, accs.push(acc))
            <==> fold_chain(f, items, init, accs) && call_ensures(f, (accs.last(), item), acc)),
{
    if fold_chain(f, Seq::<A>::empty(), init, accs) {
        assert(accs =~= seq![init]);
    }
    let more = items.push(item);
    let on = accs.push(acc);
    if accs.len() == items.len() + 1 {
        assert(more[items.len() as int] == item);
        if fold_chain(f, more, init, on) {
            assert(call_ensures(f, (on[items.len() as int], more[items.len() as int]), acc));
            assert forall|i: int| 0 <= i < items.len() implies call_ensures(
                f,
                (accs[i], #[trigger] items[i]),
                accs[i + 1],
            ) by {
                assert(call_ensures(f, (on[i], more[i]), on[i + 1]));
            }
        }
        if fold_chain(f, items, init, accs) && call_ensures(f, (accs.last(), item), acc) {
            assert forall|i: int| 0 <= i < more.len() implies call_ensures(
                f,
                (on[i], #[trigger] more[i]),
                on[i + 1],
            ) by {
                if i < items.len() {
                    assert(more[i] == items[i]);
                }
            }
        }
    }
}

/// A walk over a finite run of items.
pub trait Walk: Sized {
    /// What the walk yields.
    type Item;

    /// What must hold for the walk to go on.
    spec fn wf(&self) -> bool;

    /// What the walk has not yielded yet, in order.
    spec fn rest(&self) -> Seq<Self::Item>;

    /// The next item, or `None` once there is none left.
    fn next(&mut self) -> (r: Option<Self::Item>)
        requires
            old(self).wf(),
        ensures
            final(self).wf(),
            old(self).rest().len() == 0 ==> r is None && final(self).rest() == old(self).rest(),
            old(self).rest().len() > 0 ==> r == Some(old(self).rest()[0]) && final(self).rest()
                == old(self).rest().drop_first(),
    ;

    /// The bounds that [`size_hint`](Self::size_hint) promises.
    spec fn hint(&self) -> (nat, Option<nat>);

    /// Bounds on the number of items left: at least the first, and at most the
    /// second where there is one.
    fn size_hint(&self) -> (r: (usize, Option<usize>))
        requires
            self.wf(),
        ensures
            r.0 == self.hint().0,
            r.1 is Some <==> self.hint().1 is Some,
            r.1 matches Some(most) ==> most == self.hint().1->0,
            r.0 <= self.rest().len(),
            r.1 matches Some(most) ==> self.rest().len() <= most,
    ;

    /// Fold the items that are left, the first one first.
    fn fold<B, F: FnMut(B, Self::Item) -> B>(self, init: B, f: F) -> (r: B)
        requires
            self.wf(),
            fold_ready(f, self.rest(), init),
        ensures
            exists|accs: Seq<B>| #[trigger]
                fold_chain(f, self.rest(), init, accs) && r == accs.last(),
    {
        let ghost all = self.rest();
        let mut walk = self;
        let ghost f0 = f;
        let mut step = f;
        let mut acc = init;
        let ghost mut accs: Seq<B> = seq![init];
        let ghost mut done: int = 0;
        assert(all.take(0) =~= Seq::empty());
        assert(all.skip(0) =~= all);
        loop
            invariant
                walk.wf(),
                step == f0,
                f0 == f,
                all == self.rest(),
                fold_ready(f0, all, init),
                0 <= done <= all.len(),
                walk.rest() == all.skip(done),
                fold_chain(f0, all.take(done), init, accs),
                acc == accs.last(),
            decreases all.len() - done,
        {
            match walk.next() {
                Some(item) => {
                    let ghost was = accs;
                    assert(item == all[done]);
                    assert(accs[done] == acc);
                    acc = step(acc, item);
                    proof {
                        accs = accs.push(acc);
                        lemma_chain_push(f0, all, init, was, done, acc);
                        assert(all.skip(done).drop_first() =~= all.skip(done + 1));
                        done = done + 1;
                    }
                },
                None => {
                    assert(all.take(done) =~= all);
                    return acc;
                },
            }
        }
    }

    /// How many items are left.
    fn count(self) -> (r: usize)
        requires
            self.wf(),
            self.rest().len() <= usize::MAX,
        ensures
            r == self.rest().len(),
    {
        let ghost total = self.rest().len();
        let mut walk = self;
        let mut n: usize = 0;
        loop
            invariant
                walk.wf(),
                n + walk.rest().len() == total,
                total == self.rest().len(),
                total <= usize::MAX,
            decreases walk.rest().len(),
        {
            match walk.next() {
                Some(_) => {
                    n = n + 1;
                },
                None => {
                    return n;
                },
            }
        }
    }

    /// The items that are left, in order.
    fn collect(self) -> (r: Vec<Self::Item>)
        requires
            self.wf(),
        ensures
            r@ == self.rest(),
    {
        let ghost all = self.rest();
        let mut walk = self;
        let mut v: Vec<Self::Item> = Vec::new();
        assert(v@ + walk.rest() =~= all);
        loop
            invariant
                walk.wf(),
                v@ + walk.rest() == all,
                all == self.rest(),
            decreases walk.rest().len(),
        {
            let ghost before = walk.rest();
            let ghost had = v@;
            match walk.next() {
                Some(item) => {
                    v.push(item);
                    assert(had + before =~= v@ + walk.rest());
                },
                None => {
                    assert(v@ =~= all);
                    return v;
                },
            }
        }
    }
}

/// One step more of a fold.
pub proof fn lemma_chain_push<A, B, F: FnMut(B, A) -> B>(
    f: F,
    items: Seq<A>,
    init: B,
    accs: Seq<B>,
    k: int,
    acc: B,
)
    requires
        0 <= k < items.len(),
        fold_chain(f, items.take(k), init, accs),
        call_ensures(f, (accs[k], items[k]), acc),
    ensures
        fold_chain(f, items.take(k + 1), init, accs.push(acc)),
{
    let more = accs.push(acc);
    assert forall|i: int| 0 <= i < items.take(k + 1).len() implies call_ensures(
        f,
        (more[i], #[trigger] items.take(k + 1)[i]),
        more[i + 1],
    ) by {
        if i < k {
            assert(items.take(k)[i] == items[i]);
        }
    }
}

/// A walk that knows how many items it has left.
pub trait ExactWalk: Walk {
    /// How many items are left.
    fn len(&self) -> (r: usize)
        requires
            self.wf(),
        ensures
            r == self.rest().len(),
    ;
}

/// A walk that can also be taken from its far end.
pub trait BackWalk: Walk {
    /// The last item, or `None` once there is none left.
    fn next_back(&mut self) -> (r: Option<Self::Item>)
        requires
            old(self).wf(),
        ensures
            final(self).wf(),
            old(self).rest().len() == 0 ==> r is None && final(self).rest() == old(self).rest(),
            old(self).rest().len() > 0 ==> r == Some(old(self).rest().last()) && final(self).rest()
                == old(self).rest().drop_last(),
    ;
}

} // verus!
