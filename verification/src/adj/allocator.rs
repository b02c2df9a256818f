//! The dense edge-index allocator.

use vstd::prelude::*;

use crate::error::GraphError;
use crate::ids::{EdgeId, MAX_INDEX};

verus! {

/// The edge index space as a value: how far it reaches, and which of its
/// identifiers are free, in the order they were released.
#[verifier::ext_equal]
pub struct IdSpace {
    /// The size of the index space.
    pub bound: nat,
    /// The free list, oldest release first.
    pub free: Seq<EdgeId>,
}

impl IdSpace {
    /// The free list names distinct identifiers of the space, and the space
    /// fits the identifier width.
    pub open spec fn wf(self) -> bool {
        &&& self.bound <= MAX_INDEX + 1
        &&& self.free.no_duplicates()
        &&& forall|k: int| 0 <= k < self.free.len() ==> (#[trigger] self.free[k])@ < self.bound
    }

    /// Whether `id` was issued and not released since.
    pub open spec fn is_live(self, id: EdgeId) -> bool {
        id@ < self.bound && !self.free.contains(id)
    }

    /// The number of live identifiers.
    pub open spec fn live(self) -> int {
        self.bound - self.free.len()
    }

    /// Whether an identifier is left to issue.
    pub open spec fn has_next(self) -> bool {
        self.free.len() > 0 || self.bound <= MAX_INDEX
    }

    /// The identifier issued next.
    pub open spec fn next_id(self) -> EdgeId {
        if self.free.len() > 0 {
            self.free.last()
        } else {
            EdgeId::at(self.bound)
        }
    }

    /// The space once [`next_id`](Self::next_id) has been issued.
    pub open spec fn issue(self) -> IdSpace {
        if self.free.len() > 0 {
            IdSpace { bound: self.bound, free: self.free.drop_last() }
        } else {
            IdSpace { bound: self.bound + 1, free: self.free }
        }
    }

    /// The space once `id` has been released.
    pub open spec fn give(self, id: EdgeId) -> IdSpace {
        IdSpace { bound: self.bound, free: self.free.push(id) }
    }

    /// The space once `ids` have been released in order.
    pub open spec fn give_all(self, ids: Seq<EdgeId>) -> IdSpace {
        IdSpace { bound: self.bound, free: self.free + ids }
    }

    /// Which indices of the space are free.
    pub open spec fn freed(self) -> Seq<bool> {
        crate::adj::tally::named(self.free, self.bound)
    }

    /// The index that compaction moves index `i` to: live indices go onto
    /// `0..live` and free ones after them, both in order.
    pub open spec fn compacted(self, i: int) -> int {
        let dead_below = crate::adj::tally::marked(self.freed().take(i));
        if self.freed()[i] {
            self.live() + dead_below
        } else {
            i - dead_below
        }
    }
}

/// Owner of the edge index space.
///
/// [`live`](Self::live) is derived from the two mutators
/// [`allocate`](Self::allocate) and [`release`](Self::release), never accumulated by
/// caller arithmetic.
#[derive(Debug)]
pub struct EdgeIds {
    pub(crate) next: usize,
    pub(crate) free: Vec<EdgeId>,
    pub(crate) live: usize,
}

impl View for EdgeIds {
    type V = IdSpace;

    open(crate) spec fn view(&self) -> IdSpace {
        IdSpace { bound: self.next as nat, free: self.free@ }
    }
}

impl EdgeIds {
    /// The count agrees with the space, and the space is well formed.
    pub open(crate) spec fn wf(self) -> bool {
        &&& self@.wf()
        &&& self.live == self@.live()
    }

    /// An empty allocator.
    #[inline]
    pub fn new() -> (r: Self)
        ensures
            r.wf(),
            r@ == (IdSpace { bound: 0, free: Seq::empty() }),
    {
        EdgeIds { next: 0, free: Vec::new(), live: 0 }
    }

    /// Take an index from the back of the free list, or extend the range.
    ///
    /// Exhaustion is an error, not a wrap, and leaves the space as it was.
    pub fn allocate(&mut self) -> (r: Result<EdgeId, GraphError>)
        requires
            old(self).wf(),
        ensures
            final(self).wf(),
            old(self)@.has_next() ==> r == Ok::<EdgeId, GraphError>(old(self)@.next_id()),
            old(self)@.has_next() ==> final(self)@ == old(self)@.issue(),
            !old(self)@.has_next() ==> r == Err::<EdgeId, GraphError>(
                GraphError::EdgeIdSpaceExhausted { max: MAX_INDEX },
            ),
            !old(self)@.has_next() ==> final(self)@ == old(self)@,
    {
        broadcast use crate::ids::id_is_its_index;
        broadcast use crate::ids::id_at;

        proof {
            issuing_keeps_the_space(self@);
            if self@.has_next() {
                self@.lemma_live_in_range();
                self@.issue().lemma_live_in_range();
            }
        }
        let id = match self.free.pop() {
            Some(id) => id,
            None => {
                match EdgeId::new(self.next) {
                    Some(id) => {
                        self.next = self.next + 1;
                        id
                    },
                    None => {
                        return Err(GraphError::EdgeIdSpaceExhausted { max: MAX_INDEX });
                    },
                }
            },
        };
        assert(self@ =~= old(self)@.issue());
        self.live = self.live + 1;
        Ok(id)
    }

    /// Return an index to the free list. `id` must be live.
    pub fn release(&mut self, id: EdgeId)
        requires
            old(self).wf(),
            old(self)@.is_live(id),
        ensures
            final(self).wf(),
            final(self)@ == old(self)@.give(id),
    {
        proof {
            releasing_keeps_the_space(self@, id);
            self@.give(id).lemma_live_in_range();
        }
        self.free.push(id);
        assert(self@ =~= old(self)@.give(id));
        self.live = self.live - 1;
    }

    /// Number of live edges.
    #[inline]
    pub fn live(&self) -> (r: usize)
        requires
            self.wf(),
        ensures
            r == self@.live(),
    {
        self.live
    }

    /// Size of the index space. It is what a property map must be sized to, not
    /// [`live`](Self::live): the space is sparse after removals.
    #[inline]
    pub fn bound(&self) -> (r: usize)
        ensures
            r == self@.bound,
    {
        self.next
    }

    /// Largest representable index.
    #[inline]
    pub fn max_index() -> (r: usize)
        ensures
            r == MAX_INDEX,
    {
        MAX_INDEX
    }

    /// Compact the index space, remapping live edges onto `0..live`.
    ///
    /// The result is indexed by the old index and has the old bound's length:
    /// element `i` is the new identifier of the edge that had index `i`. Free
    /// indices are numbered after the live ones, so the result is a permutation
    /// of the whole old range and a property map is rewritten by permuting in
    /// place and truncating to the new bound.
    pub fn compact(&mut self) -> (r: Vec<EdgeId>)
        requires
            old(self).wf(),
        ensures
            final(self).wf(),
            final(self)@ == (IdSpace { bound: old(self)@.live() as nat, free: Seq::empty() }),
            r@.len() == old(self)@.bound,
            forall|i: int|
                0 <= i < r@.len() ==> (#[trigger] r@[i])@ == old(self)@.compacted(i),
    {
        let ghost space = self@;
        let bound = self.next;
        let mut freed: Vec<bool> = vec![false; bound];
        let mut k: usize = 0;
        while k < self.free.len()
            invariant
                k <= self.free@.len(),
                freed@.len() == bound,
                self@ == space,
                space.wf(),
                space.bound == bound,
                freed@ =~= crate::adj::tally::named(space.free.take(k as int), bound as nat),
            decreases self.free@.len() - k,
        {
            let id = self.free[k];
            let ghost before = freed@;
            freed.set(id.index(), true);
            proof {
                let more = space.free.take(k + 1);
                let less = space.free.take(k as int);
                assert forall|i: int| 0 <= i < bound implies #[trigger] freed@[i]
                    == crate::adj::tally::named(more, bound as nat)[i] by {
                    if freed@[i] {
                        if i == id@ {
                            assert(more[k as int]@ == i);
                        } else {
                            let j = choose|j: int| 0 <= j < less.len() && (#[trigger] less[j])@ == i;
                            assert(more[j]@ == i);
                        }
                    }
                    if crate::adj::tally::named(more, bound as nat)[i] {
                        let j = choose|j: int| 0 <= j < more.len() && (#[trigger] more[j])@ == i;
                        if j != k {
                            assert(less[j]@ == i);
                        }
                    }
                }
            }
            k = k + 1;
        }
        assert(space.free.take(k as int) =~= space.free);
        assert(freed@ =~= space.freed());
        proof {
            crate::adj::tally::lemma_named_count(space.free, bound as nat);
        }

        let mut perm: Vec<EdgeId> = Vec::with_capacity(bound);
        let mut live: usize = 0;
        let mut dead: usize = self.live;
        let mut i: usize = 0;
        while i < bound
            invariant
                i <= bound,
                freed@.len() == bound,
                freed@ == space.freed(),
                space.wf(),
                self.wf(),
                self@ == space,
                space.bound == bound,
                crate::adj::tally::marked(freed@) == space.free.len(),
                perm@.len() == i,
                live == i - crate::adj::tally::marked(freed@.take(i as int)),
                dead == space.live() + crate::adj::tally::marked(freed@.take(i as int)),
                forall|j: int| 0 <= j < i ==> (#[trigger] perm@[j])@ == space.compacted(j),
            decreases bound - i,
        {
            proof {
                crate::adj::tally::lemma_marked_step(freed@, i as int);
                crate::adj::tally::lemma_marked_prefix(freed@, i as int + 1, bound as int);
                assert(freed@.take(bound as int) =~= freed@);
            }
            if freed[i] {
                perm.push(EdgeId::from_index(dead));
                dead = dead + 1;
            } else {
                perm.push(EdgeId::from_index(live));
                live = live + 1;
            }
            i = i + 1;
        }
        self.next = self.live;
        self.free.clear();
        assert(self@.free =~= Seq::empty());
        perm
    }
}

impl Default for EdgeIds {
    fn default() -> (r: Self)
        ensures
            r.wf(),
            r@ == (IdSpace { bound: 0, free: Seq::empty() }),
    {
        EdgeIds::new()
    }
}

impl Clone for EdgeIds {
    fn clone(&self) -> (r: Self)
        ensures
            r@ == self@,
            self.wf() ==> r.wf(),
    {
        let free = self.free.clone();
        assert(free@ =~= self.free@);
        EdgeIds { next: self.next, free, live: self.live }
    }
}

impl IdSpace {
    /// There are never more free identifiers than the space holds.
    pub proof fn lemma_live_in_range(self)
        requires
            self.wf(),
        ensures
            0 <= self.live() <= self.bound,
    {
        crate::adj::tally::lemma_named_count(self.free, self.bound);
    }
}

/// Issuing an identifier keeps the space well formed, hands out one that was
/// not live, makes it live, changes no other, and adds one to the count.
pub proof fn issuing_keeps_the_space(s: IdSpace)
    requires
        s.wf(),
    ensures
        s.has_next() ==> {
            &&& s.issue().wf()
            &&& !s.is_live(s.next_id())
            &&& s.issue().is_live(s.next_id())
            &&& s.issue().live() == s.live() + 1
            &&& forall|e: EdgeId|
                e != s.next_id() ==> #[trigger] s.issue().is_live(e) == s.is_live(e)
        },
{
    broadcast use crate::ids::id_is_its_index;
    broadcast use crate::ids::id_at;

    if s.has_next() {
        let n = s.next_id();
        let t = s.issue();
        if s.free.len() > 0 {
            assert(s.free[s.free.len() - 1] == n);
            assert(s.free.contains(n));
            assert(!t.free.contains(n)) by {
                if t.free.contains(n) {
                    let k = choose|k: int| 0 <= k < t.free.len() && t.free[k] == n;
                    assert(s.free[k] == n);
                }
            }
            assert forall|e: EdgeId| e != n implies #[trigger] t.is_live(e) == s.is_live(e) by {
                if s.free.contains(e) {
                    let k = choose|k: int| 0 <= k < s.free.len() && s.free[k] == e;
                    assert(t.free[k] == e);
                }
                if t.free.contains(e) {
                    let k = choose|k: int| 0 <= k < t.free.len() && t.free[k] == e;
                    assert(s.free[k] == e);
                }
            }
        } else {
            assert forall|e: EdgeId| e != n implies #[trigger] t.is_live(e) == s.is_live(e) by {
                assert(e@ != n@);
            }
        }
    }
}

/// Releasing a live identifier keeps the space well formed, makes that one free
/// and no other, and takes one from the count.
pub proof fn releasing_keeps_the_space(s: IdSpace, id: EdgeId)
    requires
        s.wf(),
        s.is_live(id),
    ensures
        s.give(id).wf(),
        !s.give(id).is_live(id),
        s.give(id).live() == s.live() - 1,
        forall|e: EdgeId| e != id ==> #[trigger] s.give(id).is_live(e) == s.is_live(e),
{
    let t = s.give(id);
    assert(t.free[s.free.len() as int] == id);
    assert forall|e: EdgeId| e != id implies #[trigger] t.is_live(e) == s.is_live(e) by {
        if s.free.contains(e) {
            let k = choose|k: int| 0 <= k < s.free.len() && s.free[k] == e;
            assert(t.free[k] == e);
        }
        if t.free.contains(e) {
            let k = choose|k: int| 0 <= k < t.free.len() && t.free[k] == e;
            assert(s.free[k] == e);
        }
    }
}

/// An identifier released last is the one issued next, and the space is then
/// what it was before the release.
pub proof fn issue_undoes_release(s: IdSpace, id: EdgeId)
    ensures
        s.give(id).next_id() == id,
        s.give(id).issue() == s,
{
    assert(s.give(id).free.drop_last() =~= s.free);
}

/// Compaction is a permutation of the old range: it sends live indices onto
/// `0..live` and free ones onto `live..bound`, each in order, and no two
/// indices to one.
pub proof fn compaction_is_a_permutation(s: IdSpace)
    requires
        s.wf(),
    ensures
        forall|i: int|
            0 <= i < s.bound && !s.freed()[i] ==> 0 <= #[trigger] s.compacted(i) < s.live(),
        forall|i: int|
            0 <= i < s.bound && s.freed()[i] ==> s.live() <= #[trigger] s.compacted(i) < s.bound,
        forall|i: int, j: int|
            0 <= i < j < s.bound && s.freed()[i] == s.freed()[j] ==> #[trigger] s.compacted(i)
                < #[trigger] s.compacted(j),
        forall|i: int, j: int|
            0 <= i < j < s.bound ==> #[trigger] s.compacted(i) != #[trigger] s.compacted(j),
{
    let f = s.freed();
    crate::adj::tally::lemma_named_count(s.free, s.bound);
    assert(f.take(s.bound as int) =~= f);
    assert forall|i: int| 0 <= i < s.bound implies (if f[i] {
        s.live() <= #[trigger] s.compacted(i) < s.bound
    } else {
        0 <= s.compacted(i) < s.live()
    }) by {
        crate::adj::tally::lemma_marked_step(f, i);
        crate::adj::tally::lemma_marked_prefix(f, i + 1, s.bound as int);
        crate::adj::tally::lemma_marked_at_most_len(f.take(i));
    }
    assert forall|i: int, j: int| 0 <= i < j < s.bound && f[i] == f[j] implies #[trigger] s.compacted(i)
        < #[trigger] s.compacted(j) by {
        crate::adj::tally::lemma_marked_step(f, i);
        crate::adj::tally::lemma_marked_prefix(f, i + 1, j);
    }
}

} // verus!
