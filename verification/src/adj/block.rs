//! One vertex's adjacency block, and the move notifications it emits.

use vstd::prelude::*;

use super::entry::AdjEntry;
use crate::ids::{EdgeId, Raw};

verus! {

/// Which half of a block an entry lives in.
#[derive(Clone, Copy, PartialEq, Eq, Structural, Debug)]
pub enum End {
    /// The out-half: this vertex is the edge's source.
    Out,
    /// The in-half: this vertex is the edge's target.
    In,
}

/// Notification that one entry changed position.
///
/// Returned by value from every splice, so that the derived indexes are
/// updated after the block, never through it.
#[derive(Clone, Copy, PartialEq, Eq, Debug)]
pub struct Moved {
    /// The edge whose entry moved.
    pub id: EdgeId,
    /// Which half it is in *after* the move.
    pub end: End,
    /// Its new position within the block.
    pub to: Raw,
}

/// A block as a value: the out-entries and the in-entries.
///
/// Every position indexes the **whole block**, not the half: out-entry `i` is
/// at position `i` and in-entry `j` at position `out.len() + j`.
#[verifier::ext_equal]
pub struct BlockView {
    /// The out-half.
    pub out: Seq<AdjEntry>,
    /// The in-half.
    pub inc: Seq<AdjEntry>,
}

impl BlockView {
    /// Neither half holds anything.
    pub open spec fn empty() -> BlockView {
        BlockView { out: Seq::empty(), inc: Seq::empty() }
    }

    /// The number of entries.
    pub open spec fn len(self) -> nat {
        self.out.len() + self.inc.len()
    }

    /// All entries, out-half first.
    pub open spec fn all(self) -> Seq<AdjEntry> {
        self.out + self.inc
    }

    /// Whether position `pos` lies in half `end`.
    pub open spec fn holds(self, pos: int, end: End) -> bool {
        match end {
            End::Out => 0 <= pos < self.out.len(),
            End::In => self.out.len() <= pos < self.len(),
        }
    }

    /// The entry at `pos`, if that position lies in half `end`.
    pub open spec fn entry(self, pos: int, end: End) -> Option<AdjEntry> {
        if self.holds(pos, end) {
            Some(self.all()[pos])
        } else {
            None
        }
    }

    /// Append an out-entry. The in-half's first entry goes to its back, so
    /// that nothing else moves.
    pub open spec fn with_out(self, e: AdjEntry) -> BlockView {
        BlockView {
            out: self.out.push(e),
            inc: if self.inc.len() > 0 {
                self.inc.drop_first().push(self.inc[0])
            } else {
                self.inc
            },
        }
    }

    /// Append an in-entry.
    pub open spec fn with_in(self, e: AdjEntry) -> BlockView {
        BlockView { out: self.out, inc: self.inc.push(e) }
    }

    /// Remove out-entry `i`: the out-half's last entry fills the hole, and the
    /// in-half's last entry goes to its front.
    pub open spec fn without_out(self, i: int) -> BlockView {
        BlockView {
            out: self.out.update(i, self.out.last()).drop_last(),
            inc: if self.inc.len() > 0 {
                seq![self.inc.last()] + self.inc.drop_last()
            } else {
                self.inc
            },
        }
    }

    /// Remove in-entry `j`: the in-half's last entry fills the hole.
    pub open spec fn without_in(self, j: int) -> BlockView {
        BlockView { out: self.out, inc: self.inc.update(j, self.inc.last()).drop_last() }
    }

    /// Remove the entry at position `pos` of half `end`.
    pub open spec fn without(self, pos: int, end: End) -> BlockView {
        match end {
            End::Out => self.without_out(pos),
            End::In => self.without_in(pos - self.out.len()),
        }
    }

    /// The relocation that appending an out-entry causes.
    pub open spec fn moved_by_insert(self) -> Option<Moved> {
        if self.inc.len() > 0 {
            Some(Moved { id: self.inc[0].idx, end: End::In, to: self.len() as Raw })
        } else {
            None
        }
    }

    /// The relocations that removing the entry at `pos` of half `end` causes:
    /// the entry that fills the hole, and the in-entry promoted across the
    /// boundary.
    pub open spec fn moved_by_remove(self, pos: int, end: End) -> (Option<Moved>, Option<Moved>) {
        match end {
            End::Out => (
                if pos != self.out.len() - 1 {
                    Some(Moved { id: self.out.last().idx, end: End::Out, to: pos as Raw })
                } else {
                    None
                },
                if self.inc.len() > 0 {
                    Some(
                        Moved {
                            id: self.inc.last().idx,
                            end: End::In,
                            to: (self.out.len() - 1) as Raw,
                        },
                    )
                } else {
                    None
                },
            ),
            End::In => (
                if pos != self.len() - 1 {
                    Some(Moved { id: self.inc.last().idx, end: End::In, to: pos as Raw })
                } else {
                    None
                },
                None,
            ),
        }
    }

    /// Whether a notification describes the block: the entry it names is where
    /// it says, in the half it claims.
    pub open spec fn describes(self, m: Option<Moved>) -> bool {
        m matches Some(m) ==> (self.entry(m.to as int, m.end) matches Some(e) && e.idx == m.id)
    }
}

/// A vertex's adjacency: out-entries then in-entries, in one allocation.
#[derive(Debug)]
pub struct Block {
    pub(crate) entries: Vec<AdjEntry>,
    pub(crate) out_len: Raw,
}

impl View for Block {
    type V = BlockView;

    open(crate) spec fn view(&self) -> BlockView {
        BlockView {
            out: self.entries@.take(self.out_len as int),
            inc: self.entries@.skip(self.out_len as int),
        }
    }
}

impl Block {
    /// The out-half ends within the block.
    pub open(crate) spec fn wf(self) -> bool {
        self.out_len <= self.entries@.len()
    }

    /// The two halves make up the allocation.
    pub(crate) proof fn lemma_halves(self)
        requires
            self.wf(),
        ensures
            self@.all() == self.entries@,
            self@.out.len() == self.out_len,
            self@.len() == self.entries@.len(),
    {
        assert(self@.all() =~= self.entries@);
    }

    /// An empty block.
    #[inline]
    pub fn new() -> (r: Self)
        ensures
            r.wf(),
            r@ == BlockView::empty(),
    {
        let r = Block { entries: Vec::new(), out_len: 0 };
        assert(r@ =~= BlockView::empty());
        r
    }

    /// Out-entries.
    #[inline]
    pub fn out(&self) -> (r: &[AdjEntry])
        requires
            self.wf(),
        ensures
            r@ == self@.out,
    {
        let n: usize = self.out_len as usize;
        vstd::slice::slice_subrange(self.entries.as_slice(), 0, n)
    }

    /// In-entries.
    #[inline]
    pub fn inc(&self) -> (r: &[AdjEntry])
        requires
            self.wf(),
        ensures
            r@ == self@.inc,
    {
        let n: usize = self.out_len as usize;
        vstd::slice::slice_subrange(self.entries.as_slice(), n, self.entries.len())
    }

    /// All entries, out-half first.
    #[inline]
    pub fn all(&self) -> (r: &[AdjEntry])
        requires
            self.wf(),
        ensures
            r@ == self@.all(),
    {
        proof {
            self.lemma_halves();
        }
        self.entries.as_slice()
    }

    /// The number of out-entries, in constant time.
    #[inline]
    pub fn out_degree(&self) -> (r: usize)
        requires
            self.wf(),
        ensures
            r == self@.out.len(),
    {
        self.out_len as usize
    }

    /// The number of in-entries, in constant time.
    #[inline]
    pub fn in_degree(&self) -> (r: usize)
        requires
            self.wf(),
        ensures
            r == self@.inc.len(),
    {
        self.entries.len() - self.out_len as usize
    }

    /// The number of entries, in constant time.
    #[inline]
    pub fn degree(&self) -> (r: usize)
        requires
            self.wf(),
        ensures
            r == self@.len(),
    {
        self.entries.len()
    }

    /// The entry at `pos` within `end`'s half, if any.
    ///
    /// A position that is in range but lies in the *other* half is `None`, not
    /// the entry found there.
    #[inline]
    pub fn get(&self, pos: Raw, end: End) -> (r: Option<AdjEntry>)
        requires
            self.wf(),
        ensures
            r == self@.entry(pos as int, end),
    {
        proof {
            self.lemma_halves();
        }
        let i: usize = pos as usize;
        let split: usize = self.out_len as usize;
        let in_half = match end {
            End::Out => i < split,
            End::In => i >= split,
        };
        if in_half && i < self.entries.len() {
            Some(self.entries[i])
        } else {
            None
        }
    }

    /// Append an out-entry in constant time, preserving the halves: when the
    /// in-half is non-empty, its *first* element goes to the back and the
    /// vacated slot is overwritten.
    ///
    /// Returns the new entry's position, and the relocation of the displaced
    /// in-entry when there was one. Positions must fit [`Raw`].
    pub fn insert_out(&mut self, e: AdjEntry) -> (r: (Raw, Option<Moved>))
        requires
            old(self).wf(),
            old(self)@.out.len() < Raw::MAX,
            old(self)@.len() <= Raw::MAX,
        ensures
            final(self).wf(),
            final(self)@ == old(self)@.with_out(e),
            r.0 == old(self)@.out.len(),
            r.1 == old(self)@.moved_by_insert(),
    {
        let at: usize = self.out_len as usize;
        let back: Raw = self.entries.len() as Raw;
        let moved = if at < self.entries.len() {
            let displaced = self.entries[at];
            self.entries.push(displaced);
            self.entries.set(at, e);
            Some(Moved { id: displaced.idx, end: End::In, to: back })
        } else {
            self.entries.push(e);
            None
        };
        let pos: Raw = self.out_len;
        self.out_len = self.out_len + 1;
        assert(self@.out =~= old(self)@.with_out(e).out);
        assert(self@.inc =~= old(self)@.with_out(e).inc);
        (pos, moved)
    }

    /// Append an in-entry in constant time. Positions must fit [`Raw`].
    pub fn insert_in(&mut self, e: AdjEntry) -> (r: Raw)
        requires
            old(self).wf(),
            old(self)@.len() <= Raw::MAX,
        ensures
            final(self).wf(),
            final(self)@ == old(self)@.with_in(e),
            r == old(self)@.len(),
    {
        let at: Raw = self.entries.len() as Raw;
        self.entries.push(e);
        assert(self@.out =~= old(self)@.out);
        assert(self@.inc =~= old(self)@.inc.push(e));
        at
    }

    /// Remove the entry at `pos` in `end`'s half, swapping the back of that
    /// half into the hole.
    ///
    /// Returns up to two notifications: the entry swapped into the hole, and
    /// (when removing from the out-half) the in-entry promoted across the
    /// boundary. An entry that was already the back of its half moves nothing
    /// into the hole, and none is reported.
    pub fn remove_at(&mut self, pos: Raw, end: End) -> (r: [Option<Moved>; 2])
        requires
            old(self).wf(),
            old(self)@.holds(pos as int, end),
        ensures
            final(self).wf(),
            final(self)@ == old(self)@.without(pos as int, end),
            (r@[0], r@[1]) == old(self)@.moved_by_remove(pos as int, end),
    {
        let i: usize = pos as usize;
        let n: usize = self.entries.len();
        let split: usize = self.out_len as usize;
        let mut swapped: Option<Moved> = None;
        let mut promoted: Option<Moved> = None;
        match end {
            End::Out => {
                if i != split - 1 {
                    let back = self.entries[split - 1];
                    self.entries.set(i, back);
                    swapped = Some(Moved { id: back.idx, end: End::Out, to: pos });
                }
                if n > split {
                    let last = self.entries[n - 1];
                    self.entries.set(split - 1, last);
                    promoted = Some(
                        Moved { id: last.idx, end: End::In, to: (split - 1) as Raw },
                    );
                }
                self.entries.pop();
                self.out_len = self.out_len - 1;
            },
            End::In => {
                if i != n - 1 {
                    let last = self.entries[n - 1];
                    self.entries.set(i, last);
                    swapped = Some(Moved { id: last.idx, end: End::In, to: pos });
                }
                self.entries.pop();
            },
        }
        assert(self@.out =~= old(self)@.without(pos as int, end).out);
        assert(self@.inc =~= old(self)@.without(pos as int, end).inc);
        [swapped, promoted]
    }

    /// Release excess capacity. The entries stay as they are.
    pub fn shrink(&mut self)
        requires
            old(self).wf(),
        ensures
            final(self).wf(),
            final(self)@ == old(self)@,
    {
        shrink_to_fit(&mut self.entries);
    }
}

/// `Vec::shrink_to_fit`: the contents stay, whatever the capacity becomes.
#[verifier::external_body]
pub(crate) fn shrink_to_fit<T>(v: &mut Vec<T>)
    ensures
        final(v)@ == old(v)@,
{
    v.shrink_to_fit()
}

impl Default for Block {
    fn default() -> (r: Self)
        ensures
            r.wf(),
            r@ == BlockView::empty(),
    {
        Block::new()
    }
}

impl Clone for Block {
    fn clone(&self) -> (r: Self)
        ensures
            r@ == self@,
            self.wf() ==> r.wf(),
    {
        let entries = self.entries.clone();
        assert(entries@ =~= self.entries@);
        Block { entries, out_len: self.out_len }
    }
}

/// Every notification of a splice is honest: the entry it names really is at
/// the position it gives, in the half it claims.
pub proof fn notifications_are_honest(b: BlockView, e: AdjEntry, pos: int, end: End)
    requires
        b.len() <= Raw::MAX,
    ensures
        b.with_out(e).describes(b.moved_by_insert()),
        b.holds(pos, end) ==> {
            &&& b.without(pos, end).describes(b.moved_by_remove(pos, end).0)
            &&& b.without(pos, end).describes(b.moved_by_remove(pos, end).1)
        },
{
}

/// Removing an entry right after appending it gives the block back, in the
/// order it had.
pub proof fn removal_undoes_insertion(b: BlockView, e: AdjEntry)
    ensures
        b.with_out(e).without(b.out.len() as int, End::Out) == b,
        b.with_in(e).without(b.len() as int, End::In) == b,
{
    assert(b.with_out(e).without(b.out.len() as int, End::Out) =~= b);
    assert(b.with_in(e).without(b.len() as int, End::In) =~= b);
}

/// The splices keep the entries: appending adds exactly the new one to its
/// half, and removing takes exactly the one named, whatever the order.
pub proof fn splices_keep_the_entries(b: BlockView, e: AdjEntry, pos: int, end: End)
    ensures
        b.with_out(e).out.to_multiset() == b.out.to_multiset().insert(e),
        b.with_out(e).inc.to_multiset() == b.inc.to_multiset(),
        b.with_in(e).inc.to_multiset() == b.inc.to_multiset().insert(e),
        b.holds(pos, end) ==> (match end {
            End::Out => {
                &&& b.without(pos, end).out.to_multiset() == b.out.to_multiset().remove(b.out[pos])
                &&& b.without(pos, end).inc.to_multiset() == b.inc.to_multiset()
            },
            End::In => {
                &&& b.without(pos, end).inc.to_multiset() == b.inc.to_multiset().remove(
                    b.inc[pos - b.out.len()],
                )
                &&& b.without(pos, end).out == b.out
            },
        }),
{
    broadcast use vstd::seq_lib::group_to_multiset_ensures;

    if b.inc.len() > 0 {
        lemma_rotation_keeps(b.inc);
    }
    if b.holds(pos, end) {
        match end {
            End::Out => {
                lemma_swap_remove_bag(b.out, pos);
            },
            End::In => {
                lemma_swap_remove_bag(b.inc, pos - b.out.len());
            },
        }
    }
}

proof fn lemma_rotation_keeps(s: Seq<AdjEntry>)
    requires
        s.len() > 0,
    ensures
        s.drop_first().push(s[0]).to_multiset() == s.to_multiset(),
        (seq![s.last()] + s.drop_last()).to_multiset() == s.to_multiset(),
{
    broadcast use vstd::seq_lib::group_to_multiset_ensures;

    assert(seq![s[0]] + s.drop_first() =~= s);
    assert(s.drop_last().push(s.last()) =~= s);
    assert(s.drop_first().push(s[0]) =~= s.drop_first() + seq![s[0]]);
    assert(s.drop_last().push(s.last()) =~= s.drop_last() + seq![s.last()]);
    vstd::seq_lib::lemma_multiset_commutative(seq![s[0]], s.drop_first());
    vstd::seq_lib::lemma_multiset_commutative(s.drop_first(), seq![s[0]]);
    vstd::seq_lib::lemma_multiset_commutative(seq![s.last()], s.drop_last());
    vstd::seq_lib::lemma_multiset_commutative(s.drop_last(), seq![s.last()]);
    assert(seq![s[0]].to_multiset().add(s.drop_first().to_multiset()) =~= s.drop_first().to_multiset().add(
        seq![s[0]].to_multiset(),
    ));
    assert(seq![s.last()].to_multiset().add(s.drop_last().to_multiset()) =~= s.drop_last().to_multiset().add(
        seq![s.last()].to_multiset(),
    ));
}

/// Filling a hole with the last element drops exactly the element in the hole.
proof fn lemma_swap_remove_bag(s: Seq<AdjEntry>, i: int)
    requires
        0 <= i < s.len(),
    ensures
        s.update(i, s.last()).drop_last().to_multiset() == s.to_multiset().remove(s[i]),
{
    broadcast use vstd::seq_lib::group_to_multiset_ensures;

    let t = s.update(i, s.last()).drop_last();
    assert(s.drop_last().push(s.last()) =~= s);
    if i == s.len() - 1 {
        assert(t =~= s.drop_last());
        assert(s.to_multiset() =~= s.drop_last().to_multiset().insert(s.last()));
        assert(s.to_multiset().remove(s[i]) =~= t.to_multiset());
    } else {
        let d = s.drop_last();
        assert(t =~= d.update(i, s.last()));
        assert(t.to_multiset() =~= d.to_multiset().insert(s.last()).remove(d[i]));
        assert(s.to_multiset() =~= d.to_multiset().insert(s.last()));
    }
}

} // verus!
