//! Derived indexes: the edge slot table, and the optional `(s, t)` lookup.
//!
//! The slot table always exists, and carries the **endpoints** as well as the
//! positions, so that an edge is removed by its identity alone: there is no
//! caller-supplied orientation left to be wrong.

use std::collections::HashMap;

use rustc_hash::FxBuildHasher;
use vstd::prelude::*;

use super::block::{Block, BlockView, End, Moved};
use crate::ids::{EdgeId, Raw, VertexId, MAX_INDEX};

verus! {

/// Everything the graph knows about one edge besides its adjacency entries.
#[derive(Debug)]
pub struct EdgeSlot {
    /// Stored source.
    pub src: VertexId,
    /// Stored target.
    pub tgt: VertexId,
    /// Position of this edge's entry in `src`'s out-half.
    pub out_pos: Raw,
    /// Position of this edge's entry in `tgt`'s in-half, relative to the block
    /// start.
    pub in_pos: Raw,
}

impl EdgeSlot {
    /// Whether a slot names a live edge: the top raw value is no position of
    /// an out-entry, and marks the slots that name none.
    pub open spec fn is_live(self) -> bool {
        self.out_pos != Raw::MAX
    }

    /// The slot of an index that names no live edge, as a value.
    pub open spec fn dead() -> EdgeSlot {
        EdgeSlot { src: VertexId::at(0), tgt: VertexId::at(0), out_pos: Raw::MAX, in_pos: Raw::MAX }
    }

    /// The vertex whose block holds half `end`, and the position there.
    pub open spec fn half_of(self, end: End) -> (VertexId, Raw) {
        match end {
            End::Out => (self.src, self.out_pos),
            End::In => (self.tgt, self.in_pos),
        }
    }

    /// The slot once its `end` half has moved to `to`.
    pub open spec fn moved_to(self, end: End, to: Raw) -> EdgeSlot {
        match end {
            End::Out => EdgeSlot { out_pos: to, ..self },
            End::In => EdgeSlot { in_pos: to, ..self },
        }
    }

    /// The slot of an index that names no live edge. Its endpoints are
    /// arbitrary and are never read.
    #[inline]
    pub fn tomb() -> (r: EdgeSlot)
        ensures
            r == EdgeSlot::dead(),
            !r.is_live(),
    {
        broadcast use crate::ids::id_is_its_index;
        broadcast use crate::ids::id_at;

        EdgeSlot {
            src: VertexId::from_index(0),
            tgt: VertexId::from_index(0),
            out_pos: Raw::MAX,
            in_pos: Raw::MAX,
        }
    }

    /// Whether this slot names a live edge.
    #[inline]
    pub fn live(self) -> (r: bool)
        ensures
            r == self.is_live(),
    {
        self.out_pos != Raw::MAX
    }

    /// The vertex whose block holds the `end` half, and the position within it.
    #[inline]
    pub fn half(self, end: End) -> (r: (VertexId, Raw))
        ensures
            r == self.half_of(end),
    {
        match end {
            End::Out => (self.src, self.out_pos),
            End::In => (self.tgt, self.in_pos),
        }
    }
}

impl Clone for EdgeSlot {
    #[inline]
    fn clone(&self) -> (r: Self)
        ensures
            r == *self,
    {
        *self
    }
}

impl Copy for EdgeSlot {

}

impl PartialEq for EdgeSlot {
    #[inline]
    fn eq(&self, other: &Self) -> (r: bool) {
        self.src == other.src && self.tgt == other.tgt && self.out_pos == other.out_pos
            && self.in_pos == other.in_pos
    }
}

impl vstd::std_specs::cmp::PartialEqSpecImpl for EdgeSlot {
    open spec fn obeys_eq_spec() -> bool {
        true
    }

    open spec fn eq_spec(&self, other: &Self) -> bool {
        *self == *other
    }
}

impl Eq for EdgeSlot {

}

/// The blocks of a graph, as values.
pub open spec fn views(blocks: Seq<Block>) -> Seq<BlockView> {
    Seq::new(blocks.len(), |v: int| blocks[v]@)
}

/// Every block of a slice is well formed.
pub open spec fn all_wf(blocks: Seq<Block>) -> bool {
    forall|v: int| 0 <= v < blocks.len() ==> (#[trigger] blocks[v]).wf()
}

/// Whether a slot table names `id` as a live edge.
pub open spec fn live_in(slots: Seq<EdgeSlot>, id: EdgeId) -> bool {
    id@ < slots.len() && slots[id@ as int].is_live()
}

/// The endpoints that a slot table has of `id`.
pub open spec fn ends_in(slots: Seq<EdgeSlot>, id: EdgeId) -> Option<(VertexId, VertexId)> {
    if live_in(slots, id) {
        Some((slots[id@ as int].src, slots[id@ as int].tgt))
    } else {
        None
    }
}

/// Where a slot table and the blocks agree that half `end` of `id` is.
pub open spec fn located(
    slots: Seq<EdgeSlot>,
    blocks: Seq<BlockView>,
    id: EdgeId,
    end: End,
) -> Option<(VertexId, Raw)> {
    if live_in(slots, id) {
        let (owner, pos) = slots[id@ as int].half_of(end);
        if owner@ < blocks.len() && (blocks[owner@ as int].entry(pos as int, end) matches Some(e)
            && e.idx == id) {
            Some((owner, pos))
        } else {
            None
        }
    } else {
        None
    }
}

/// Every slot that names no live edge is the blank one.
pub open spec fn holes_are_blank(slots: Seq<EdgeSlot>) -> bool {
    forall|k: int|
        0 <= k < slots.len() && !(#[trigger] slots[k]).is_live() ==> slots[k] == EdgeSlot::dead()
}

/// A slot table with room for index `i`.
pub open spec fn grown(slots: Seq<EdgeSlot>, i: nat) -> Seq<EdgeSlot> {
    if slots.len() <= i {
        slots + Seq::new((i + 1 - slots.len()) as nat, |k: int| EdgeSlot::dead())
    } else {
        slots
    }
}

/// A slot table once the relocation has been noted, if there was one.
pub open spec fn relocated(slots: Seq<EdgeSlot>, m: Option<Moved>) -> Seq<EdgeSlot> {
    match m {
        Some(m) => slots.update(m.id@ as int, slots[m.id@ as int].moved_to(m.end, m.to)),
        None => slots,
    }
}

/// The edge slot table.
#[derive(Debug)]
pub struct EdgeSlots {
    /// One slot for each index of the edge space, up to the highest in use.
    pub slot: Vec<EdgeSlot>,
}

impl View for EdgeSlots {
    type V = Seq<EdgeSlot>;

    open spec fn view(&self) -> Seq<EdgeSlot> {
        self.slot@
    }
}

impl EdgeSlots {
    /// An empty table.
    #[inline]
    pub fn new() -> (r: Self)
        ensures
            r@ == Seq::<EdgeSlot>::empty(),
    {
        EdgeSlots { slot: Vec::new() }
    }

    /// Endpoints of a live edge. Total on every identifier.
    #[inline]
    pub fn endpoints(&self, id: EdgeId) -> (r: Option<(VertexId, VertexId)>)
        ensures
            r == ends_in(self@, id),
    {
        if id.index() < self.slot.len() {
            let s = self.slot[id.index()];
            if s.live() {
                Some((s.src, s.tgt))
            } else {
                None
            }
        } else {
            None
        }
    }

    /// Locate one half of an edge, verifying the entry actually found there.
    ///
    /// The half is selected *first*, and a position on the wrong side of the
    /// boundary is a miss, so the two halves can never be confused for one
    /// another.
    pub fn locate(&self, blocks: &[Block], id: EdgeId, end: End) -> (r: Option<(VertexId, Raw)>)
        requires
            all_wf(blocks@),
        ensures
            r == located(self@, views(blocks@), id, end),
    {
        if id.index() >= self.slot.len() {
            return None;
        }
        let s = self.slot[id.index()];
        if !s.live() {
            return None;
        }
        let (owner, pos) = s.half(end);
        if owner.index() >= blocks.len() {
            return None;
        }
        assert(blocks@[owner@ as int].wf());
        match blocks[owner.index()].get(pos, end) {
            Some(entry) => if entry.idx == id {
                Some((owner, pos))
            } else {
                None
            },
            None => None,
        }
    }

    /// Record a new edge, growing the table as far as its index.
    pub fn on_insert(&mut self, id: EdgeId, s: EdgeSlot)
        requires
            s.is_live(),
            id@ <= MAX_INDEX,
        ensures
            final(self)@ == grown(old(self)@, id@).update(id@ as int, s),
    {
        let i: usize = id.index();
        if self.slot.len() <= i {
            self.slot.resize(i + 1, EdgeSlot::tomb());
        }
        assert(self.slot@ =~= grown(old(self)@, id@));
        self.slot.set(i, s);
    }

    /// Apply a relocation notification. It names a live edge.
    pub fn on_move(&mut self, m: Moved)
        requires
            live_in(old(self)@, m.id),
        ensures
            final(self)@ == relocated(old(self)@, Some(m)),
    {
        let i: usize = m.id.index();
        let mut slot = self.slot[i];
        match m.end {
            End::Out => {
                slot.out_pos = m.to;
            },
            End::In => {
                slot.in_pos = m.to;
            },
        }
        self.slot.set(i, slot);
    }

    /// Forget an edge. It is live.
    pub fn on_remove(&mut self, id: EdgeId)
        requires
            live_in(old(self)@, id),
        ensures
            final(self)@ == old(self)@.update(id@ as int, EdgeSlot::dead()),
    {
        self.slot.set(id.index(), EdgeSlot::tomb());
    }

    /// Rebuild from scratch, for an edge index space of `bound` slots.
    ///
    /// Entries are read block by block, out-half first; every entry writes its
    /// own half's position and both endpoints, and a later entry overwrites an
    /// earlier one. An entry of an edge outside the index space is dropped, so
    /// that a damaged table can be repaired.
    pub fn rebuild(&mut self, blocks: &[Block], bound: usize)
        requires
            all_wf(blocks@),
            blocks@.len() <= MAX_INDEX + 1,
            forall|v: int| 0 <= v < blocks@.len() ==> (#[trigger] blocks@[v])@.len() <= MAX_INDEX + 1,
        ensures
            final(self)@ == read_blocks(
                Seq::new(bound as nat, |i: int| EdgeSlot::dead()),
                views(blocks@),
            ),
    {
        broadcast use crate::ids::id_is_its_index;
        broadcast use crate::ids::id_at;

        let ghost vs = views(blocks@);
        self.slot.clear();
        self.slot.resize(bound, EdgeSlot::tomb());
        let ghost blank = Seq::new(bound as nat, |i: int| EdgeSlot::dead());
        assert(self.slot@ =~= blank);
        assert(vs.take(0) =~= Seq::empty());
        let mut v: usize = 0;
        while v < blocks.len()
            invariant
                v <= blocks@.len(),
                blocks@.len() <= MAX_INDEX + 1,
                all_wf(blocks@),
                vs == views(blocks@),
                self.slot@.len() == bound,
                self.slot@ == read_blocks(blank, vs.take(v as int)),
                forall|v: int|
                    0 <= v < blocks@.len() ==> (#[trigger] blocks@[v])@.len() <= MAX_INDEX + 1,
            decreases blocks@.len() - v,
        {
            let owner = VertexId::from_index(v);
            assert(blocks@[v as int].wf());
            let block = &blocks[v];
            let out_len: usize = block.out_degree();
            let entries = block.all();
            let ghost start = self.slot@;
            let ghost b = block@;
            assert(entries@ == b.all());
            assert(owner == VertexId::at(v as nat));
            let mut j: usize = 0;
            while j < entries.len()
                invariant
                    j <= entries@.len(),
                    entries@ == b.all(),
                    entries@.len() == b.len(),
                    b.len() <= MAX_INDEX + 1,
                    out_len == b.out.len(),
                    owner == VertexId::at(v as nat),
                    self.slot@.len() == bound,
                    self.slot@ == read_entries(start, b, owner, j as nat),
                decreases entries@.len() - j,
            {
                let e = entries[j];
                let i: usize = e.idx.index();
                if i < self.slot.len() {
                    let mut slot = self.slot[i];
                    let pos: Raw = j as Raw;
                    if j < out_len {
                        slot.src = owner;
                        slot.tgt = e.other;
                        slot.out_pos = pos;
                    } else {
                        slot.src = e.other;
                        slot.tgt = owner;
                        slot.in_pos = pos;
                    }
                    self.slot.set(i, slot);
                }
                j = j + 1;
            }
            proof {
                assert(vs.take(v + 1).drop_last() =~= vs.take(v as int));
                assert(vs.take(v + 1).last() == b);
            }
            v = v + 1;
        }
        assert(vs.take(v as int) =~= vs);
    }
}

/// The slot of the edge that entry `j` of `owner`'s block names, once that
/// entry has been read.
pub open spec fn read_entry(slot: EdgeSlot, b: BlockView, owner: VertexId, j: int) -> EdgeSlot {
    if j < b.out.len() {
        EdgeSlot { src: owner, tgt: b.all()[j].other, out_pos: j as Raw, in_pos: slot.in_pos }
    } else {
        EdgeSlot { src: b.all()[j].other, tgt: owner, out_pos: slot.out_pos, in_pos: j as Raw }
    }
}

/// A slot table once the first `j` entries of `owner`'s block have been read.
/// An entry of an edge outside the table writes nothing.
pub open spec fn read_entries(
    slots: Seq<EdgeSlot>,
    b: BlockView,
    owner: VertexId,
    j: nat,
) -> Seq<EdgeSlot>
    decreases j,
{
    if j == 0 {
        slots
    } else {
        let before = read_entries(slots, b, owner, (j - 1) as nat);
        let i = b.all()[j - 1].idx@ as int;
        if i < before.len() {
            before.update(i, read_entry(before[i], b, owner, j - 1))
        } else {
            before
        }
    }
}

/// A slot table once the blocks have been read, the first one first.
pub open spec fn read_blocks(slots: Seq<EdgeSlot>, blocks: Seq<BlockView>) -> Seq<EdgeSlot>
    decreases blocks.len(),
{
    if blocks.len() == 0 {
        slots
    } else {
        let before = read_blocks(slots, blocks.drop_last());
        read_entries(
            before,
            blocks.last(),
            VertexId::at((blocks.len() - 1) as nat),
            blocks.last().len(),
        )
    }
}

impl Default for EdgeSlots {
    fn default() -> (r: Self)
        ensures
            r@ == Seq::<EdgeSlot>::empty(),
    {
        EdgeSlots::new()
    }
}

impl Clone for EdgeSlots {
    fn clone(&self) -> (r: Self)
        ensures
            r@ == self@,
    {
        let slot = self.slot.clone();
        assert(slot@ =~= self.slot@);
        EdgeSlots { slot }
    }
}

/// The edges from `s` to `t`, in the order of `s`'s out-half.
pub open spec fn edges_between(blocks: Seq<BlockView>, s: VertexId, t: VertexId) -> Seq<EdgeId> {
    if s@ < blocks.len() {
        blocks[s@ as int].out.filter(|e: super::entry::AdjEntry| e.other == t).map_values(
            |e: super::entry::AdjEntry| e.idx,
        )
    } else {
        Seq::empty()
    }
}

/// No edge is an out-entry twice.
pub open spec fn out_entries_distinct(blocks: Seq<BlockView>) -> bool {
    forall|v: int, i: int, w: int, j: int|
        0 <= v < blocks.len() && 0 <= i < blocks[v].out.len() && 0 <= w < blocks.len() && 0 <= j
            < blocks[w].out.len() && (#[trigger] blocks[v].out[i]).idx == (
        #[trigger] blocks[w].out[j]).idx ==> v == w && i == j
}

/// A bucket of edges once `id`, which it holds, has been taken out: the last
/// edge fills the hole.
pub open spec fn bucket_without(bucket: Seq<EdgeId>, id: EdgeId) -> Seq<EdgeId> {
    bucket.update(bucket.index_of(id), bucket.last()).drop_last()
}

/// Optional `(source, target) -> edges` index, keyed on the **ordered pair**:
/// with no privileged endpoint there is no direction a relabelling can forget.
pub trait Lookup: Default + Clone + Send + Sync + 'static {
    /// Whether this index is kept. `false` makes every hook do nothing.
    const ENABLED: bool;

    /// What the index keeps beside the buckets agrees with them.
    spec fn wf(&self) -> bool;

    /// The edges that the index has from `s` to `t`.
    spec fn bucket(&self, s: VertexId, t: VertexId) -> Seq<EdgeId>;

    /// A fresh index is well formed and holds nothing.
    proof fn default_is_empty(r: Self)
        requires
            call_ensures(Self::default, (), r),
        ensures
            r.wf(),
            forall|s: VertexId, t: VertexId| #[trigger] r.bucket(s, t) == Seq::<EdgeId>::empty(),
    ;

    /// A copy of an index holds what the index holds.
    proof fn clone_is_equal(a: Self, r: Self)
        requires
            call_ensures(Self::clone, (&a,), r),
        ensures
            a.wf() ==> r.wf(),
            forall|s: VertexId, t: VertexId| #[trigger] r.bucket(s, t) == a.bucket(s, t),
    ;

    /// Note an edge's existence.
    fn on_link(&mut self, s: VertexId, t: VertexId, id: EdgeId)
        requires
            old(self).wf(),
            id@ <= MAX_INDEX,
            Self::ENABLED ==> old(self).bucket(s, t).len() <= MAX_INDEX,
            Self::ENABLED ==> forall|a: VertexId, b: VertexId|
                !(#[trigger] old(self).bucket(a, b)).contains(id),
        ensures
            final(self).wf(),
            forall|a: VertexId, b: VertexId| #[trigger]
                final(self).bucket(a, b) == (if Self::ENABLED && a == s && b == t {
                    old(self).bucket(s, t).push(id)
                } else {
                    old(self).bucket(a, b)
                }),
    ;

    /// Note an edge's removal.
    fn on_unlink(&mut self, s: VertexId, t: VertexId, id: EdgeId)
        requires
            old(self).wf(),
            Self::ENABLED ==> old(self).bucket(s, t).contains(id),
        ensures
            final(self).wf(),
            forall|a: VertexId, b: VertexId| #[trigger]
                final(self).bucket(a, b) == (if Self::ENABLED && a == s && b == t {
                    bucket_without(old(self).bucket(s, t), id)
                } else {
                    old(self).bucket(a, b)
                }),
    ;

    /// Every edge from `s` to `t`.
    fn find(&self, s: VertexId, t: VertexId) -> (r: &[EdgeId])
        requires
            self.wf(),
        ensures
            r@ == self.bucket(s, t),
    ;

    /// Rebuild from scratch. Every edge is an out-entry of exactly one vertex.
    fn rebuild(&mut self, blocks: &[Block])
        requires
            all_wf(blocks@),
            blocks@.len() <= MAX_INDEX + 1,
            out_entries_distinct(views(blocks@)),
            forall|v: int|
                0 <= v < blocks@.len() ==> (#[trigger] blocks@[v])@.out.len() <= MAX_INDEX + 1,
            forall|v: int, j: int|
                0 <= v < blocks@.len() && 0 <= j < blocks@[v]@.out.len() ==> (
                #[trigger] blocks@[v]@.out[j]).idx@ <= MAX_INDEX,
        ensures
            final(self).wf(),
            Self::ENABLED ==> forall|s: VertexId, t: VertexId| #[trigger]
                final(self).bucket(s, t) == edges_between(views(blocks@), s, t),
    ;
}

/// No `(s, t)` index; finding an edge scans the shorter half.
#[derive(Debug)]
pub struct NoLookup;

impl Default for NoLookup {
    fn default() -> (r: Self) {
        NoLookup
    }
}

impl Clone for NoLookup {
    fn clone(&self) -> (r: Self)
        ensures
            r == *self,
    {
        NoLookup
    }
}

impl Copy for NoLookup {

}

impl Lookup for NoLookup {
    const ENABLED: bool = false;

    open spec fn wf(&self) -> bool {
        true
    }

    open spec fn bucket(&self, s: VertexId, t: VertexId) -> Seq<EdgeId> {
        Seq::empty()
    }

    proof fn default_is_empty(r: Self) {
    }

    proof fn clone_is_equal(a: Self, r: Self) {
    }

    #[inline]
    fn on_link(&mut self, s: VertexId, t: VertexId, id: EdgeId) {
    }

    #[inline]
    fn on_unlink(&mut self, s: VertexId, t: VertexId, id: EdgeId) {
    }

    #[inline]
    fn find(&self, s: VertexId, t: VertexId) -> (r: &[EdgeId]) {
        let r: &[EdgeId] = &[];
        assert(r@ =~= Seq::empty());
        r
    }

    #[inline]
    fn rebuild(&mut self, blocks: &[Block]) {
    }
}

/// The hasher of `rustc_hash`'s map.
#[verifier::external_type_specification]
#[verifier::external_body]
pub struct ExFxBuildHasher(FxBuildHasher);

/// The map from endpoint pairs to their edges: `rustc_hash`'s `FxHashMap`.
pub type PairMap = HashMap<(Raw, Raw), Vec<EdgeId>, FxBuildHasher>;

/// `FxHashMap::get`: the value under the key, if the map holds the key.
#[verifier::external_body]
fn pair_get(m: &PairMap, k: (Raw, Raw)) -> (r: Option<&Vec<EdgeId>>)
    ensures
        r is Some <==> m@.contains_key(k),
        r matches Some(v) ==> *v == m@[k],
{
    m.get(&k)
}

/// `FxHashMap::get_mut`: the place of the value under the key, if the map holds
/// the key. What is left in the place is what the map then holds there; nothing
/// else changes.
#[verifier::external_body]
fn pair_get_mut(m: &mut PairMap, k: (Raw, Raw)) -> (r: Option<&mut Vec<EdgeId>>)
    ensures
        match r {
            Some(v) => old(m)@.contains_key(k) && *v == old(m)@[k] && final(m)@ == old(m)@.insert(
                k,
                *final(v),
            ),
            None => !old(m)@.contains_key(k) && final(m)@ == old(m)@,
        },
{
    m.get_mut(&k)
}

/// `FxHashMap::insert`: the map holds the value under the key, whatever it held
/// there before; nothing else changes.
#[verifier::external_body]
fn pair_insert(m: &mut PairMap, k: (Raw, Raw), v: Vec<EdgeId>)
    ensures
        final(m)@ == old(m)@.insert(k, v),
{
    m.insert(k, v);
}

/// `FxHashMap::remove`: the map no longer holds the key; nothing else changes.
#[verifier::external_body]
fn pair_remove(m: &mut PairMap, k: (Raw, Raw))
    ensures
        final(m)@ == old(m)@.remove(k),
{
    m.remove(&k);
}

/// Hash index on the ordered endpoint pair.
#[derive(Debug)]
pub struct EHash {
    /// The edges of every adjacent pair. No pair outlives its last edge.
    pub map: PairMap,
    /// Where each edge sits inside its own bucket, by edge index. This is what
    /// makes an unlink constant-time whatever the multiplicity.
    pub pos: Vec<Raw>,
}

impl EHash {
    /// The buckets are not empty, no edge is in two of them, and every edge's
    /// recorded position is its place in its bucket.
    pub open spec fn positions_agree(self) -> bool {
        &&& forall|k: (Raw, Raw)| #[trigger]
            self.map@.contains_key(k) ==> self.map@[k]@.len() > 0
        &&& forall|k: (Raw, Raw), i: int|
            self.map@.contains_key(k) && 0 <= i < self.map@[k]@.len() ==> {
                let id = #[trigger] self.map@[k]@[i];
                id@ < self.pos@.len() && self.pos@[id@ as int] == i
            }
        &&& forall|k: (Raw, Raw), i: int, l: (Raw, Raw), j: int|
            self.map@.contains_key(k) && 0 <= i < self.map@[k]@.len() && self.map@.contains_key(l)
                && 0 <= j < self.map@[l]@.len() && #[trigger] self.map@[k]@[i]
                == #[trigger] self.map@[l]@[j] ==> k == l
    }

    /// The edges under a raw pair.
    pub open spec fn under(self, k: (Raw, Raw)) -> Seq<EdgeId> {
        if self.map@.contains_key(k) {
            self.map@[k]@
        } else {
            Seq::empty()
        }
    }
}

impl Default for EHash {
    fn default() -> (r: Self)
        ensures
            r.map@ == Map::<(Raw, Raw), Vec<EdgeId>>::empty(),
            r.pos@ == Seq::<Raw>::empty(),
    {
        EHash { map: HashMap::default(), pos: Vec::new() }
    }
}

impl Clone for EHash {
    fn clone(&self) -> (r: Self)
        ensures
            r.map@ == self.map@,
            r.pos@ == self.pos@,
    {
        let pos = self.pos.clone();
        assert(pos@ =~= self.pos@);
        EHash { map: self.map.clone(), pos }
    }
}

impl Lookup for EHash {
    const ENABLED: bool = true;

    open spec fn wf(&self) -> bool {
        self.positions_agree()
    }

    open(crate) spec fn bucket(&self, s: VertexId, t: VertexId) -> Seq<EdgeId> {
        self.under((s.0, t.0))
    }

    proof fn default_is_empty(r: Self) {
    }

    proof fn clone_is_equal(a: Self, r: Self) {
    }

    fn on_link(&mut self, s: VertexId, t: VertexId, id: EdgeId) {
        let ghost before = *self;
        let k = (s.0, t.0);
        proof {
            assert(self.bucket(s, t) == self.under(k));
            assert forall|l: (Raw, Raw), j: int|
                self.map@.contains_key(l) && 0 <= j < self.map@[l]@.len() implies
                #[trigger] self.map@[l]@[j] != id by {
                let a = VertexId::at(l.0 as nat);
                let b = VertexId::at(l.1 as nat);
                assert(self.bucket(a, b) == self.under(l));
                if self.map@[l]@[j] == id {
                    assert(self.bucket(a, b).contains(id));
                }
            }
        }
        let at: Raw = match pair_get_mut(&mut self.map, k) {
            Some(bucket) => {
                bucket.push(id);
                (bucket.len() - 1) as Raw
            },
            None => {
                let mut bucket: Vec<EdgeId> = Vec::new();
                bucket.push(id);
                pair_insert(&mut self.map, k, bucket);
                0
            },
        };
        let i: usize = id.index();
        if self.pos.len() <= i {
            self.pos.resize(i + 1, 0);
        }
        self.pos.set(i, at);
        proof {
            assert(self.map@[k]@ == before.under(k).push(id));
            assert(forall|l: (Raw, Raw)| l != k ==> self.under(l) == before.under(l));
            assert forall|l: (Raw, Raw), j: int|
                self.map@.contains_key(l) && 0 <= j < self.map@[l]@.len() implies {
                let e = #[trigger] self.map@[l]@[j];
                e@ < self.pos@.len() && self.pos@[e@ as int] == j
            } by {
                let e = self.map@[l]@[j];
                if l != k || j < before.under(k).len() {
                    assert(before.map@[l]@[j] == e);
                    assert(e != id);
                    assert(e@ != id@);
                }
            }
            assert forall|l: (Raw, Raw), i: int, m: (Raw, Raw), j: int|
                self.map@.contains_key(l) && 0 <= i < self.map@[l]@.len() && self.map@.contains_key(m)
                    && 0 <= j < self.map@[m]@.len() && #[trigger] self.map@[l]@[i]
                    == #[trigger] self.map@[m]@[j] implies l == m by {
                let x = self.map@[l]@[i];
                if x != id {
                    assert(before.map@[l]@[i] == x);
                    assert(before.map@[m]@[j] == x);
                } else {
                    if l != k {
                        assert(before.map@[l]@[i] == id);
                    }
                    if m != k {
                        assert(before.map@[m]@[j] == id);
                    }
                }
            }
        }
    }

    fn on_unlink(&mut self, s: VertexId, t: VertexId, id: EdgeId) {
        let ghost before = *self;
        let k = (s.0, t.0);
        let ghost was = before.under(k);
        proof {
            assert(self.bucket(s, t) == was);
            let i = choose|i: int| 0 <= i < was.len() && was[i] == id;
            assert(self.map@[k]@[i] == id);
            assert(was[was.index_of(id)] == id);
            assert(self.map@[k]@[was.index_of(id)] == id);
        }
        let at: usize = self.pos[id.index()] as usize;
        assert(was.index_of(id) == at);
        let mut emptied = false;
        match pair_get_mut(&mut self.map, k) {
            Some(bucket) => {
                bucket.swap_remove(at);
                if at < bucket.len() {
                    let now = bucket[at];
                    assert(was.last() == now);
                    assert(before.map@[k]@[was.len() - 1] == now);
                    self.pos.set(now.index(), at as Raw);
                }
                emptied = bucket.len() == 0;
            },
            None => {},
        }
        let ghost half = *self;
        assert(half.map@[k]@ == bucket_without(was, id));
        if emptied {
            pair_remove(&mut self.map, k);
        }
        proof {
            let less = bucket_without(was, id);
            assert(self.under(k) =~= less);
            assert(forall|l: (Raw, Raw)| l != k ==> self.under(l) == before.under(l));
            assert forall|l: (Raw, Raw), j: int|
                self.map@.contains_key(l) && 0 <= j < self.map@[l]@.len() implies {
                let e = #[trigger] self.map@[l]@[j];
                e@ < self.pos@.len() && self.pos@[e@ as int] == j
            } by {
                let e = self.map@[l]@[j];
                if l == k {
                    if j == at {
                        assert(e == was.last());
                    } else {
                        assert(e == before.map@[k]@[j]);
                        assert(before.map@[k]@[was.len() - 1] == was.last());
                        assert(e@ != was.last()@);
                    }
                } else {
                    assert(e == before.map@[l]@[j]);
                    assert(before.map@[k]@[was.len() - 1] == was.last());
                    assert(e != was.last());
                    assert(e@ != was.last()@);
                }
            }
            assert forall|l: (Raw, Raw), i: int, m: (Raw, Raw), j: int|
                self.map@.contains_key(l) && 0 <= i < self.map@[l]@.len() && self.map@.contains_key(m)
                    && 0 <= j < self.map@[m]@.len() && #[trigger] self.map@[l]@[i]
                    == #[trigger] self.map@[m]@[j] implies l == m by {
                let x = self.map@[l]@[i];
                let i0 = if l == k && i == at { was.len() - 1 } else { i };
                let j0 = if m == k && j == at { was.len() - 1 } else { j };
                assert(before.map@[l]@[i0] == x);
                assert(before.map@[m]@[j0] == x);
            }
        }
    }

    fn find(&self, s: VertexId, t: VertexId) -> (r: &[EdgeId]) {
        match pair_get(&self.map, (s.0, t.0)) {
            Some(v) => v.as_slice(),
            None => {
                let r: &[EdgeId] = &[];
                assert(r@ =~= Seq::empty());
                r
            },
        }
    }

    fn rebuild(&mut self, blocks: &[Block]) {
        broadcast use crate::ids::id_is_its_index;
        broadcast use crate::ids::id_at;

        let ghost vs = views(blocks@);
        self.map.clear();
        self.pos.clear();
        let mut v: usize = 0;
        while v < blocks.len()
            invariant
                v <= blocks@.len(),
                blocks@.len() <= MAX_INDEX + 1,
                all_wf(blocks@),
                vs == views(blocks@),
                out_entries_distinct(vs),
                self.wf(),
                forall|s: VertexId, t: VertexId| #[trigger]
                    self.bucket(s, t) == edges_between(vs.take(v as int), s, t),
                forall|v: int|
                    0 <= v < blocks@.len() ==> (#[trigger] blocks@[v])@.out.len() <= MAX_INDEX + 1,
                forall|v: int, j: int|
                    0 <= v < blocks@.len() && 0 <= j < blocks@[v]@.out.len() ==> (
                    #[trigger] blocks@[v]@.out[j]).idx@ <= MAX_INDEX,
            decreases blocks@.len() - v,
        {
            let s = VertexId::from_index(v);
            assert(blocks@[v as int].wf());
            let out = blocks[v].out();
            assert(out@ == vs[v as int].out);
            let ghost prefix = vs.take(v as int);
            let mut j: usize = 0;
            proof {
                assert forall|a: VertexId, b: VertexId| #[trigger]
                    self.bucket(a, b) == partly_between(vs, v as int, 0, a, b) by {
                    lemma_partly_none(vs, v as int, a, b);
                }
            }
            while j < out.len()
                invariant
                    j <= out@.len(),
                    0 <= v < vs.len(),
                    s@ == v,
                    out@ == vs[v as int].out,
                    out@.len() <= MAX_INDEX + 1,
                    self.wf(),
                    out_entries_distinct(vs),
                    forall|a: VertexId, b: VertexId| #[trigger]
                        self.bucket(a, b) == partly_between(vs, v as int, j as int, a, b),
                    forall|i: int| 0 <= i < out@.len() ==> (#[trigger] out@[i]).idx@ <= MAX_INDEX,
                decreases out@.len() - j,
            {
                let e = out[j];
                proof {
                    lemma_partly_fresh(vs, v as int, j as int);
                    lemma_partly_short(vs, v as int, j as int, e.other);
                    assert(VertexId::at(v as nat) == s);
                }
                self.on_link(s, e.other, e.idx);
                proof {
                    assert forall|a: VertexId, b: VertexId| #[trigger]
                        self.bucket(a, b) == partly_between(vs, v as int, j + 1, a, b) by {
                        lemma_partly_step(vs, v as int, j as int, a, b);
                    }
                }
                j = j + 1;
            }
            proof {
                assert forall|a: VertexId, b: VertexId| #[trigger]
                    self.bucket(a, b) == edges_between(vs.take(v + 1), a, b) by {
                    lemma_partly_all(vs, v as int, a, b);
                }
            }
            v = v + 1;
        }
        assert(vs.take(v as int) =~= vs);
    }
}

/// Of the two indexes, one is kept and the other is not.
pub proof fn which_lookups_are_kept()
    ensures
        !NoLookup::ENABLED,
        EHash::ENABLED,
{
}

/// The edges from `a` to `b` among the first `v` blocks and the first `j`
/// out-entries of block `v`.
spec fn partly_between(
    vs: Seq<BlockView>,
    v: int,
    j: int,
    a: VertexId,
    b: VertexId,
) -> Seq<EdgeId> {
    if a@ == v {
        vs[v].out.take(j).filter(|e: super::entry::AdjEntry| e.other == b).map_values(
            |e: super::entry::AdjEntry| e.idx,
        )
    } else {
        edges_between(vs.take(v), a, b)
    }
}

proof fn lemma_partly_none(vs: Seq<BlockView>, v: int, a: VertexId, b: VertexId)
    requires
        0 <= v < vs.len(),
    ensures
        partly_between(vs, v, 0, a, b) == edges_between(vs.take(v), a, b),
{
    reveal(Seq::filter);
    let p = |e: super::entry::AdjEntry| e.other == b;
    assert(vs[v].out.take(0) =~= Seq::empty());
    assert(vs[v].out.take(0).filter(p) =~= Seq::empty());
    assert(partly_between(vs, v, 0, a, b) =~= edges_between(vs.take(v), a, b));
}

proof fn lemma_partly_step(vs: Seq<BlockView>, v: int, j: int, a: VertexId, b: VertexId)
    requires
        0 <= v < vs.len(),
        0 <= j < vs[v].out.len(),
    ensures
        partly_between(vs, v, j + 1, a, b) == (if a@ == v && vs[v].out[j].other == b {
            partly_between(vs, v, j, a, b).push(vs[v].out[j].idx)
        } else {
            partly_between(vs, v, j, a, b)
        }),
{
    reveal(Seq::filter);
    let p = |e: super::entry::AdjEntry| e.other == b;
    let f = |e: super::entry::AdjEntry| e.idx;
    assert(vs[v].out.take(j + 1).drop_last() =~= vs[v].out.take(j));
    let kept = vs[v].out.take(j).filter(p);
    if vs[v].out[j].other == b {
        assert(vs[v].out.take(j + 1).filter(p) == kept.push(vs[v].out[j]));
        assert(kept.push(vs[v].out[j]).map_values(f) =~= kept.map_values(f).push(vs[v].out[j].idx));
    }
}

proof fn lemma_partly_all(vs: Seq<BlockView>, v: int, a: VertexId, b: VertexId)
    requires
        0 <= v < vs.len(),
    ensures
        partly_between(vs, v, vs[v].out.len() as int, a, b) == edges_between(vs.take(v + 1), a, b),
{
    assert(vs[v].out.take(vs[v].out.len() as int) =~= vs[v].out);
}

/// The edge of the next entry is not among those read before it.
proof fn lemma_partly_fresh(vs: Seq<BlockView>, v: int, j: int)
    requires
        0 <= v < vs.len(),
        0 <= j < vs[v].out.len(),
        out_entries_distinct(vs),
    ensures
        forall|a: VertexId, b: VertexId|
            !(#[trigger] partly_between(vs, v, j, a, b)).contains(vs[v].out[j].idx),
{
    let id = vs[v].out[j].idx;
    assert forall|a: VertexId, b: VertexId|
        !(#[trigger] partly_between(vs, v, j, a, b)).contains(id) by {
        let p = |e: super::entry::AdjEntry| e.other == b;
        let got = partly_between(vs, v, j, a, b);
        if got.contains(id) {
            let k = choose|k: int| 0 <= k < got.len() && got[k] == id;
            if a@ == v {
                let from = vs[v].out.take(j);
                from.lemma_filter_contains_rev(p, from.filter(p)[k]);
                let i = choose|i: int| 0 <= i < from.len() && from[i] == from.filter(p)[k];
                assert(vs[v].out[i].idx == vs[v].out[j].idx);
            } else {
                let w = a@ as int;
                let from = vs.take(v)[w].out;
                from.lemma_filter_contains_rev(p, from.filter(p)[k]);
                let i = choose|i: int| 0 <= i < from.len() && from[i] == from.filter(p)[k];
                assert(vs[w].out[i].idx == vs[v].out[j].idx);
            }
        }
    }
}

/// Fewer edges of one pair have been read than entries.
proof fn lemma_partly_short(vs: Seq<BlockView>, v: int, j: int, b: VertexId)
    requires
        0 <= v < vs.len(),
        0 <= j < vs[v].out.len(),
    ensures
        forall|a: VertexId|
            a@ == v ==> (#[trigger] partly_between(vs, v, j, a, b)).len() <= j,
{
    let p = |e: super::entry::AdjEntry| e.other == b;
    vs[v].out.take(j).lemma_filter_len(p);
}

} // verus!
