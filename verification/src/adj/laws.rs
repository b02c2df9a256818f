//! What holds of every graph: laws that relate the operations.

use vstd::prelude::*;

use super::block::{BlockView, End};
use super::entry::{AdjEntry, EdgeRef};
use super::index::{EdgeSlot, Lookup};
use super::list::AdjList;
use super::topology::Topology;
use crate::ids::{EdgeId, Raw, VertexId, MAX_INDEX};

verus! {

/// Removing an edge right after adding it gives the graph back, every block in
/// the order it had.
pub proof fn removing_undoes_adding(g: Topology, id: EdgeId, s: VertexId, t: VertexId)
    requires
        g.wf(),
        g.has_vertex(s),
        g.has_vertex(t),
        !g.ends.contains_key(id),
    ensures
        g.link(id, s, t).unlink(id) == g,
{
    broadcast use crate::ids::id_is_its_index;

    let (v, w) = (s@ as int, t@ as int);
    let h = g.link(id, s, t);
    let back = h.unlink(id);
    let b = g.blocks[v];
    let c = g.blocks[w];
    assert(h.ends[id] == (s, t));
    assert forall|i: int| 0 <= i < b.out.len() implies (#[trigger] b.out[i]).idx != id by {
        assert(g.ends.contains_key(g.blocks[v].out[i].idx));
    }
    assert forall|i: int| 0 <= i < c.inc.len() implies (#[trigger] c.inc[i]).idx != id by {
        assert(g.ends.contains_key(g.blocks[w].inc[i].idx));
    }
    let e = AdjEntry { other: t, idx: id };
    let f = AdjEntry { other: s, idx: id };
    assert(h.blocks[v].out == b.out.push(e));
    assert(h.blocks[v].out[b.out.len() as int].idx == id);
    assert(super::topology::spot(h.blocks[v].out, id) == b.out.len());
    let half = h.unlink_out(id);
    assert(half[v].out =~= b.out);
    if v != w {
        assert(half[v].inc =~= b.inc);
        assert(half[w] == c.with_in(f));
        assert(half[w].inc[c.inc.len() as int].idx == id);
        assert(super::topology::spot(half[w].inc, id) == c.inc.len());
        assert(half[w].without_in(c.inc.len() as int) =~= c);
        assert(half[v] =~= b);
        assert(back.blocks =~= g.blocks);
    } else {
        let turned = b.with_out(e).inc;
        assert(h.blocks[v].inc == turned.push(f));
        assert(half[v].inc =~= seq![f] + turned);
        assert(half[v].inc[0].idx == id);
        assert forall|i: int| 0 < i < half[v].inc.len() implies (#[trigger] half[v].inc[i]).idx
            != id by {
            assert(half[v].inc[i] == turned[i - 1]);
            if i - 1 == b.inc.len() - 1 {
                assert(turned[i - 1] == b.inc[0]);
            } else {
                assert(turned[i - 1] == b.inc[i]);
            }
        }
        assert(super::topology::spot(half[v].inc, id) == 0);
        assert(half[v].without_in(0).inc =~= b.inc);
        assert(half[v].without_in(0) =~= b);
        assert(back.blocks =~= g.blocks);
    }
    assert(back.ends =~= g.ends);
    if g.indexed {
        let bucket = g.pairs[(s, t)];
        let more = bucket.push(id);
        assert(!bucket.contains(id));
        assert(more[bucket.len() as int] == id);
        assert(more.index_of(id) == bucket.len()) by {
            let k = more.index_of(id);
            assert(0 <= k < more.len() && more[k] == id);
            if k < bucket.len() {
                assert(bucket[k] == id);
            }
        }
        assert(super::index::bucket_without(more, id) =~= bucket);
        assert(g.pairs.contains_key((s, t)));
        assert(back.pairs =~= g.pairs);
    }
    assert(back =~= g);
}

/// The identities of a run of edges.
pub open spec fn edge_idents(s: Seq<EdgeRef>) -> Seq<EdgeId> {
    s.map_values(|e: EdgeRef| e@.id)
}

/// The edges from vertex `v` on are those whose source is `v` or later, every
/// one once.
proof fn lemma_edges_from(g: Topology, v: int)
    requires
        g.wf(),
        0 <= v <= g.blocks.len(),
    ensures
        ({
            let l = super::iter::edges_from(g.blocks, v, 0);
            &&& edge_idents(l).no_duplicates()
            &&& forall|k: int|
                0 <= k < l.len() ==> g.ends.contains_key((#[trigger] l[k])@.id) && g.ends[l[k]@.id]
                    == (l[k]@.src, l[k]@.tgt) && l[k]@.src@ >= v
            &&& forall|id: EdgeId|
                g.ends.contains_key(id) && (#[trigger] g.ends[id]).0@ >= v ==> edge_idents(
                    l,
                ).contains(id)
            &&& l.len() + super::census::out_total(g.blocks.take(v)) == super::census::out_total(
                g.blocks,
            )
        }),
    decreases g.blocks.len() - v,
{
    broadcast use crate::ids::id_is_its_index;
    broadcast use crate::ids::id_at;

    let b = g.blocks;
    let l = super::iter::edges_from(b, v, 0);
    if v == b.len() {
        assert(b.take(v) =~= b);
    } else {
        lemma_edges_from(g, v + 1);
        super::census::lemma_totals_step(b, v);
        let here = super::iter::leaving(b, v, 0);
        let later = super::iter::edges_from(b, v + 1, 0);
        assert(l == here + later);
        assert forall|k: int| 0 <= k < l.len() implies g.ends.contains_key((#[trigger] l[k])@.id)
            && g.ends[l[k]@.id] == (l[k]@.src, l[k]@.tgt) && l[k]@.src@ >= v by {
            if k < here.len() {
                assert(l[k] == super::iter::edge_of(v, b[v].out[k]));
                assert(g.ends.contains_key(b[v].out[k].idx));
            } else {
                assert(l[k] == later[k - here.len()]);
            }
        }
        let ids = edge_idents(l);
        assert forall|i: int, j: int| 0 <= i < ids.len() && 0 <= j < ids.len() && i != j implies
            #[trigger] ids[i] != #[trigger] ids[j] by {
            if ids[i] == ids[j] {
                let n = here.len();
                if i < n && j < n {
                    assert(l[i] == super::iter::edge_of(v, b[v].out[i]));
                    assert(l[j] == super::iter::edge_of(v, b[v].out[j]));
                    assert(b[v].out[i].idx == b[v].out[j].idx);
                } else if i >= n && j >= n {
                    assert(edge_idents(later)[i - n] == edge_idents(later)[j - n]);
                } else if i < n {
                    assert(l[i] == super::iter::edge_of(v, b[v].out[i]));
                    assert(l[j] == later[j - n]);
                    assert(g.ends[l[i]@.id].0 == g.ends[l[j]@.id].0);
                } else {
                    assert(l[j] == super::iter::edge_of(v, b[v].out[j]));
                    assert(l[i] == later[i - n]);
                    assert(g.ends[l[i]@.id].0 == g.ends[l[j]@.id].0);
                }
            }
        }
        assert forall|id: EdgeId|
            g.ends.contains_key(id) && (#[trigger] g.ends[id]).0@ >= v implies ids.contains(id) by {
            if g.ends[id].0@ == v {
                let s = g.ends[id].0;
                let j = choose|j: int|
                    0 <= j < g.block(s).out.len() && (#[trigger] g.block(s).out[j]).idx == id;
                assert(here[j] == super::iter::edge_of(v, b[v].out[j]));
                assert(ids[j] == id);
            } else {
                let k = choose|k: int|
                    0 <= k < edge_idents(later).len() && edge_idents(later)[k] == id;
                assert(ids[here.len() + k] == id);
            }
        }
    }
}

/// The global edge list has every live edge exactly once, in its stored
/// orientation, and nothing else; it is as long as there are out-entries.
pub proof fn the_edge_list_has_every_edge_once(g: Topology)
    requires
        g.wf(),
    ensures
        ({
            let l = super::iter::edges_from(g.blocks, 0, 0);
            &&& edge_idents(l).no_duplicates()
            &&& forall|k: int|
                0 <= k < l.len() ==> g.ends.contains_key((#[trigger] l[k])@.id) && g.ends[l[k]@.id]
                    == (l[k]@.src, l[k]@.tgt)
            &&& forall|id: EdgeId| #[trigger]
                g.ends.contains_key(id) <==> edge_idents(l).contains(id)
            &&& l.len() == super::census::out_total(g.blocks)
        }),
{
    lemma_edges_from(g, 0);
    assert(g.blocks.take(0) =~= Seq::empty());
    let l = super::iter::edges_from(g.blocks, 0, 0);
    assert forall|id: EdgeId| #[trigger] g.ends.contains_key(id) <==> edge_idents(l).contains(
        id,
    ) by {
        if g.ends.contains_key(id) {
            assert(g.ends[id].0@ >= 0);
        }
        if edge_idents(l).contains(id) {
            let k = choose|k: int| 0 <= k < edge_idents(l).len() && edge_idents(l)[k] == id;
            assert(l[k]@.id == id);
        }
    }
}

/// The count of edges is the length of the edge list, the sum of the
/// out-degrees, and the sum of the in-degrees.
pub proof fn the_count_is_what_the_list_yields<H: Lookup>(g: AdjList<H>)
    requires
        g.wf(),
    ensures
        g.space().live() == super::iter::edges_from(g.topology().blocks, 0, 0).len(),
        g.space().live() == super::census::out_total(g.topology().blocks),
        g.space().live() == super::census::in_total(g.topology().blocks),
{
    g.wf_topology();
    g.wf_passes_the_audit();
    the_edge_list_has_every_edge_once(g.topology());
}

proof fn lemma_first_entry(run: Seq<AdjEntry>, v: VertexId)
    ensures
        super::topology::first_entry(run, v) is Some <==> exists|i: int|
            0 <= i < run.len() && (#[trigger] run[i]).other == v,
        super::topology::first_entry(run, v) matches Some(id) ==> exists|i: int|
            0 <= i < run.len() && (#[trigger] run[i]).other == v && run[i].idx == id,
    decreases run.len(),
{
    if run.len() > 0 && run[0].other != v {
        let rest = run.drop_first();
        lemma_first_entry(rest, v);
        if super::topology::first_entry(run, v) is Some {
            let i = choose|i: int| 0 <= i < rest.len() && (#[trigger] rest[i]).other == v
                && Some(rest[i].idx) == super::topology::first_entry(rest, v);
            assert(run[i + 1].other == v);
        }
        if exists|i: int| 0 <= i < run.len() && (#[trigger] run[i]).other == v {
            let i = choose|i: int| 0 <= i < run.len() && (#[trigger] run[i]).other == v;
            assert(rest[i - 1].other == v);
        }
    }
}

/// Finding an edge succeeds exactly where there is one, and gives one: whether
/// by the pair index or by scanning either half.
pub proof fn finding_finds_an_edge(g: Topology, s: VertexId, t: VertexId)
    requires
        g.wf(),
    ensures
        g.first_between(s, t) is Some <==> exists|id: EdgeId| #[trigger]
            g.ends.contains_key(id) && g.ends[id] == (s, t),
        g.first_between(s, t) matches Some(id) ==> g.ends.contains_key(id) && g.ends[id] == (s, t),
{
    broadcast use crate::ids::id_is_its_index;

    let by_out = super::topology::first_entry(g.block(s).out, t);
    let by_in = super::topology::first_entry(g.block(t).inc, s);
    lemma_first_entry(g.block(s).out, t);
    lemma_first_entry(g.block(t).inc, s);
    if by_out is Some {
        let id = by_out->0;
        let i = choose|i: int|
            0 <= i < g.block(s).out.len() && (#[trigger] g.block(s).out[i]).other == t && g.block(
                s,
            ).out[i].idx == id;
        assert(g.ends.contains_key(g.blocks[s@ as int].out[i].idx));
    }
    if by_in is Some {
        let id = by_in->0;
        let i = choose|i: int|
            0 <= i < g.block(t).inc.len() && (#[trigger] g.block(t).inc[i]).other == s && g.block(
                t,
            ).inc[i].idx == id;
        assert(g.ends.contains_key(g.blocks[t@ as int].inc[i].idx));
    }
    let bucket = g.pairs[(s, t)];
    if g.indexed && bucket.len() > 0 {
        assert(bucket.contains(bucket[0]));
    }
    if exists|id: EdgeId| #[trigger] g.ends.contains_key(id) && g.ends[id] == (s, t) {
        let id = choose|id: EdgeId| #[trigger] g.ends.contains_key(id) && g.ends[id] == (s, t);
        let i = choose|i: int|
            0 <= i < g.block(s).out.len() && (#[trigger] g.block(s).out[i]).idx == id;
        let j = choose|j: int|
            0 <= j < g.block(t).inc.len() && (#[trigger] g.block(t).inc[j]).idx == id;
        assert(g.blocks[s@ as int].out[i].other == t);
        assert(g.blocks[t@ as int].inc[j].other == s);
        assert(g.block(s).out[i].other == t);
        assert(g.block(t).inc[j].other == s);
        if g.indexed {
            assert(bucket.contains(id));
        }
    }
}

/// Every incidence of a vertex is anchored there: an out-entry's edge goes to
/// the neighbour it names, an in-entry's edge comes from it.
pub proof fn incidences_are_anchored(g: Topology, v: VertexId)
    requires
        g.wf(),
    ensures
        forall|j: int|
            0 <= j < g.block(v).out.len() ==> g.ends_of((#[trigger] g.block(v).out[j]).idx) == Some(
                (v, g.block(v).out[j].other),
            ),
        forall|j: int|
            0 <= j < g.block(v).inc.len() ==> g.ends_of((#[trigger] g.block(v).inc[j]).idx) == Some(
                (g.block(v).inc[j].other, v),
            ),
{
    broadcast use crate::ids::id_is_its_index;

    assert forall|j: int| 0 <= j < g.block(v).out.len() implies g.ends_of(
        (#[trigger] g.block(v).out[j]).idx,
    ) == Some((v, g.block(v).out[j].other)) by {
        assert(g.ends.contains_key(g.blocks[v@ as int].out[j].idx));
    }
    assert forall|j: int| 0 <= j < g.block(v).inc.len() implies g.ends_of(
        (#[trigger] g.block(v).inc[j]).idx,
    ) == Some((g.block(v).inc[j].other, v)) by {
        assert(g.ends.contains_key(g.blocks[v@ as int].inc[j].idx));
    }
}

/// The slot that reading the entries before `(v, j)` leaves of slot `i`.
spec fn partly_read(b: Seq<BlockView>, s: Seq<EdgeSlot>, v: int, j: int, i: int) -> EdgeSlot {
    let out = super::census::reached_out(b, s, v, j)[i];
    let inc = super::census::reached_in(b, s, v, j)[i];
    EdgeSlot {
        src: if out || inc {
            s[i].src
        } else {
            VertexId::at(0)
        },
        tgt: if out || inc {
            s[i].tgt
        } else {
            VertexId::at(0)
        },
        out_pos: if out {
            s[i].out_pos
        } else {
            Raw::MAX
        },
        in_pos: if inc {
            s[i].in_pos
        } else {
            Raw::MAX
        },
    }
}

proof fn lemma_read_entries(b: Seq<BlockView>, s: Seq<EdgeSlot>, start: Seq<EdgeSlot>, v: int, j: nat)
    requires
        super::consistency::agree(b, s),
        0 <= v < b.len(),
        j <= b[v].len(),
        start.len() == s.len(),
        forall|i: int| 0 <= i < s.len() ==> #[trigger] start[i] == partly_read(b, s, v, 0, i),
    ensures
        ({
            let now = super::index::read_entries(start, b[v], VertexId::at(v as nat), j);
            &&& now.len() == s.len()
            &&& forall|i: int|
                0 <= i < s.len() ==> #[trigger] now[i] == partly_read(b, s, v, j as int, i)
        }),
    decreases j,
{
    broadcast use crate::ids::id_is_its_index;
    broadcast use crate::ids::id_at;
    reveal(super::consistency::agree);

    if j > 0 {
        lemma_read_entries(b, s, start, v, (j - 1) as nat);
        let k = j - 1;
        let e = b[v].all()[k];
        let at = e.idx@ as int;
        if k < b[v].out.len() {
            assert(super::consistency::out_agrees(b, s, v, k, b[v].out[k]));
            assert(e == b[v].out[k]);
        } else {
            let m = k - b[v].out.len();
            assert(super::consistency::in_agrees(b, s, v, b[v].out.len() + m, b[v].inc[m]));
            assert(e == b[v].inc[m]);
        }
        let before = super::index::read_entries(start, b[v], VertexId::at(v as nat), (j - 1) as nat);
        let now = super::index::read_entries(start, b[v], VertexId::at(v as nat), j);
        assert forall|i: int| 0 <= i < s.len() implies #[trigger] now[i] == partly_read(
            b,
            s,
            v,
            j as int,
            i,
        ) by {
            assert(before[i] == partly_read(b, s, v, k, i));
            if i != at {
                assert(now[i] == before[i]);
                if k < b[v].out.len() {
                    assert(!(s[i].is_live() && s[i].src@ == v && s[i].out_pos == k));
                } else {
                    assert(!(s[i].is_live() && s[i].tgt@ == v && s[i].in_pos == k));
                }
            }
        }
    }
}

proof fn lemma_read_blocks(b: Seq<BlockView>, s: Seq<EdgeSlot>, v: int)
    requires
        super::consistency::agree(b, s),
        b.len() <= MAX_INDEX + 1,
        0 <= v <= b.len(),
    ensures
        ({
            let blank = Seq::new(s.len(), |i: int| EdgeSlot::dead());
            let now = super::index::read_blocks(blank, b.take(v));
            &&& now.len() == s.len()
            &&& forall|i: int| 0 <= i < s.len() ==> #[trigger] now[i] == partly_read(b, s, v, 0, i)
        }),
    decreases v,
{
    let blank = Seq::new(s.len(), |i: int| EdgeSlot::dead());
    if v == 0 {
        assert(b.take(0) =~= Seq::empty());
    } else {
        lemma_read_blocks(b, s, v - 1);
        assert(b.take(v).drop_last() =~= b.take(v - 1));
        assert(b.take(v).last() == b[v - 1]);
        let start = super::index::read_blocks(blank, b.take(v - 1));
        lemma_read_entries(b, s, start, v - 1, b[v - 1].len());
        super::census::lemma_reach_next(b, s, v - 1);
    }
}

/// The slot table that reading the blocks gives an index space of `bound` slots.
pub open spec fn rebuilt(b: Seq<BlockView>, bound: nat) -> Seq<EdgeSlot> {
    super::index::read_blocks(Seq::new(bound, |i: int| EdgeSlot::dead()), b)
}

/// Whether every entry is of an edge below `bound`.
pub open spec fn entries_below(b: Seq<BlockView>, bound: nat) -> bool {
    forall|v: int, j: int|
        0 <= v < b.len() && 0 <= j < b[v].len() ==> (#[trigger] b[v].all()[j]).idx@ < bound
}

/// Whether some entry is of edge `id`.
pub open spec fn has_entry(b: Seq<BlockView>, id: EdgeId) -> bool {
    exists|v: int, j: int|
        0 <= v < b.len() && 0 <= j < b[v].len() && (#[trigger] b[v].all()[j]).idx == id
}

/// A table cut or filled up to `bound` slots.
spec fn resized(s: Seq<EdgeSlot>, bound: nat) -> Seq<EdgeSlot> {
    Seq::new(
        bound,
        |i: int|
            if i < s.len() {
                s[i]
            } else {
                EdgeSlot::dead()
            },
    )
}

/// A table that agrees with the blocks still does once it has been resized,
/// and says the same, as long as every entry's edge is below the bound.
proof fn lemma_resized(b: Seq<BlockView>, s: Seq<EdgeSlot>, bound: nat)
    requires
        super::consistency::agree(b, s),
        entries_below(b, bound),
    ensures
        super::consistency::agree(b, resized(s, bound)),
        forall|k: int|
            0 <= k < s.len() && (#[trigger] s[k]).is_live() ==> k < bound,
{
    reveal(super::consistency::agree);
    let r = resized(s, bound);
    assert forall|v: int, j: int| 0 <= v < b.len() && 0 <= j < b[v].out.len() implies
        super::consistency::out_agrees(b, r, v, j, #[trigger] b[v].out[j]) by {
        assert(super::consistency::out_agrees(b, s, v, j, b[v].out[j]));
        assert(b[v].all()[j] == b[v].out[j]);
    }
    assert forall|v: int, j: int| 0 <= v < b.len() && 0 <= j < b[v].inc.len() implies
        super::consistency::in_agrees(b, r, v, b[v].out.len() + j, #[trigger] b[v].inc[j]) by {
        assert(super::consistency::in_agrees(b, s, v, b[v].out.len() + j, b[v].inc[j]));
        assert(b[v].all()[b[v].out.len() + j] == b[v].inc[j]);
    }
    assert forall|k: int| 0 <= k < s.len() && (#[trigger] s[k]).is_live() implies k < bound by {
        assert(super::consistency::has_out(b, s[k], k));
        let x = s[k].src@ as int;
        assert(b[x].all()[s[k].out_pos as int] == b[x].out[s[k].out_pos as int]);
    }
    assert forall|k: int| 0 <= k < r.len() && (#[trigger] r[k]).is_live() implies {
        &&& r[k].src@ < b.len()
        &&& r[k].tgt@ < b.len()
        &&& super::consistency::has_out(b, r[k], k)
        &&& super::consistency::has_in(b, r[k], k)
    } by {
        assert(k < s.len() && r[k] == s[k]);
    }
}

/// Rebuilding the slot table from the blocks reproduces any table that agrees
/// with them, for every bound above the entries and whatever was there before:
/// it has the same live edges, the same slot for each, hence the same endpoints
/// and places, and nothing of an edge without an entry. Where the bound is the
/// table's own length and its holes are blank, it is the same table.
pub proof fn rebuilding_reproduces_the_table(b: Seq<BlockView>, s: Seq<EdgeSlot>, bound: nat)
    requires
        super::consistency::agree(b, s),
        b.len() <= MAX_INDEX + 1,
        entries_below(b, bound),
    ensures
        rebuilt(b, bound).len() == bound,
        super::index::holes_are_blank(rebuilt(b, bound)),
        forall|id: EdgeId| #[trigger]
            super::index::live_in(rebuilt(b, bound), id) == super::index::live_in(s, id),
        forall|id: EdgeId| #[trigger]
            super::index::live_in(s, id) ==> rebuilt(b, bound)[id@ as int] == s[id@ as int],
        forall|id: EdgeId| #[trigger]
            super::index::ends_in(rebuilt(b, bound), id) == super::index::ends_in(s, id),
        forall|id: EdgeId, end: End| #[trigger]
            super::index::located(rebuilt(b, bound), b, id, end) == super::index::located(
                s,
                b,
                id,
                end,
            ),
        forall|id: EdgeId|
            !has_entry(b, id) ==> #[trigger] super::index::ends_in(rebuilt(b, bound), id) is None,
        bound == s.len() && super::index::holes_are_blank(s) ==> rebuilt(b, bound) == s,
{
    broadcast use crate::ids::id_is_its_index;

    lemma_resized(b, s, bound);
    let r = resized(s, bound);
    let n = b.len() as int;
    let now = rebuilt(b, bound);
    lemma_read_blocks(b, r, n);
    assert(b.take(n) =~= b);
    assert(Seq::new(r.len(), |i: int| EdgeSlot::dead()) =~= Seq::new(
        bound,
        |i: int| EdgeSlot::dead(),
    ));
    assert forall|i: int| 0 <= i < bound implies #[trigger] now[i] == (if r[i].is_live() {
        r[i]
    } else {
        EdgeSlot::dead()
    }) by {
        assert(now[i] == partly_read(b, r, n, 0, i));
        if r[i].is_live() {
            reveal(super::consistency::agree);
            assert(super::consistency::has_out(b, r[i], i));
            assert(super::consistency::has_in(b, r[i], i));
        }
    }
    assert forall|id: EdgeId| #[trigger] super::index::live_in(now, id) == super::index::live_in(
        s,
        id,
    ) by {}
    assert forall|id: EdgeId| !has_entry(b, id) implies #[trigger] super::index::ends_in(
        now,
        id,
    ) is None by {
        if super::index::live_in(s, id) {
            reveal(super::consistency::agree);
            let slot = s[id@ as int];
            assert(super::consistency::has_out(b, slot, id@ as int));
            let x = slot.src@ as int;
            assert(b[x].all()[slot.out_pos as int] == b[x].out[slot.out_pos as int]);
            assert(b[x].all()[slot.out_pos as int].idx == id);
        }
    }
    if bound == s.len() && super::index::holes_are_blank(s) {
        assert(now =~= s);
    }
}

proof fn lemma_read_prefix(s: Seq<EdgeSlot>, b: BlockView, v: VertexId, j: nat, m: int)
    requires
        0 <= m <= s.len(),
    ensures
        super::index::read_entries(s, b, v, j).len() == s.len(),
        super::index::read_entries(s.take(m), b, v, j) == super::index::read_entries(
            s,
            b,
            v,
            j,
        ).take(m),
    decreases j,
{
    if j > 0 {
        lemma_read_prefix(s, b, v, (j - 1) as nat, m);
        assert(super::index::read_entries(s.take(m), b, v, j) =~= super::index::read_entries(
            s,
            b,
            v,
            j,
        ).take(m));
    }
}

proof fn lemma_blocks_prefix(s: Seq<EdgeSlot>, b: Seq<BlockView>, m: int)
    requires
        0 <= m <= s.len(),
    ensures
        super::index::read_blocks(s, b).len() == s.len(),
        super::index::read_blocks(s.take(m), b) == super::index::read_blocks(s, b).take(m),
    decreases b.len(),
{
    if b.len() > 0 {
        lemma_blocks_prefix(s, b.drop_last(), m);
        lemma_read_prefix(
            super::index::read_blocks(s, b.drop_last()),
            b.last(),
            VertexId::at((b.len() - 1) as nat),
            b.last().len(),
            m,
        );
    }
}

/// Rebuilding for a smaller index space drops the entries outside it and
/// nothing else: what is left of the table is what a larger one begins with.
pub proof fn rebuilding_drops_what_is_outside(b: Seq<BlockView>, small: nat, large: nat)
    requires
        small <= large,
    ensures
        rebuilt(b, small) == rebuilt(b, large).take(small as int),
{
    let blank = Seq::new(large, |i: int| EdgeSlot::dead());
    lemma_blocks_prefix(blank, b, small as int);
    assert(blank.take(small as int) =~= Seq::new(small, |i: int| EdgeSlot::dead()));
}

/// Rebuilding reproduces the table that the operations of a graph have kept,
/// for every bound above the entries.
pub proof fn rebuilding_reproduces_the_kept_table<H: Lookup>(g: AdjList<H>, bound: nat)
    requires
        g.wf(),
        entries_below(g.topology().blocks, bound),
    ensures
        forall|id: EdgeId| #[trigger]
            super::index::ends_in(rebuilt(g.topology().blocks, bound), id)
                == g.topology().ends_of(id),
        forall|id: EdgeId, end: End| #[trigger]
            super::index::located(
                rebuilt(g.topology().blocks, bound),
                g.topology().blocks,
                id,
                end,
            ) == super::index::located(g.table(), g.topology().blocks, id, end),
        bound == g.table().len() ==> rebuilt(g.topology().blocks, bound) == g.table(),
{
    let b = g.topology().blocks;
    rebuilding_reproduces_the_table(b, g.table(), bound);
    assert forall|id: EdgeId| #[trigger] super::index::ends_in(rebuilt(b, bound), id)
        == g.topology().ends_of(id) by {
        assert(super::index::ends_in(g.table(), id) == g.topology().ends_of(id));
    }
}

/// Rebuilding the pair index from the blocks gives every pair the edges that
/// the operations have kept for it, each once, whatever their order.
pub proof fn rebuilding_reproduces_the_pairs(g: Topology, s: VertexId, t: VertexId)
    requires
        g.wf(),
        g.indexed,
    ensures
        super::index::out_entries_distinct(g.blocks),
        super::index::edges_between(g.blocks, s, t).no_duplicates(),
        forall|id: EdgeId| #[trigger]
            super::index::edges_between(g.blocks, s, t).contains(id) <==> g.pairs[(s, t)].contains(
                id,
            ),
{
    broadcast use crate::ids::id_is_its_index;

    let b = g.blocks;
    assert forall|v: int, i: int, w: int, j: int|
        0 <= v < b.len() && 0 <= i < b[v].out.len() && 0 <= w < b.len() && 0 <= j < b[w].out.len()
            && (#[trigger] b[v].out[i]).idx == (#[trigger] b[w].out[j]).idx implies v == w && i
        == j by {
        assert(g.ends[b[v].out[i].idx].0@ == v);
        assert(g.ends[b[w].out[j].idx].0@ == w);
    }
    let got = super::index::edges_between(b, s, t);
    if s@ < b.len() {
        let v = s@ as int;
        let p = |e: AdjEntry| e.other == t;
        let kept = b[v].out.filter(p);
        crate::seqs::lemma_filter_keeps_order(b[v].out, p);
        assert forall|k: int, l: int| 0 <= k < got.len() && 0 <= l < got.len() && k != l implies
            #[trigger] got[k] != #[trigger] got[l] by {
            let (x, y) = (
                crate::seqs::filter_source(b[v].out, p, k),
                crate::seqs::filter_source(b[v].out, p, l),
            );
            if got[k] == got[l] {
                assert(b[v].out[x].idx == b[v].out[y].idx);
            }
        }
        assert forall|id: EdgeId| #[trigger] got.contains(id) <==> g.pairs[(s, t)].contains(id) by {
            if got.contains(id) {
                let k = choose|k: int| 0 <= k < got.len() && got[k] == id;
                let x = crate::seqs::filter_source(b[v].out, p, k);
                b[v].out.lemma_filter_pred(p, k);
                assert(b[v].out[x].idx == id);
                assert(g.ends[id] == (s, t));
            }
            if g.pairs[(s, t)].contains(id) {
                assert(g.ends.contains_key(id) && g.ends[id] == (s, t));
                let x = choose|x: int|
                    0 <= x < g.block(s).out.len() && (#[trigger] g.block(s).out[x]).idx == id;
                assert(b[v].out[x].idx == id);
                b[v].out.lemma_filter_contains(p, x);
                let k = choose|k: int| 0 <= k < kept.len() && kept[k] == b[v].out[x];
                assert(got[k] == id);
            }
        }
    } else {
        assert forall|id: EdgeId| #[trigger] got.contains(id) <==> g.pairs[(s, t)].contains(id) by {
            if g.pairs[(s, t)].contains(id) {
                assert(g.ends.contains_key(id) && g.ends[id] == (s, t));
            }
        }
    }
}

/// The halves of a self-loop lie in one block, at two different positions.
pub proof fn a_loop_has_two_places<H: Lookup>(g: AdjList<H>, id: EdgeId)
    requires
        g.wf(),
        g.topology().ends.contains_key(id),
    ensures
        ({
            let (s, t) = g.topology().ends[id];
            let out = super::index::located(g.table(), g.topology().blocks, id, End::Out);
            let inc = super::index::located(g.table(), g.topology().blocks, id, End::In);
            &&& out matches Some(o) && inc matches Some(i) && o.0 == s && i.0 == t && (s == t
                ==> o.1 != i.1)
        }),
{
    broadcast use crate::ids::id_is_its_index;
    reveal(super::consistency::agree);

    let b = g.topology().blocks;
    let slot = g.slots@[id@ as int];
    assert(super::consistency::has_out(b, slot, id@ as int));
    assert(super::consistency::has_in(b, slot, id@ as int));
    let sb = b[slot.src@ as int];
    let tb = b[slot.tgt@ as int];
    assert(sb.all()[slot.out_pos as int] == sb.out[slot.out_pos as int]);
    assert(tb.all()[slot.in_pos as int] == tb.inc[slot.in_pos - tb.out.len()]);
}

} // verus!
