//! Linking and unlinking an edge: what they keep, and what one undoes of the
//! other.

use vstd::prelude::*;

use super::entry::AdjEntry;
use super::index::Lookup;
use super::list::AdjList;
use super::topology::Topology;
use crate::ids::{EdgeId, VertexId, MAX_INDEX};

verus! {

/// No two entries of a half are of one edge.
spec fn distinct(half: Seq<AdjEntry>) -> bool {
    forall|i: int, j: int|
        0 <= i < half.len() && 0 <= j < half.len() && (#[trigger] half[i]).idx == (
        #[trigger] half[j]).idx ==> i == j
}

/// Whether the edge of `e` leaves vertex `x` for the entry's other end.
spec fn leaves(g: Topology, x: int, e: AdjEntry) -> bool {
    g.ends.contains_key(e.idx) && g.ends[e.idx].0@ == x && g.ends[e.idx].1 == e.other
}

/// Whether the edge of `e` enters vertex `x` from the entry's other end.
spec fn enters(g: Topology, x: int, e: AdjEntry) -> bool {
    g.ends.contains_key(e.idx) && g.ends[e.idx].1@ == x && g.ends[e.idx].0 == e.other
}

/// The halves hold what the endpoints say, and nothing twice.
spec fn halves_match(g: Topology) -> bool {
    &&& forall|x: int, e: AdjEntry|
        0 <= x < g.blocks.len() ==> (#[trigger] g.blocks[x].out.contains(e) <==> leaves(g, x, e))
    &&& forall|x: int, e: AdjEntry|
        0 <= x < g.blocks.len() ==> (#[trigger] g.blocks[x].inc.contains(e) <==> enters(g, x, e))
    &&& forall|x: int|
        0 <= x < g.blocks.len() ==> distinct((#[trigger] g.blocks[x]).out) && distinct(
            g.blocks[x].inc,
        )
}

/// Every edge has its ends among the vertices, and an index in range.
spec fn ends_match(g: Topology) -> bool {
    forall|id: EdgeId| #[trigger]
        g.ends.contains_key(id) ==> g.has_vertex(g.ends[id].0) && g.has_vertex(g.ends[id].1)
            && id@ <= MAX_INDEX
}

/// The pair index holds every edge once, under its own pair.
spec fn pairs_match(g: Topology) -> bool {
    &&& forall|p: (VertexId, VertexId)| #[trigger] g.pairs.contains_key(p)
    &&& forall|p: (VertexId, VertexId)| (#[trigger] g.pairs[p]).no_duplicates()
    &&& forall|p: (VertexId, VertexId), id: EdgeId| #[trigger]
        g.pairs[p].contains(id) <==> g.indexed && g.ends.contains_key(id) && g.ends[id] == p
}

proof fn lemma_wf_matches(g: Topology)
    requires
        g.wf(),
    ensures
        halves_match(g),
        ends_match(g),
        pairs_match(g),
{
    broadcast use crate::ids::id_is_its_index;

    assert forall|x: int, e: AdjEntry| 0 <= x < g.blocks.len() implies (
    #[trigger] g.blocks[x].out.contains(e) <==> leaves(g, x, e)) by {
        let half = g.blocks[x].out;
        if half.contains(e) {
            let j = choose|j: int| 0 <= j < half.len() && half[j] == e;
            assert(g.ends.contains_key(g.blocks[x].out[j].idx));
        }
        if leaves(g, x, e) {
            let s = g.ends[e.idx].0;
            let j = choose|j: int|
                0 <= j < g.block(s).out.len() && (#[trigger] g.block(s).out[j]).idx == e.idx;
            assert(g.blocks[x].out[j].other == e.other);
            assert(half[j] == e);
        }
    }
    assert forall|x: int, e: AdjEntry| 0 <= x < g.blocks.len() implies (
    #[trigger] g.blocks[x].inc.contains(e) <==> enters(g, x, e)) by {
        let half = g.blocks[x].inc;
        if half.contains(e) {
            let j = choose|j: int| 0 <= j < half.len() && half[j] == e;
            assert(g.ends.contains_key(g.blocks[x].inc[j].idx));
        }
        if enters(g, x, e) {
            let t = g.ends[e.idx].1;
            let j = choose|j: int|
                0 <= j < g.block(t).inc.len() && (#[trigger] g.block(t).inc[j]).idx == e.idx;
            assert(g.blocks[x].inc[j].other == e.other);
            assert(half[j] == e);
        }
    }
    assert forall|p: (VertexId, VertexId)| #[trigger] g.pairs.contains_key(p) by {
        assert(g.pairs[p].no_duplicates());
    }
}

proof fn lemma_matches_wf(g: Topology)
    requires
        g.blocks.len() <= MAX_INDEX + 1,
        halves_match(g),
        ends_match(g),
        pairs_match(g),
    ensures
        g.wf(),
{
    assert forall|v: int, j: int| 0 <= v < g.blocks.len() && 0 <= j < g.blocks[v].out.len() implies {
        let e = #[trigger] g.blocks[v].out[j];
        &&& g.ends.contains_key(e.idx)
        &&& g.ends[e.idx].0@ == v
        &&& g.ends[e.idx].1 == e.other
    } by {
        assert(g.blocks[v].out.contains(g.blocks[v].out[j]));
    }
    assert forall|v: int, j: int| 0 <= v < g.blocks.len() && 0 <= j < g.blocks[v].inc.len() implies {
        let e = #[trigger] g.blocks[v].inc[j];
        &&& g.ends.contains_key(e.idx)
        &&& g.ends[e.idx].1@ == v
        &&& g.ends[e.idx].0 == e.other
    } by {
        assert(g.blocks[v].inc.contains(g.blocks[v].inc[j]));
    }
    assert forall|id: EdgeId| #[trigger] g.ends.contains_key(id) implies {
        let (s, t) = g.ends[id];
        &&& g.has_vertex(s)
        &&& g.has_vertex(t)
        &&& id@ <= MAX_INDEX
        &&& exists|j: int| 0 <= j < g.block(s).out.len() && (#[trigger] g.block(s).out[j]).idx == id
        &&& exists|j: int| 0 <= j < g.block(t).inc.len() && (#[trigger] g.block(t).inc[j]).idx == id
    } by {
        let (s, t) = g.ends[id];
        let e = AdjEntry { other: t, idx: id };
        let f = AdjEntry { other: s, idx: id };
        assert(g.blocks[s@ as int].out.contains(e));
        assert(g.blocks[t@ as int].inc.contains(f));
        let i = choose|i: int| 0 <= i < g.block(s).out.len() && g.block(s).out[i] == e;
        let j = choose|j: int| 0 <= j < g.block(t).inc.len() && g.block(t).inc[j] == f;
        assert(g.block(s).out[i].idx == id);
        assert(g.block(t).inc[j].idx == id);
    }
    assert forall|v: int, i: int, j: int|
        0 <= v < g.blocks.len() && 0 <= i < g.blocks[v].out.len() && 0 <= j < g.blocks[v].out.len()
            && (#[trigger] g.blocks[v].out[i]).idx == (#[trigger] g.blocks[v].out[j]).idx implies i
        == j by {
        assert(distinct(g.blocks[v].out));
    }
    assert forall|v: int, i: int, j: int|
        0 <= v < g.blocks.len() && 0 <= i < g.blocks[v].inc.len() && 0 <= j < g.blocks[v].inc.len()
            && (#[trigger] g.blocks[v].inc[i]).idx == (#[trigger] g.blocks[v].inc[j]).idx implies i
        == j by {
        assert(distinct(g.blocks[v].inc));
    }
}

/// A half with one entry more.
proof fn lemma_pushed(half: Seq<AdjEntry>, e: AdjEntry)
    requires
        distinct(half),
        forall|f: AdjEntry| #[trigger] half.contains(f) ==> f.idx != e.idx,
    ensures
        distinct(half.push(e)),
        forall|f: AdjEntry| #[trigger] half.push(e).contains(f) <==> half.contains(f) || f == e,
{
    let more = half.push(e);
    assert forall|i: int| 0 <= i < half.len() implies (#[trigger] more[i]).idx != e.idx by {
        assert(half.contains(half[i]));
    }
    assert forall|i: int, j: int|
        0 <= i < more.len() && 0 <= j < more.len() && (#[trigger] more[i]).idx == (
        #[trigger] more[j]).idx implies i == j by {
        if i < half.len() && j < half.len() {
            assert(half[i].idx == half[j].idx);
        }
    }
    assert forall|f: AdjEntry| #[trigger] more.contains(f) <==> half.contains(f) || f == e by {
        if half.contains(f) {
            let k = choose|k: int| 0 <= k < half.len() && half[k] == f;
            assert(more[k] == f);
        }
        if f == e {
            assert(more[half.len() as int] == f);
        }
        if more.contains(f) {
            let k = choose|k: int| 0 <= k < more.len() && more[k] == f;
            if k < half.len() {
                assert(half[k] == f);
            }
        }
    }
}

/// A half whose first entry went to its back, or whose last went to its front.
proof fn lemma_turned(half: Seq<AdjEntry>)
    requires
        distinct(half),
        half.len() > 0,
    ensures
        ({
            let back = half.drop_first().push(half[0]);
            &&& distinct(back)
            &&& forall|f: AdjEntry| #[trigger] back.contains(f) <==> half.contains(f)
        }),
        ({
            let front = seq![half.last()] + half.drop_last();
            &&& distinct(front)
            &&& forall|f: AdjEntry| #[trigger] front.contains(f) <==> half.contains(f)
        }),
{
    let n = half.len() as int;
    let back = half.drop_first().push(half[0]);
    let front = seq![half.last()] + half.drop_last();
    assert forall|i: int| 0 <= i < n implies #[trigger] back[i] == half[if i == n - 1 {
        0
    } else {
        i + 1
    }] by {}
    assert forall|i: int| 0 <= i < n implies #[trigger] front[i] == half[if i == 0 {
        n - 1
    } else {
        i - 1
    }] by {}
    assert forall|f: AdjEntry| #[trigger] back.contains(f) <==> half.contains(f) by {
        if half.contains(f) {
            let k = choose|k: int| 0 <= k < n && half[k] == f;
            if k == 0 {
                assert(back[n - 1] == f);
            } else {
                assert(back[k - 1] == f);
            }
        }
    }
    assert forall|f: AdjEntry| #[trigger] front.contains(f) <==> half.contains(f) by {
        if half.contains(f) {
            let k = choose|k: int| 0 <= k < n && half[k] == f;
            if k == n - 1 {
                assert(front[0] == f);
            } else {
                assert(front[k + 1] == f);
            }
        }
    }
}

/// A half without the entry of one edge, the last entry in its place.
proof fn lemma_without(half: Seq<AdjEntry>, at: int)
    requires
        distinct(half),
        0 <= at < half.len(),
    ensures
        ({
            let less = half.update(at, half.last()).drop_last();
            &&& distinct(less)
            &&& forall|f: AdjEntry| #[trigger]
                less.contains(f) <==> half.contains(f) && f.idx != half[at].idx
        }),
{
    let n = half.len() as int;
    let less = half.update(at, half.last()).drop_last();
    assert forall|i: int| 0 <= i < n - 1 implies #[trigger] less[i] == half[if i == at {
        n - 1
    } else {
        i
    }] by {}
    assert forall|f: AdjEntry| #[trigger] less.contains(f) <==> half.contains(f) && f.idx
        != half[at].idx by {
        if less.contains(f) {
            let k = choose|k: int| 0 <= k < less.len() && less[k] == f;
            let from = if k == at {
                n - 1
            } else {
                k
            };
            assert(half[from] == f);
        }
        if half.contains(f) && f.idx != half[at].idx {
            let k = choose|k: int| 0 <= k < n && half[k] == f;
            if k == n - 1 {
                assert(less[at] == f);
            } else {
                assert(less[k] == f);
            }
        }
    }
}

/// The place of an edge that a half has an entry of.
proof fn lemma_spot(half: Seq<AdjEntry>, e: AdjEntry)
    requires
        half.contains(e),
    ensures
        ({
            let at = super::topology::spot(half, e.idx);
            0 <= at < half.len() && half[at].idx == e.idx
        }),
{
    let j = choose|j: int| 0 <= j < half.len() && half[j] == e;
    assert(half[j].idx == e.idx);
}

/// Linking an edge under an identifier that is not live keeps the graph well
/// formed.
pub proof fn linking_keeps_it_well_formed(g: Topology, id: EdgeId, s: VertexId, t: VertexId)
    requires
        g.wf(),
        g.has_vertex(s),
        g.has_vertex(t),
        !g.ends.contains_key(id),
        id@ <= MAX_INDEX,
    ensures
        g.link(id, s, t).wf(),
{
    lemma_wf_matches(g);
    assert(g.blocks.len() <= MAX_INDEX + 1);
    lemma_linked(g, id, s, t);
    lemma_matches_wf(g.link(id, s, t));
}

proof fn lemma_linked(g: Topology, id: EdgeId, s: VertexId, t: VertexId)
    requires
        halves_match(g),
        ends_match(g),
        pairs_match(g),
        g.has_vertex(s),
        g.has_vertex(t),
        !g.ends.contains_key(id),
        id@ <= MAX_INDEX,
    ensures
        halves_match(g.link(id, s, t)),
        ends_match(g.link(id, s, t)),
        pairs_match(g.link(id, s, t)),
{
    broadcast use crate::ids::id_is_its_index;

    let (v, w) = (s@ as int, t@ as int);
    let h = g.link(id, s, t);
    let e = AdjEntry { other: t, idx: id };
    let f = AdjEntry { other: s, idx: id };
    let half = g.link_out(id, s, t);
    assert forall|a: AdjEntry| #[trigger] g.blocks[v].out.contains(a) implies a.idx != id by {}
    lemma_pushed(g.blocks[v].out, e);
    if g.blocks[v].inc.len() > 0 {
        lemma_turned(g.blocks[v].inc);
    }
    assert forall|x: int, a: AdjEntry| 0 <= x < g.blocks.len() implies (
    #[trigger] half[x].inc.contains(a) <==> enters(g, x, a)) by {
        assert(g.blocks[x].inc.contains(a) <==> enters(g, x, a));
    }
    assert forall|x: int| 0 <= x < g.blocks.len() implies distinct((#[trigger] half[x]).inc) by {
        assert(distinct(g.blocks[x].inc));
    }
    assert forall|a: AdjEntry| #[trigger] half[w].inc.contains(a) implies a.idx != id by {}
    lemma_pushed(half[w].inc, f);
    assert forall|x: int, a: AdjEntry| 0 <= x < h.blocks.len() implies (
    #[trigger] h.blocks[x].out.contains(a) <==> leaves(h, x, a)) by {
        assert(g.blocks[x].out.contains(a) <==> leaves(g, x, a));
        assert(h.blocks[x].out == (if x == v { g.blocks[v].out.push(e) } else { g.blocks[x].out }));
    }
    assert forall|x: int, a: AdjEntry| 0 <= x < h.blocks.len() implies (
    #[trigger] h.blocks[x].inc.contains(a) <==> enters(h, x, a)) by {
        assert(half[x].inc.contains(a) <==> enters(g, x, a));
        assert(h.blocks[x].inc == (if x == w { half[w].inc.push(f) } else { half[x].inc }));
    }
    assert forall|x: int| 0 <= x < h.blocks.len() implies distinct((#[trigger] h.blocks[x]).out)
        && distinct(h.blocks[x].inc) by {
        assert(distinct(g.blocks[x].out));
        assert(distinct(half[x].inc));
    }
    let was = g.pairs[(s, t)];
    assert(was.no_duplicates());
    assert(!was.contains(id));
    assert forall|p: (VertexId, VertexId)| (#[trigger] h.pairs[p]).no_duplicates() by {
        assert(g.pairs[p].no_duplicates());
    }
    assert forall|p: (VertexId, VertexId), a: EdgeId| #[trigger]
        h.pairs[p].contains(a) <==> h.indexed && h.ends.contains_key(a) && h.ends[a] == p by {
        assert(g.pairs[p].no_duplicates());
        assert(g.pairs[p].contains(a) <==> g.indexed && g.ends.contains_key(a) && g.ends[a] == p);
        super::list::lemma_push_contains(was, id, a);
    }
}

/// Unlinking a live edge keeps the graph well formed.
pub proof fn unlinking_keeps_it_well_formed(g: Topology, id: EdgeId)
    requires
        g.wf(),
        g.ends.contains_key(id),
    ensures
        g.unlink(id).wf(),
{
    lemma_wf_matches(g);
    assert(g.blocks.len() <= MAX_INDEX + 1);
    lemma_unlinked(g, id);
    lemma_matches_wf(g.unlink(id));
}

proof fn lemma_unlinked(g: Topology, id: EdgeId)
    requires
        halves_match(g),
        ends_match(g),
        pairs_match(g),
        g.ends.contains_key(id),
    ensures
        halves_match(g.unlink(id)),
        ends_match(g.unlink(id)),
        pairs_match(g.unlink(id)),
{
    broadcast use crate::ids::id_is_its_index;

    let (s, t) = g.ends[id];
    let (v, w) = (s@ as int, t@ as int);
    let h = g.unlink(id);
    let e = AdjEntry { other: t, idx: id };
    let f = AdjEntry { other: s, idx: id };
    let half = g.unlink_out(id);
    assert(g.blocks[v].out.contains(e));
    lemma_spot(g.blocks[v].out, e);
    let p = super::topology::spot(g.blocks[v].out, id);
    assert(distinct(g.blocks[v].out));
    lemma_without(g.blocks[v].out, p);
    assert(distinct(g.blocks[v].inc));
    if g.blocks[v].inc.len() > 0 {
        lemma_turned(g.blocks[v].inc);
    }
    assert forall|x: int, a: AdjEntry| 0 <= x < g.blocks.len() implies (
    #[trigger] half[x].inc.contains(a) <==> enters(g, x, a)) by {
        assert(g.blocks[x].inc.contains(a) <==> enters(g, x, a));
    }
    assert forall|x: int| 0 <= x < g.blocks.len() implies distinct((#[trigger] half[x]).inc) by {
        assert(distinct(g.blocks[x].inc));
    }
    assert(half[w].inc.contains(f));
    lemma_spot(half[w].inc, f);
    let q = super::topology::spot(half[w].inc, id);
    lemma_without(half[w].inc, q);
    assert forall|x: int, a: AdjEntry| 0 <= x < h.blocks.len() implies (
    #[trigger] h.blocks[x].out.contains(a) <==> leaves(h, x, a)) by {
        assert(g.blocks[x].out.contains(a) <==> leaves(g, x, a));
        assert(x != v ==> h.blocks[x].out == g.blocks[x].out);
    }
    assert forall|x: int, a: AdjEntry| 0 <= x < h.blocks.len() implies (
    #[trigger] h.blocks[x].inc.contains(a) <==> enters(h, x, a)) by {
        assert(half[x].inc.contains(a) <==> enters(g, x, a));
        assert(x != w ==> h.blocks[x].inc == half[x].inc);
    }
    assert forall|x: int| 0 <= x < h.blocks.len() implies distinct((#[trigger] h.blocks[x]).out)
        && distinct(h.blocks[x].inc) by {
        assert(distinct(g.blocks[x].out));
        assert(distinct(half[x].inc));
    }
    let was = g.pairs[(s, t)];
    assert(was.no_duplicates());
    if g.indexed {
        assert(was.contains(id));
        super::list::lemma_bucket_without(was, id);
    }
    assert forall|x: (VertexId, VertexId)| (#[trigger] h.pairs[x]).no_duplicates() by {
        assert(g.pairs[x].no_duplicates());
    }
    assert forall|x: (VertexId, VertexId), a: EdgeId| #[trigger]
        h.pairs[x].contains(a) <==> h.indexed && h.ends.contains_key(a) && h.ends[a] == x by {
        assert(g.pairs[x].no_duplicates());
        assert(g.pairs[x].contains(a) <==> g.indexed && g.ends.contains_key(a) && g.ends[a] == x);
    }
}

/// Linking an unlinked edge again, under its identifier and between the ends it
/// had, gives back every endpoint and every degree. In between that edge alone
/// is gone. A self-loop is no exception.
pub proof fn relinking_undoes_unlinking(g: Topology, id: EdgeId)
    requires
        g.wf(),
        g.ends.contains_key(id),
    ensures
        ({
            let (s, t) = g.ends[id];
            let away = g.unlink(id);
            let back = away.link(id, s, t);
            &&& away.wf()
            &&& away.has_vertex(s) && away.has_vertex(t)
            &&& away.ends_of(id) is None
            &&& forall|e: EdgeId| e != id ==> #[trigger] away.ends_of(e) == g.ends_of(e)
            &&& back.wf()
            &&& back.ends == g.ends
            &&& back.indexed == g.indexed
            &&& back.blocks.len() == g.blocks.len()
            &&& forall|u: VertexId|
                g.has_vertex(u) ==> (#[trigger] back.block(u)).out.len() == g.block(u).out.len()
                    && back.block(u).inc.len() == g.block(u).inc.len()
        }),
{
    let (s, t) = g.ends[id];
    let away = g.unlink(id);
    let back = away.link(id, s, t);
    unlinking_keeps_it_well_formed(g, id);
    linking_keeps_it_well_formed(away, id, s, t);
    g.lemma_unlink_counts(id);
    away.lemma_link_counts(id, s, t);
    assert(back.ends =~= g.ends);
    assert forall|u: VertexId| g.has_vertex(u) implies (#[trigger] back.block(u)).out.len()
        == g.block(u).out.len() && back.block(u).inc.len() == g.block(u).inc.len() by {
        assert(away.has_vertex(u));
        assert(away.block(u).out.len() == g.block(u).out.len() - (if u == s { 1int } else { 0int }));
    }
}

/// An unlinked edge can be linked again between the ends it had: they are still
/// vertices, its identifier is not in use, and their blocks have room.
pub proof fn an_unlinked_edge_can_be_linked_again<H: Lookup>(
    g: AdjList<H>,
    id: EdgeId,
    away: AdjList<H>,
)
    requires
        g.wf(),
        g.topology().ends.contains_key(id),
        g.unlinks_to(id, away),
    ensures
        away.indexes_agree(),
        away.topology().ends_of(id) is None,
        !super::index::live_in(away.table(), id),
        id@ <= MAX_INDEX,
        away.topology().has_vertex(g.topology().ends[id].0),
        away.topology().has_vertex(g.topology().ends[id].1),
        away.topology().has_room(g.topology().ends[id].0, g.topology().ends[id].1),
{
    broadcast use crate::ids::id_is_its_index;

    g.wf_topology();
    let top = g.topology();
    let (s, t) = top.ends[id];
    relinking_undoes_unlinking(top, id);
    top.lemma_unlink_counts(id);
    super::consistency::lemma_block_fits(top.blocks, g.table(), s@ as int);
    super::consistency::lemma_block_fits(top.blocks, g.table(), t@ as int);
    assert(top.has_vertex(s) && top.has_vertex(t));
    assert(top.unlink(id).block(s).out.len() == top.block(s).out.len() - 1);
    assert(top.unlink(id).block(t).inc.len() == top.block(t).inc.len() - 1);
    assert(!away.topology().ends.contains_key(id));
}

/// Unlinking an edge of a graph and linking it again between the ends it had
/// leaves the endpoints of every edge, the count of edges, the index space and
/// the identity as they were. The graph that is left is well formed, so its
/// audit finds nothing.
pub proof fn relinking_gives_the_graph_back<H: Lookup>(
    g: AdjList<H>,
    id: EdgeId,
    away: AdjList<H>,
    back: AdjList<H>,
)
    requires
        g.wf(),
        g.topology().ends.contains_key(id),
        g.unlinks_to(id, away),
        away.links_to(id, g.topology().ends[id].0, g.topology().ends[id].1, back),
    ensures
        away.topology().ends_of(id) is None,
        forall|e: EdgeId|
            e != id ==> #[trigger] away.topology().ends_of(e) == g.topology().ends_of(e),
        back.topology().ends == g.topology().ends,
        back.topology().blocks.len() == g.topology().blocks.len(),
        back.space() == g.space(),
        back.identity() == g.identity(),
        back.wf(),
        back.shaped() && back.faultless(),
{
    g.wf_topology();
    let top = g.topology();
    relinking_undoes_unlinking(top, id);
    assert forall|e: EdgeId| #[trigger] super::index::live_in(back.table(), e)
        <==> g.space().is_live(e) by {
        assert(back.topology().ends.contains_key(e) <==> top.ends.contains_key(e));
    }
    back.wf_passes_the_audit();
}

} // verus!
