//! What the views show of an edge, said of its stored endpoints: which
//! incidences a vertex has, and what a lookup finds.

use vstd::prelude::*;

use super::filtered::{Filter, Filtered};
use super::reversed::Rev;
use super::undirected::Und;
use crate::adj::entry::{EdgeRef, Incident};
use crate::adj::{AdjList, Lookup};
use crate::graph::{Bidirectional, EdgeList, Endpoints, GraphBase, GraphRef, VertexList};
use crate::ids::{EdgeId, VertexId, MAX_INDEX};

verus! {

/// The incidences of a vertex are its edges: an out-incidence for every edge
/// that is stored as leaving it, an in-incidence for every edge stored as
/// entering it, each once and with the neighbour as its other end; and all of
/// them are the out-incidences followed by the in-incidences.
pub proof fn incidences_are_the_stored_edges<'g, H: Lookup>(g: &'g AdjList<H>, v: VertexId)
    requires
        g.wf(),
    ensures
        forall|i: Incident| #[trigger]
            g.out_list(v).contains(i) <==> g.ends_of(i.edge) == Some((v, i.other)),
        forall|i: Incident| #[trigger]
            g.in_list(v).contains(i) <==> g.ends_of(i.edge) == Some((i.other, v)),
        forall|j: int, k: int|
            0 <= j < k < g.out_list(v).len() ==> (#[trigger] g.out_list(v)[j]).edge != (
            #[trigger] g.out_list(v)[k]).edge,
        forall|j: int, k: int|
            0 <= j < k < g.in_list(v).len() ==> (#[trigger] g.in_list(v)[j]).edge != (
            #[trigger] g.in_list(v)[k]).edge,
        g.all_list(v) == g.out_list(v) + g.in_list(v),
{
    broadcast use crate::ids::id_is_its_index;

    g.wf_topology();
    let t = g.topology();
    let b = t.block(v);
    let out = g.out_list(v);
    let inc = g.in_list(v);
    crate::adj::laws::incidences_are_anchored(t, v);
    assert forall|i: Incident| #[trigger] out.contains(i) <==> g.ends_of(i.edge) == Some(
        (v, i.other),
    ) by {
        if out.contains(i) {
            let k = choose|k: int| 0 <= k < out.len() && out[k] == i;
            assert(t.ends_of(b.out[k].idx) == Some((v, b.out[k].other)));
        }
        if g.ends_of(i.edge) == Some((v, i.other)) {
            assert(t.ends.contains_key(i.edge));
            let k = choose|k: int|
                0 <= k < t.block(v).out.len() && (#[trigger] t.block(v).out[k]).idx == i.edge;
            assert(t.ends_of(b.out[k].idx) == Some((v, b.out[k].other)));
            assert(out[k] == i);
        }
    }
    assert forall|i: Incident| #[trigger] inc.contains(i) <==> g.ends_of(i.edge) == Some(
        (i.other, v),
    ) by {
        if inc.contains(i) {
            let k = choose|k: int| 0 <= k < inc.len() && inc[k] == i;
            assert(t.ends_of(b.inc[k].idx) == Some((b.inc[k].other, v)));
        }
        if g.ends_of(i.edge) == Some((i.other, v)) {
            assert(t.ends.contains_key(i.edge));
            let k = choose|k: int|
                0 <= k < t.block(v).inc.len() && (#[trigger] t.block(v).inc[k]).idx == i.edge;
            assert(t.ends_of(b.inc[k].idx) == Some((b.inc[k].other, v)));
            assert(inc[k] == i);
        }
    }
    assert forall|j: int, k: int| 0 <= j < k < out.len() implies (#[trigger] out[j]).edge != (
    #[trigger] out[k]).edge by {
        assert(t.blocks[v@ as int].out[j].idx == out[j].edge);
        assert(t.blocks[v@ as int].out[k].idx == out[k].edge);
    }
    assert forall|j: int, k: int| 0 <= j < k < inc.len() implies (#[trigger] inc[j]).edge != (
    #[trigger] inc[k]).edge by {
        assert(t.blocks[v@ as int].inc[j].idx == inc[j].edge);
        assert(t.blocks[v@ as int].inc[k].idx == inc[k].edge);
    }
    assert(g.all_list(v) =~= out + inc);
}

/// A reversed view shows every stored edge the other way round: it leaves its
/// stored target and enters its stored source.
pub proof fn reversed_incidences_are_the_edges_turned<'g, H: Lookup>(
    r: Rev<&'g AdjList<H>>,
    v: VertexId,
)
    requires
        r.wf(),
    ensures
        forall|i: Incident| #[trigger]
            r.out_list(v).contains(i) <==> r.forward().ends_of(i.edge) == Some((i.other, v)),
        forall|i: Incident| #[trigger]
            r.in_list(v).contains(i) <==> r.forward().ends_of(i.edge) == Some((v, i.other)),
        forall|i: Incident| #[trigger]
            r.out_list(v).contains(i) <==> r.ends_of(i.edge) == Some((v, i.other)),
        r.out_list(v).len() == r.forward().in_list(v).len(),
        r.in_list(v).len() == r.forward().out_list(v).len(),
        r.all_list(v) == r.in_list(v) + r.out_list(v),
{
    incidences_are_the_stored_edges(r.forward(), v);
}

/// An undirected view shows every stored edge at both its ends, whichever way
/// it is stored, and a self-loop twice at its one end.
pub proof fn undirected_incidences_are_the_edges_both_ways<'g, H: Lookup>(
    u: Und<&'g AdjList<H>>,
    v: VertexId,
)
    requires
        u.wf(),
    ensures
        forall|i: Incident| #[trigger]
            u.out_list(v).contains(i) <==> u.directed().ends_of(i.edge) == Some((v, i.other))
                || u.directed().ends_of(i.edge) == Some((i.other, v)),
        u.out_list(v) == u.directed().out_list(v) + u.directed().in_list(v),
        u.all_list(v) == u.out_list(v),
{
    let g = u.directed();
    incidences_are_the_stored_edges(g, v);
    let (out, inc) = (g.out_list(v), g.in_list(v));
    assert forall|i: Incident| #[trigger] u.out_list(v).contains(i) <==> g.ends_of(i.edge) == Some(
        (v, i.other),
    ) || g.ends_of(i.edge) == Some((i.other, v)) by {
        lemma_either(out, inc, i);
    }
}

proof fn lemma_either<A>(a: Seq<A>, b: Seq<A>, x: A)
    ensures
        (a + b).contains(x) <==> a.contains(x) || b.contains(x),
{
    let all = a + b;
    if all.contains(x) {
        let k = choose|k: int| 0 <= k < all.len() && all[k] == x;
        if k < a.len() {
            assert(a[k] == x);
        } else {
            assert(b[k - a.len()] == x);
        }
    }
    if a.contains(x) {
        let k = choose|k: int| 0 <= k < a.len() && a[k] == x;
        assert(all[k] == x);
    }
    if b.contains(x) {
        let k = choose|k: int| 0 <= k < b.len() && b[k] == x;
        assert(all[a.len() + k] == x);
    }
}

/// Looking up an edge from `s` to `t` succeeds exactly where an edge is stored
/// so, that is, where some out-incidence of `s` has `t` as its other end, and
/// then gives such an edge.
pub proof fn lookup_finds_a_stored_edge<'g, H: Lookup>(
    g: &'g AdjList<H>,
    s: VertexId,
    t: VertexId,
)
    requires
        g.wf(),
    ensures
        g.first_edge(s, t) is Some <==> exists|id: EdgeId| #[trigger]
            g.ends_of(id) == Some((s, t)),
        g.first_edge(s, t) is Some <==> exists|i: Incident| #[trigger]
            g.out_list(s).contains(i) && i.other == t,
        g.first_edge(s, t) matches Some(e) ==> e@.src == s && e@.tgt == t && g.ends_of(e@.id)
            == Some((s, t)),
{
    g.wf_topology();
    let top = g.topology();
    crate::adj::laws::finding_finds_an_edge(top, s, t);
    incidences_are_the_stored_edges(g, s);
    if exists|id: EdgeId| #[trigger] g.ends_of(id) == Some((s, t)) {
        let id = choose|id: EdgeId| #[trigger] g.ends_of(id) == Some((s, t));
        assert(top.ends.contains_key(id));
        assert(g.out_list(s).contains(Incident { other: t, edge: id }));
    }
    if g.first_edge(s, t) is Some {
        let id = g.first_edge(s, t)->0@.id;
        assert(g.ends_of(id) == Some((s, t)));
    }
    if exists|i: Incident| #[trigger] g.out_list(s).contains(i) && i.other == t {
        let i = choose|i: Incident| #[trigger] g.out_list(s).contains(i) && i.other == t;
        assert(g.ends_of(i.edge) == Some((s, t)));
    }
}

/// Looking up an edge in a reversed view finds one exactly where an edge is
/// stored the other way, that is, where some out-incidence of `s` has `t` as
/// its other end, and gives it turned round.
pub proof fn reversed_lookup_finds_a_turned_edge<'g, H: Lookup>(
    r: Rev<&'g AdjList<H>>,
    s: VertexId,
    t: VertexId,
)
    requires
        r.wf(),
    ensures
        r.first_edge(s, t) is Some <==> exists|id: EdgeId| #[trigger]
            r.forward().ends_of(id) == Some((t, s)),
        r.first_edge(s, t) is Some <==> exists|i: Incident| #[trigger]
            r.out_list(s).contains(i) && i.other == t,
        r.first_edge(s, t) matches Some(e) ==> e@.src == s && e@.tgt == t && r.ends_of(e@.id)
            == Some((s, t)) && r.forward().ends_of(e@.id) == Some((t, s)),
{
    let g = r.forward();
    lookup_finds_a_stored_edge(g, t, s);
    reversed_incidences_are_the_edges_turned(r, s);
    if exists|id: EdgeId| #[trigger] g.ends_of(id) == Some((t, s)) {
        let id = choose|id: EdgeId| #[trigger] g.ends_of(id) == Some((t, s));
        assert(r.out_list(s).contains(Incident { other: t, edge: id }));
    }
    if exists|i: Incident| #[trigger] r.out_list(s).contains(i) && i.other == t {
        let i = choose|i: Incident| #[trigger] r.out_list(s).contains(i) && i.other == t;
        assert(g.ends_of(i.edge) == Some((t, s)));
    }
}

/// Looking up an edge in an undirected view finds one exactly where a live edge
/// joins the two vertices, in either stored orientation, that is, where some
/// incidence of `s` has `t` as its other end. The hit keeps its stored
/// endpoints, and one that is stored from `s` to `t` goes first. So it does not
/// matter which end is named first for there to be a hit.
pub proof fn undirected_lookup_finds_an_edge_either_way<'g, H: Lookup>(
    u: Und<&'g AdjList<H>>,
    s: VertexId,
    t: VertexId,
)
    requires
        u.wf(),
    ensures
        u.first_edge(s, t) is Some <==> exists|id: EdgeId| #[trigger]
            u.directed().ends_of(id) == Some((s, t)) || u.directed().ends_of(id) == Some((t, s)),
        u.first_edge(s, t) is Some <==> exists|i: Incident| #[trigger]
            u.out_list(s).contains(i) && i.other == t,
        u.first_edge(s, t) matches Some(e) ==> {
            &&& u.directed().ends_of(e@.id) == Some((e@.src, e@.tgt))
            &&& u.ends_of(e@.id) == Some((e@.src, e@.tgt))
            &&& (e@.src, e@.tgt) == (s, t) || (e@.src, e@.tgt) == (t, s)
            &&& (e@.src, e@.tgt) == (s, t) || forall|id: EdgeId| #[trigger]
                u.directed().ends_of(id) != Some((s, t))
        },
        u.first_edge(s, t) is Some <==> u.first_edge(t, s) is Some,
{
    let g = u.directed();
    lookup_finds_a_stored_edge(g, s, t);
    lookup_finds_a_stored_edge(g, t, s);
    undirected_incidences_are_the_edges_both_ways(u, s);
    if exists|id: EdgeId| #[trigger]
        g.ends_of(id) == Some((s, t)) || g.ends_of(id) == Some((t, s)) {
        let id = choose|id: EdgeId| #[trigger]
            g.ends_of(id) == Some((s, t)) || g.ends_of(id) == Some((t, s));
        assert(u.out_list(s).contains(Incident { other: t, edge: id }));
    }
    if exists|i: Incident| #[trigger] u.out_list(s).contains(i) && i.other == t {
        let i = choose|i: Incident| #[trigger] u.out_list(s).contains(i) && i.other == t;
        assert(g.ends_of(i.edge) == Some((s, t)) || g.ends_of(i.edge) == Some((t, s)));
    }
    if u.first_edge(s, t) is Some {
        let id = u.first_edge(s, t)->0@.id;
        assert(g.ends_of(id) == Some((s, t)) || g.ends_of(id) == Some((t, s)));
    }
}

/// The vertices of a graph are all those below its count, in order, and the
/// count is also the bound of their indices.
pub proof fn the_vertices_are_counted_off<'g, H: Lookup>(g: &'g AdjList<H>)
    requires
        g.wf(),
    ensures
        g.vertex_list().len() == g.vertex_count(),
        g.vertex_slots() == g.vertex_count(),
        g.vertex_count() <= MAX_INDEX + 1,
        forall|k: int|
            0 <= k < g.vertex_list().len() ==> (#[trigger] g.vertex_list()[k])@ == k,
{
    broadcast use crate::ids::id_at;

    g.wf_topology();
}

/// The edges of a graph are its stored edges, each once, with their stored
/// endpoints; every one has its index below the bound and its ends among the
/// vertices, and those of an earlier source come first.
pub proof fn the_edges_are_the_stored_ones<'g, H: Lookup>(g: &'g AdjList<H>)
    requires
        g.wf(),
    ensures
        g.edge_list().len() == g.edge_count(),
        forall|e: EdgeRef| #[trigger]
            g.edge_list().contains(e) <==> g.ends_of(e@.id) == Some((e@.src, e@.tgt)),
        forall|j: int, k: int|
            0 <= j < k < g.edge_list().len() ==> (#[trigger] g.edge_list()[j])@.id != (
            #[trigger] g.edge_list()[k])@.id,
        forall|j: int, k: int|
            0 <= j < k < g.edge_list().len() ==> (#[trigger] g.edge_list()[j])@.src@ <= (
            #[trigger] g.edge_list()[k])@.src@,
        forall|id: EdgeId|
            (#[trigger] g.ends_of(id)) matches Some((s, t)) ==> id@ < g.edge_slots() && s@
                < g.vertex_count() && t@ < g.vertex_count(),
{
    g.wf_topology();
    g.edges_are_counted();
    let top = g.topology();
    crate::adj::laws::the_edge_list_has_every_edge_once(top);
    let l = g.edge_list();
    let ids = crate::adj::laws::edge_idents(l);
    assert forall|e: EdgeRef| #[trigger] l.contains(e) <==> g.ends_of(e@.id) == Some(
        (e@.src, e@.tgt),
    ) by {
        if l.contains(e) {
            let k = choose|k: int| 0 <= k < l.len() && l[k] == e;
            assert(top.ends.contains_key(l[k]@.id));
        }
        if g.ends_of(e@.id) == Some((e@.src, e@.tgt)) {
            assert(ids.contains(e@.id));
            let k = choose|k: int| 0 <= k < ids.len() && ids[k] == e@.id;
            assert(l[k]@.id == e@.id);
            crate::adj::entry::edge_ref_is_its_view(l[k], e);
        }
    }
    assert forall|j: int, k: int| 0 <= j < k < l.len() implies (#[trigger] l[j])@.id != (
    #[trigger] l[k])@.id by {
        assert(ids[j] != ids[k]);
    }
    lemma_sources_rise(top.blocks, 0);
    assert forall|id: EdgeId| (#[trigger] g.ends_of(id)) matches Some((s, t)) ==> id@
        < g.edge_slots() && s@ < g.vertex_count() && t@ < g.vertex_count() by {
        if g.ends_of(id) is Some {
            assert(top.ends.contains_key(id));
            assert(g.space().is_live(id));
        }
    }
}

proof fn lemma_sources_rise(b: Seq<crate::adj::block::BlockView>, v: int)
    requires
        0 <= v <= b.len() <= MAX_INDEX + 1,
    ensures
        ({
            let l = crate::adj::iter::edges_from(b, v, 0);
            &&& forall|k: int| 0 <= k < l.len() ==> (#[trigger] l[k])@.src@ >= v
            &&& forall|j: int, k: int|
                0 <= j < k < l.len() ==> (#[trigger] l[j])@.src@ <= (#[trigger] l[k])@.src@
        }),
    decreases b.len() - v,
{
    broadcast use crate::ids::id_at;

    if v < b.len() {
        lemma_sources_rise(b, v + 1);
        let here = crate::adj::iter::leaving(b, v, 0);
        let later = crate::adj::iter::edges_from(b, v + 1, 0);
        let l = crate::adj::iter::edges_from(b, v, 0);
        assert forall|k: int| 0 <= k < l.len() implies (#[trigger] l[k])@.src@ >= v && (k
            < here.len() ==> l[k]@.src@ == v) && (k >= here.len() ==> l[k]@.src@ > v) by {
            if k < here.len() {
                assert(l[k] == here[k]);
            } else {
                assert(l[k] == later[k - here.len()]);
            }
        }
        assert forall|j: int, k: int| 0 <= j < k < l.len() implies (#[trigger] l[j])@.src@ <= (
        #[trigger] l[k])@.src@ by {
            if j >= here.len() {
                assert(l[j] == later[j - here.len()]);
                assert(l[k] == later[k - here.len()]);
            }
        }
    }
}

/// The end of an edge across from `v`: the other of its two ends, which for a
/// self-loop is the same, and none where `v` is no end of it. Going across
/// twice comes back.
pub proof fn the_end_across_is_the_other_one(s: VertexId, t: VertexId, v: VertexId)
    ensures
        crate::graph::across(Some((s, t)), s) == Some(t),
        crate::graph::across(Some((s, t)), t) == Some(s),
        v != s && v != t ==> crate::graph::across(Some((s, t)), v) is None,
        crate::graph::across(None, v) is None,
        crate::graph::across(Some((s, t)), v) matches Some(w) ==> crate::graph::across(
            Some((s, t)),
            w,
        ) == Some(v),
{
}

/// Where `p` and `q` agree they filter alike.
proof fn lemma_same_filter<A>(s: Seq<A>, p: spec_fn(A) -> bool, q: spec_fn(A) -> bool)
    requires
        forall|a: A| #[trigger] p(a) == q(a),
    ensures
        s.filter(p) == s.filter(q),
{
    assert(p =~= q);
}

/// A filtered view has what its filter keeps and nothing else, in the order of
/// the view underneath: a vertex where the filter keeps it, an edge where the
/// filter keeps it and both its ends, and an incidence where the filter keeps
/// the edge and the neighbour. Its counts are of those.
pub proof fn a_filter_keeps_what_it_says<G: GraphRef + VertexList + EdgeList, F: Filter>(
    x: Filtered<G, F>,
    v: VertexId,
)
    requires
        x.wf(),
    ensures
        x.vertex_list() == x.under().vertex_list().filter(|u: VertexId| x.sieve().keeps_v(u)),
        x.edge_list() == x.under().edge_list().filter(
            |e: EdgeRef|
                x.sieve().keeps_e(e@.id) && x.sieve().keeps_v(e@.src) && x.sieve().keeps_v(e@.tgt),
        ),
        x.out_list(v) == x.under().out_list(v).filter(
            |i: Incident| x.sieve().keeps_e(i.edge) && x.sieve().keeps_v(i.other),
        ),
        x.all_list(v) == x.under().all_list(v).filter(
            |i: Incident| x.sieve().keeps_e(i.edge) && x.sieve().keeps_v(i.other),
        ),
        x.vertex_count() == x.vertex_list().len(),
        x.edge_count() == x.edge_list().len(),
        x.vertex_slots() == x.under().vertex_slots(),
        x.edge_slots() == x.under().edge_slots(),
{
    let f = x.sieve();
    f.trivial_keeps_all();
    lemma_same_filter(
        x.under().vertex_list(),
        |u: VertexId| super::filtered::vertex_kept(f, u),
        |u: VertexId| f.keeps_v(u),
    );
    lemma_same_filter(
        x.under().edge_list(),
        |e: EdgeRef| super::filtered::edge_kept(f, e),
        |e: EdgeRef| f.keeps_e(e@.id) && f.keeps_v(e@.src) && f.keeps_v(e@.tgt),
    );
    let p = |i: Incident| super::filtered::incident_kept(f, i);
    let q = |i: Incident| f.keeps_e(i.edge) && f.keeps_v(i.other);
    lemma_same_filter(x.under().out_list(v), p, q);
    lemma_same_filter(x.under().all_list(v), p, q);
}

/// A reversed view has the vertices of the graph underneath, and its edges one
/// for one with their ends exchanged.
pub proof fn a_reversed_view_turns_every_edge<G: EdgeList + VertexList + Endpoints>(
    r: Rev<G>,
    k: int,
    e: EdgeId,
) where G: crate::dir::HasDir<Dir = crate::dir::Directed>
    ensures
        r.vertex_list() == r.forward().vertex_list(),
        r.edge_list().len() == r.forward().edge_list().len(),
        0 <= k < r.edge_list().len() ==> r.edge_list()[k]@.id == r.forward().edge_list()[k]@.id
            && r.edge_list()[k]@.src == r.forward().edge_list()[k]@.tgt && r.edge_list()[k]@.tgt
            == r.forward().edge_list()[k]@.src,
        r.ends_of(e) is Some <==> r.forward().ends_of(e) is Some,
        r.forward().ends_of(e) matches Some((s, t)) ==> r.ends_of(e) == Some((t, s)),
{
}

/// An undirected view has the vertices and the edges of the graph underneath,
/// in the same order and with their stored ends.
pub proof fn an_undirected_view_keeps_every_edge<G: EdgeList + VertexList + Endpoints>(
    u: Und<G>,
    e: EdgeId,
) where G: crate::dir::HasDir<Dir = crate::dir::Directed>
    ensures
        u.vertex_list() == u.directed().vertex_list(),
        u.edge_list() == u.directed().edge_list(),
        u.ends_of(e) == u.directed().ends_of(e),
{
}

} // verus!
