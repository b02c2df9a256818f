//! What a filtered view keeps, said of the bytes of the masks, and what a
//! lookup in one finds.

use vstd::prelude::*;

use super::filtered::{Filter, Filtered, KeepAll, MaskFilter};
use super::reversed::Rev;
use super::undirected::Und;
use crate::adj::entry::{EdgeRef, Incident};
use crate::adj::{AdjList, Lookup};
use crate::graph::{Bidirectional, EdgeList, Endpoints, GraphBase, GraphRef, VertexList};
use crate::ids::{EdgeId, VertexId};

verus! {

/// A byte mask keeps an index exactly where it has a byte for it that is not
/// zero.
pub proof fn a_mask_keeps_by_its_bytes<'m>(f: MaskFilter<'m>, v: VertexId, e: EdgeId)
    ensures
        f.keeps_v(v) <==> v@ < f.vertex_mask().len() && f.vertex_mask()[v@ as int] != 0,
        f.keeps_e(e) <==> e@ < f.edge_mask().len() && f.edge_mask()[e@ as int] != 0,
{
}

/// A masked view has the vertices whose byte is not zero, the edges whose byte
/// is not zero and both of whose ends have such a byte, and the incidences
/// whose edge and neighbour have one, in the order of the view underneath. Its
/// counts are of those.
pub proof fn a_masked_view_is_what_its_bytes_keep<'m, G: GraphRef + VertexList + EdgeList>(
    x: Filtered<G, MaskFilter<'m>>,
    u: VertexId,
)
    requires
        x.wf(),
    ensures
        x.vertex_list() == x.under().vertex_list().filter(
            |v: VertexId|
                v@ < x.sieve().vertex_mask().len() && x.sieve().vertex_mask()[v@ as int] != 0,
        ),
        x.vertex_count() == x.vertex_list().len(),
        x.edge_list() == x.under().edge_list().filter(
            |e: EdgeRef|
                e@.id@ < x.sieve().edge_mask().len() && x.sieve().edge_mask()[e@.id@ as int] != 0
                    && e@.src@ < x.sieve().vertex_mask().len()
                    && x.sieve().vertex_mask()[e@.src@ as int] != 0 && e@.tgt@
                    < x.sieve().vertex_mask().len() && x.sieve().vertex_mask()[e@.tgt@ as int] != 0,
        ),
        x.edge_count() == x.edge_list().len(),
        x.out_list(u) == x.under().out_list(u).filter(
            |i: Incident|
                i.edge@ < x.sieve().edge_mask().len() && x.sieve().edge_mask()[i.edge@ as int] != 0
                    && i.other@ < x.sieve().vertex_mask().len()
                    && x.sieve().vertex_mask()[i.other@ as int] != 0,
        ),
        x.all_list(u) == x.under().all_list(u).filter(
            |i: Incident|
                i.edge@ < x.sieve().edge_mask().len() && x.sieve().edge_mask()[i.edge@ as int] != 0
                    && i.other@ < x.sieve().vertex_mask().len()
                    && x.sieve().vertex_mask()[i.other@ as int] != 0,
        ),
{
    let f = x.sieve();
    let (vm, em) = (f.vertex_mask(), f.edge_mask());
    super::incidence::a_filter_keeps_what_it_says(x, u);
    let pv = |v: VertexId| f.keeps_v(v);
    let qv = |v: VertexId| v@ < vm.len() && vm[v@ as int] != 0;
    assert(pv =~= qv);
    let pe = |e: EdgeRef| f.keeps_e(e@.id) && f.keeps_v(e@.src) && f.keeps_v(e@.tgt);
    let qe = |e: EdgeRef|
        e@.id@ < em.len() && em[e@.id@ as int] != 0 && e@.src@ < vm.len() && vm[e@.src@ as int] != 0
            && e@.tgt@ < vm.len() && vm[e@.tgt@ as int] != 0;
    assert(pe =~= qe);
    let pi = |i: Incident| f.keeps_e(i.edge) && f.keeps_v(i.other);
    let qi = |i: Incident|
        i.edge@ < em.len() && em[i.edge@ as int] != 0 && i.other@ < vm.len() && vm[i.other@ as int]
            != 0;
    assert(pi =~= qi);
}

/// Membership in a masked view of a stored graph, index by index: a vertex of
/// the graph is in it exactly where its byte is not zero, and an edge exactly
/// where its own byte and those of its two ends are not. So a zero byte at an
/// index keeps nothing of that index, whatever the index.
pub proof fn a_zero_byte_keeps_nothing<'g, 'm, H: Lookup>(
    x: Filtered<&'g AdjList<H>, MaskFilter<'m>>,
    v: VertexId,
    e: EdgeRef,
)
    requires
        x.wf(),
    ensures
        x.vertex_list().contains(v) <==> v@ < x.under().vertex_count() && v@
            < x.sieve().vertex_mask().len() && x.sieve().vertex_mask()[v@ as int] != 0,
        x.edge_list().contains(e) <==> {
            &&& x.under().ends_of(e@.id) == Some((e@.src, e@.tgt))
            &&& e@.id@ < x.sieve().edge_mask().len() && x.sieve().edge_mask()[e@.id@ as int] != 0
            &&& e@.src@ < x.sieve().vertex_mask().len() && x.sieve().vertex_mask()[e@.src@ as int]
                != 0
            &&& e@.tgt@ < x.sieve().vertex_mask().len() && x.sieve().vertex_mask()[e@.tgt@ as int]
                != 0
        },
        x.ends_of(e@.id) is Some <==> (x.under().ends_of(e@.id) matches Some((s, t)) && {
            &&& e@.id@ < x.sieve().edge_mask().len() && x.sieve().edge_mask()[e@.id@ as int] != 0
            &&& s@ < x.sieve().vertex_mask().len() && x.sieve().vertex_mask()[s@ as int] != 0
            &&& t@ < x.sieve().vertex_mask().len() && x.sieve().vertex_mask()[t@ as int] != 0
        }),
        x.ends_of(e@.id) is Some ==> x.ends_of(e@.id) == x.under().ends_of(e@.id),
        v@ < x.sieve().vertex_mask().len() && x.sieve().vertex_mask()[v@ as int] == 0
            ==> !x.vertex_list().contains(v) && !(x.edge_list().contains(e) && (e@.src == v
            || e@.tgt == v)),
{
    broadcast use crate::ids::id_is_its_index;

    let g = x.under();
    let f = x.sieve();
    a_mask_keeps_by_its_bytes(f, v, e@.id);
    a_mask_keeps_by_its_bytes(f, e@.src, e@.id);
    a_mask_keeps_by_its_bytes(f, e@.tgt, e@.id);
    if x.under().ends_of(e@.id) is Some {
        let (s, t) = x.under().ends_of(e@.id)->0;
        a_mask_keeps_by_its_bytes(f, s, e@.id);
        a_mask_keeps_by_its_bytes(f, t, e@.id);
    }
    a_filtered_edge_keeps_its_ends(x, e@.id);
    super::incidence::a_filter_keeps_what_it_says(x, v);
    super::incidence::the_vertices_are_counted_off(g);
    super::incidence::the_edges_are_the_stored_ones(g);
    let l = g.vertex_list();
    let p = |u: VertexId| f.keeps_v(u);
    lemma_filter_contains(l, p, v);
    if v@ < g.vertex_count() {
        assert(l[v@ as int]@ == v@);
        assert(l.contains(v));
    }
    if l.contains(v) {
        let k = choose|k: int| 0 <= k < l.len() && l[k] == v;
        assert(l[k]@ == k);
    }
    let q = |d: EdgeRef| f.keeps_e(d@.id) && f.keeps_v(d@.src) && f.keeps_v(d@.tgt);
    lemma_filter_contains(g.edge_list(), q, e);
}

/// A filter keeps of a run what is in it and meets the predicate.
proof fn lemma_filter_contains<A>(s: Seq<A>, p: spec_fn(A) -> bool, a: A)
    ensures
        s.filter(p).contains(a) <==> s.contains(a) && p(a),
{
    if s.filter(p).contains(a) {
        let k = choose|k: int| 0 <= k < s.filter(p).len() && s.filter(p)[k] == a;
        s.lemma_filter_pred(p, k);
        s.lemma_filter_contains_rev(p, a);
    }
    if s.contains(a) && p(a) {
        let k = choose|k: int| 0 <= k < s.len() && s[k] == a;
        s.lemma_filter_contains(p, k);
    }
}

/// The filter that keeps everything leaves the view as it is.
pub proof fn keeping_all_changes_nothing<G: GraphRef + VertexList + EdgeList>(
    x: Filtered<G, KeepAll>,
    v: VertexId,
)
    requires
        x.wf(),
    ensures
        x.vertex_list() == x.under().vertex_list(),
        x.edge_list() == x.under().edge_list(),
        x.out_list(v) == x.under().out_list(v),
        x.all_list(v) == x.under().all_list(v),
        x.vertex_count() == x.under().vertex_count(),
        x.edge_count() == x.under().edge_count(),
{
    super::incidence::a_filter_keeps_what_it_says(x, v);
    let f = x.sieve();
    let g = x.under();
    g.vertices_are_counted();
    g.edges_are_counted();
    crate::seqs::lemma_filter_all(g.vertex_list(), |u: VertexId| f.keeps_v(u));
    crate::seqs::lemma_filter_all(
        g.edge_list(),
        |e: EdgeRef| f.keeps_e(e@.id) && f.keeps_v(e@.src) && f.keeps_v(e@.tgt),
    );
    let q = |i: Incident| f.keeps_e(i.edge) && f.keeps_v(i.other);
    crate::seqs::lemma_filter_all(g.out_list(v), q);
    crate::seqs::lemma_filter_all(g.all_list(v), q);
}

/// The in-edges of a filtered view are those whose edge and neighbour the
/// filter keeps.
pub proof fn a_filter_keeps_in_edges_alike<G: Bidirectional + VertexList + EdgeList, F: Filter>(
    x: Filtered<G, F>,
    v: VertexId,
)
    ensures
        x.in_list(v) == x.under().in_list(v).filter(
            |i: Incident| x.sieve().keeps_e(i.edge) && x.sieve().keeps_v(i.other),
        ),
{
    let f = x.sieve();
    f.trivial_keeps_all();
    let p = |i: Incident| super::filtered::incident_kept(f, i);
    let q = |i: Incident| f.keeps_e(i.edge) && f.keeps_v(i.other);
    assert(p =~= q);
}

/// A filtered view resolves an edge exactly where the view underneath does and
/// the filter keeps the edge and both its ends, and then to the same ends.
pub proof fn a_filtered_edge_keeps_its_ends<
    G: Endpoints + GraphRef + VertexList + EdgeList,
    F: Filter,
>(x: Filtered<G, F>, e: EdgeId)
    ensures
        x.ends_of(e) is Some <==> (x.under().ends_of(e) matches Some((s, t)) && x.sieve().keeps_e(
            e,
        ) && x.sieve().keeps_v(s) && x.sieve().keeps_v(t)),
        x.ends_of(e) is Some ==> x.ends_of(e) == x.under().ends_of(e),
{
    x.sieve().trivial_keeps_all();
}

/// What the first survivor of a run is.
proof fn lemma_first_kept<F: Filter>(f: F, run: Seq<Incident>, t: VertexId)
    ensures
        super::filtered::first_kept(f, run, t) is Some <==> exists|i: Incident| #[trigger]
            run.contains(i) && i.other == t && f.keeps_e(i.edge) && f.keeps_v(t),
        super::filtered::first_kept(f, run, t) matches Some(i) ==> run.contains(i) && i.other == t
            && f.keeps_e(i.edge) && f.keeps_v(t),
    decreases run.len(),
{
    f.trivial_keeps_all();
    if run.len() > 0 {
        let rest = run.drop_first();
        lemma_first_kept(f, rest, t);
        assert forall|i: Incident| #[trigger] run.contains(i) <==> i == run[0] || rest.contains(
            i,
        ) by {
            if run.contains(i) {
                let k = choose|k: int| 0 <= k < run.len() && run[k] == i;
                if k > 0 {
                    assert(rest[k - 1] == i);
                }
            }
            if rest.contains(i) {
                let k = choose|k: int| 0 <= k < rest.len() && rest[k] == i;
                assert(run[k + 1] == i);
            }
        }
        assert(run.contains(run[0]));
        if super::filtered::first_kept(f, run, t) is Some {
            let i = super::filtered::first_kept(f, run, t)->0;
            assert(run.contains(i) && i.other == t && f.keeps_e(i.edge) && f.keeps_v(t));
        }
        if exists|i: Incident| #[trigger]
            run.contains(i) && i.other == t && f.keeps_e(i.edge) && f.keeps_v(t) {
            let i = choose|i: Incident| #[trigger]
                run.contains(i) && i.other == t && f.keeps_e(i.edge) && f.keeps_v(t);
            if i != run[0] {
                assert(rest.contains(i));
            }
        }
    }
}

/// A lookup in a filtered view, given that one in the view underneath agrees
/// with its own incidences.
proof fn lemma_filtered_lookup<G: Endpoints + GraphRef + VertexList + EdgeList, F: Filter>(
    x: Filtered<G, F>,
    s: VertexId,
    t: VertexId,
)
    requires
        forall|i: Incident| #[trigger]
            x.under().out_list(s).contains(i) ==> x.under().ends_of(i.edge) is Some,
        x.under().first_edge(s, t) is Some <==> exists|i: Incident| #[trigger]
            x.under().out_list(s).contains(i) && i.other == t,
    ensures
        x.first_edge(s, t) is Some <==> exists|i: Incident| #[trigger]
            x.under().out_list(s).contains(i) && i.other == t && x.sieve().keeps_e(i.edge)
                && x.sieve().keeps_v(s) && x.sieve().keeps_v(t),
        !F::TRIVIAL ==> (x.first_edge(s, t) matches Some(e) ==> x.sieve().keeps_e(e@.id)
            && x.sieve().keeps_v(s) && x.sieve().keeps_v(t) && x.under().ends_of(e@.id) == Some(
            (e@.src, e@.tgt),
        ) && x.under().out_list(s).contains(Incident { other: t, edge: e@.id })),
        F::TRIVIAL ==> x.first_edge(s, t) == x.under().first_edge(s, t),
{
    let f = x.sieve();
    f.trivial_keeps_all();
    let run = x.under().out_list(s);
    lemma_first_kept(f, run, t);
    if !F::TRIVIAL && f.keeps_v(s) && super::filtered::first_kept(f, run, t) is Some {
        let i = super::filtered::first_kept(f, run, t)->0;
        assert(run.contains(i));
        assert(i == (Incident { other: t, edge: i.edge }));
    }
}

/// Looking up an edge in a filtered directed view finds one exactly where the
/// filter keeps both vertices and some edge that is stored from one to the
/// other, and gives such an edge: one that is filtered out hides no other.
pub proof fn filtered_lookup_finds_a_kept_edge<'g, H: Lookup, F: Filter>(
    x: Filtered<&'g AdjList<H>, F>,
    s: VertexId,
    t: VertexId,
)
    requires
        x.wf(),
    ensures
        x.first_edge(s, t) is Some <==> exists|id: EdgeId| #[trigger]
            x.under().ends_of(id) == Some((s, t)) && x.sieve().keeps_e(id) && x.sieve().keeps_v(s)
                && x.sieve().keeps_v(t),
        x.first_edge(s, t) matches Some(e) ==> (e@.src, e@.tgt) == (s, t) && x.under().ends_of(
            e@.id,
        ) == Some((s, t)) && x.sieve().keeps_e(e@.id),
{
    let g = x.under();
    let f = x.sieve();
    f.trivial_keeps_all();
    super::incidence::lookup_finds_a_stored_edge(g, s, t);
    super::incidence::incidences_are_the_stored_edges(g, s);
    lemma_filtered_lookup(x, s, t);
    if exists|id: EdgeId| #[trigger]
        g.ends_of(id) == Some((s, t)) && f.keeps_e(id) && f.keeps_v(s) && f.keeps_v(t) {
        let id = choose|id: EdgeId| #[trigger]
            g.ends_of(id) == Some((s, t)) && f.keeps_e(id) && f.keeps_v(s) && f.keeps_v(t);
        assert(g.out_list(s).contains(Incident { other: t, edge: id }));
    }
    if x.first_edge(s, t) is Some {
        let i = choose|i: Incident| #[trigger]
            g.out_list(s).contains(i) && i.other == t && f.keeps_e(i.edge) && f.keeps_v(s)
                && f.keeps_v(t);
        assert(g.ends_of(i.edge) == Some((s, t)));
    }
}

/// The same in a filtered reversed view, for the edges stored the other way.
pub proof fn filtered_reversed_lookup_finds_a_kept_edge<'g, H: Lookup, F: Filter>(
    x: Filtered<Rev<&'g AdjList<H>>, F>,
    s: VertexId,
    t: VertexId,
)
    requires
        x.wf(),
    ensures
        x.first_edge(s, t) is Some <==> exists|id: EdgeId| #[trigger]
            x.under().forward().ends_of(id) == Some((t, s)) && x.sieve().keeps_e(id)
                && x.sieve().keeps_v(s) && x.sieve().keeps_v(t),
        x.first_edge(s, t) matches Some(e) ==> (e@.src, e@.tgt) == (s, t)
            && x.under().forward().ends_of(e@.id) == Some((t, s)) && x.sieve().keeps_e(e@.id),
{
    let r = x.under();
    let g = r.forward();
    let f = x.sieve();
    f.trivial_keeps_all();
    super::incidence::reversed_lookup_finds_a_turned_edge(r, s, t);
    super::incidence::reversed_incidences_are_the_edges_turned(r, s);
    lemma_filtered_lookup(x, s, t);
    if exists|id: EdgeId| #[trigger]
        g.ends_of(id) == Some((t, s)) && f.keeps_e(id) && f.keeps_v(s) && f.keeps_v(t) {
        let id = choose|id: EdgeId| #[trigger]
            g.ends_of(id) == Some((t, s)) && f.keeps_e(id) && f.keeps_v(s) && f.keeps_v(t);
        assert(r.out_list(s).contains(Incident { other: t, edge: id }));
    }
    if x.first_edge(s, t) is Some {
        let i = choose|i: Incident| #[trigger]
            r.out_list(s).contains(i) && i.other == t && f.keeps_e(i.edge) && f.keeps_v(s)
                && f.keeps_v(t);
        assert(g.ends_of(i.edge) == Some((t, s)));
    }
}

/// The same in a filtered undirected view, for the edges stored either way.
pub proof fn filtered_undirected_lookup_finds_a_kept_edge<'g, H: Lookup, F: Filter>(
    x: Filtered<Und<&'g AdjList<H>>, F>,
    s: VertexId,
    t: VertexId,
)
    requires
        x.wf(),
    ensures
        x.first_edge(s, t) is Some <==> exists|id: EdgeId| #[trigger]
            x.under().directed().ends_of(id) is Some && (x.under().directed().ends_of(id) == Some(
                (s, t),
            ) || x.under().directed().ends_of(id) == Some((t, s))) && x.sieve().keeps_e(id)
                && x.sieve().keeps_v(s) && x.sieve().keeps_v(t),
        x.first_edge(s, t) is Some <==> x.first_edge(t, s) is Some,
        x.first_edge(s, t) matches Some(e) ==> ((e@.src, e@.tgt) == (s, t) || (e@.src, e@.tgt) == (
            t,
            s,
        )) && x.under().directed().ends_of(e@.id) == Some((e@.src, e@.tgt)) && x.sieve().keeps_e(
            e@.id,
        ),
{
    lemma_filtered_undirected(x, s, t);
    lemma_filtered_undirected(x, t, s);
}

proof fn lemma_filtered_undirected<'g, H: Lookup, F: Filter>(
    x: Filtered<Und<&'g AdjList<H>>, F>,
    s: VertexId,
    t: VertexId,
)
    requires
        x.wf(),
    ensures
        x.first_edge(s, t) is Some <==> exists|id: EdgeId| #[trigger]
            x.under().directed().ends_of(id) is Some && (x.under().directed().ends_of(id) == Some(
                (s, t),
            ) || x.under().directed().ends_of(id) == Some((t, s))) && x.sieve().keeps_e(id)
                && x.sieve().keeps_v(s) && x.sieve().keeps_v(t),
        x.first_edge(s, t) matches Some(e) ==> ((e@.src, e@.tgt) == (s, t) || (e@.src, e@.tgt) == (
            t,
            s,
        )) && x.under().directed().ends_of(e@.id) == Some((e@.src, e@.tgt)) && x.sieve().keeps_e(
            e@.id,
        ),
{
    let u = x.under();
    let g = u.directed();
    let f = x.sieve();
    f.trivial_keeps_all();
    super::incidence::undirected_lookup_finds_an_edge_either_way(u, s, t);
    super::incidence::undirected_incidences_are_the_edges_both_ways(u, s);
    lemma_filtered_lookup(x, s, t);
    if exists|id: EdgeId| #[trigger]
        g.ends_of(id) is Some && (g.ends_of(id) == Some((s, t)) || g.ends_of(id) == Some((t, s)))
            && f.keeps_e(id) && f.keeps_v(s) && f.keeps_v(t) {
        let id = choose|id: EdgeId| #[trigger]
            g.ends_of(id) is Some && (g.ends_of(id) == Some((s, t)) || g.ends_of(id) == Some(
                (t, s),
            )) && f.keeps_e(id) && f.keeps_v(s) && f.keeps_v(t);
        assert(u.out_list(s).contains(Incident { other: t, edge: id }));
    }
    if x.first_edge(s, t) is Some {
        let i = choose|i: Incident| #[trigger]
            u.out_list(s).contains(i) && i.other == t && f.keeps_e(i.edge) && f.keeps_v(s)
                && f.keeps_v(t);
        assert(g.ends_of(i.edge) is Some);
    }
}

/// The first survivor of a run that leads to `t` is the one that no such
/// survivor stands before.
pub proof fn the_first_survivor_is_first<F: Filter>(f: F, run: Seq<Incident>, t: VertexId)
    ensures
        super::filtered::first_kept(f, run, t) matches Some(hit) ==> exists|j: int|
            0 <= j < run.len() && #[trigger] run[j] == hit && hit.other == t && f.keeps_e(hit.edge)
                && f.keeps_v(t) && forall|i: int|
                0 <= i < j ==> !((#[trigger] run[i]).other == t && f.keeps_e(run[i].edge)
                    && f.keeps_v(t)),
        super::filtered::first_kept(f, run, t) is None ==> forall|i: int|
            0 <= i < run.len() ==> !((#[trigger] run[i]).other == t && f.keeps_e(run[i].edge)
                && f.keeps_v(t)),
    decreases run.len(),
{
    f.trivial_keeps_all();
    if run.len() > 0 {
        if run[0].other == t && f.keeps_e(run[0].edge) && f.keeps_v(t) {
            assert(super::filtered::first_kept(f, run, t) == Some(run[0]));
        } else {
            let rest = run.drop_first();
            the_first_survivor_is_first(f, rest, t);
            if super::filtered::first_kept(f, run, t) is Some {
                let hit = super::filtered::first_kept(f, rest, t)->0;
                let j = choose|j: int|
                    0 <= j < rest.len() && #[trigger] rest[j] == hit && hit.other == t && f.keeps_e(
                        hit.edge,
                    ) && f.keeps_v(t) && forall|i: int|
                        0 <= i < j ==> !((#[trigger] rest[i]).other == t && f.keeps_e(rest[i].edge)
                            && f.keeps_v(t));
                assert forall|i: int| 0 <= i < j + 1 implies !((#[trigger] run[i]).other == t
                    && f.keeps_e(run[i].edge) && f.keeps_v(t)) by {
                    if i > 0 {
                        assert(rest[i - 1] == run[i]);
                    }
                }
                assert(run[j + 1] == hit);
            } else {
                assert forall|i: int| 0 <= i < run.len() implies !((#[trigger] run[i]).other == t
                    && f.keeps_e(run[i].edge) && f.keeps_v(t)) by {
                    if i > 0 {
                        assert(rest[i - 1] == run[i]);
                    }
                }
            }
        }
    }
}

/// Of several survivors from `s` to `t`, a lookup in a filtered view gives the
/// one that comes first among the out-edges of `s` underneath.
pub proof fn a_filtered_lookup_gives_the_first_survivor<
    G: Endpoints + GraphRef + VertexList + EdgeList,
    F: Filter,
>(x: Filtered<G, F>, s: VertexId, t: VertexId)
    requires
        !F::TRIVIAL,
    ensures
        x.first_edge(s, t) matches Some(e) ==> exists|j: int|
            0 <= j < x.under().out_list(s).len() && (#[trigger] x.under().out_list(s)[j]).edge
                == e@.id && x.under().out_list(s)[j].other == t && forall|i: int|
                0 <= i < j ==> !((#[trigger] x.under().out_list(s)[i]).other == t
                    && x.sieve().keeps_e(x.under().out_list(s)[i].edge)),
        !x.sieve().keeps_v(s) || !x.sieve().keeps_v(t) ==> x.first_edge(s, t) is None,
{
    let run = x.under().out_list(s);
    the_first_survivor_is_first(x.sieve(), run, t);
    if x.first_edge(s, t) is Some {
        let hit = super::filtered::first_kept(x.sieve(), run, t)->0;
        let j = choose|j: int|
            0 <= j < run.len() && #[trigger] run[j] == hit && hit.other == t && x.sieve().keeps_e(
                hit.edge,
            ) && x.sieve().keeps_v(t) && forall|i: int|
                0 <= i < j ==> !((#[trigger] run[i]).other == t && x.sieve().keeps_e(run[i].edge)
                    && x.sieve().keeps_v(t));
        assert(run[j].edge == hit.edge);
    }
}

} // verus!
