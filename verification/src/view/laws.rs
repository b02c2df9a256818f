//! What holds of the views.

use vstd::prelude::*;

use super::filtered::{Filter, Filtered};
use super::reversed::{Rev, Reverse};
use super::undirected::{Und, Undirect};
use crate::adj::block::BlockView;
use crate::adj::entry::{AdjEntry, EdgeRef, Incident};
use crate::adj::topology::Topology;
use crate::adj::{AdjList, Lookup};
use crate::dir::{Directed, HasDir};
use crate::graph::{Bidirectional, EdgeList, Endpoints, GraphBase, GraphRef, VertexList};
use crate::ids::{EdgeId, VertexId, MAX_INDEX};

verus! {

/// Reversing is an involution, and undirecting is idempotent and absorbs a
/// reversal.
pub proof fn the_constructors_normalise<'g, H: Lookup>(g: &'g AdjList<H>)
    ensures
        g.reversed().reversed() == g,
        g.reversed().undirected() == g.undirected(),
        g.undirected().undirected() == g.undirected(),
{
}

/// A reversed view swaps the two halves: its out-edges are the in-edges and its
/// in-edges the out-edges, and its edges are the same with their ends swapped.
pub proof fn reversal_swaps_the_halves<G: Bidirectional + EdgeList + Endpoints>(
    r: Rev<G>,
    v: VertexId,
    e: EdgeId,
)
    ensures
        r.out_list(v) == r.forward().in_list(v),
        r.in_list(v) == r.forward().out_list(v),
        r.all_list(v) == r.forward().all_list(v),
        r.edge_list() == crate::adj::iter::all_flipped(r.forward().edge_list()),
        r.ends_of(e) == (match r.forward().ends_of(e) {
            Some((s, t)) => Some((t, s)),
            None => None,
        }),
        crate::graph::across(r.ends_of(e), v) == crate::graph::across(r.forward().ends_of(e), v),
{
}

/// The views of one graph share its identity, its bounds and its counts.
pub proof fn views_share_identity_and_bounds<G: GraphBase + HasDir<Dir = Directed>>(
    r: Rev<G>,
    u: Und<G>,
)
    requires
        r.forward() == u.directed(),
    ensures
        r.storage() == r.forward().storage(),
        u.storage() == r.forward().storage(),
        r.vertex_slots() == u.vertex_slots() == r.forward().vertex_slots(),
        r.edge_slots() == u.edge_slots() == r.forward().edge_slots(),
        r.vertex_count() == u.vertex_count() == r.forward().vertex_count(),
        r.edge_count() == u.edge_count() == r.forward().edge_count(),
{
}

/// Filtering moves the counts and leaves identity and bounds alone.
pub proof fn filtering_leaves_the_bounds<G: GraphRef + VertexList + EdgeList, F: Filter>(
    x: Filtered<G, F>,
)
    requires
        x.wf(),
    ensures
        x.storage() == x.under().storage(),
        x.vertex_slots() == x.under().vertex_slots(),
        x.edge_slots() == x.under().edge_slots(),
        x.vertex_count() <= x.under().vertex_count(),
        x.edge_count() <= x.under().edge_count(),
{
    x.under().vertices_are_counted();
    x.under().edges_are_counted();
    x.under().vertex_list().lemma_filter_len(
        |v: VertexId| super::filtered::vertex_kept(x.sieve(), v),
    );
    x.under().edge_list().lemma_filter_len(|e: EdgeRef| super::filtered::edge_kept(x.sieve(), e));
}

/// Every incidence of an undirected view is anchored at the query vertex: its
/// other end is the neighbour, whichever way the edge is stored.
pub proof fn undirected_incidences_are_anchored<'g, H: Lookup>(
    u: Und<&'g AdjList<H>>,
    v: VertexId,
    k: int,
)
    requires
        u.wf(),
        0 <= k < u.out_list(v).len(),
    ensures
        crate::graph::across(u.ends_of(u.out_list(v)[k].edge), v) == Some(u.out_list(v)[k].other),
{
    let g = u.directed();
    g.wf_topology();
    let t = g.topology();
    crate::adj::laws::incidences_are_anchored(t, v);
    let b = t.block(v);
    assert(u.out_list(v)[k] == crate::adj::iter::anchored(b.all()[k]));
    if k < b.out.len() {
        assert(b.all()[k] == b.out[k]);
    } else {
        assert(b.all()[k] == b.inc[k - b.out.len()]);
    }
}

/// The sum of the out-degrees over a run of vertices.
pub open spec fn degree_sum<G: GraphRef>(g: G, vs: Seq<VertexId>) -> nat
    decreases vs.len(),
{
    if vs.len() == 0 {
        0
    } else {
        g.out_list(vs[0]).len() + degree_sum(g, vs.drop_first())
    }
}

/// The kept out-entries of the vertices from `k` on, for kept vertices.
spec fn kept_sum<F: Filter>(f: F, halves: Seq<Seq<AdjEntry>>, k: int) -> nat
    decreases halves.len() - k,
{
    if k >= halves.len() || k < 0 {
        0
    } else {
        let here = if super::filtered::vertex_kept(f, VertexId::at(k as nat)) {
            super::filtered::kept_incidents(f, crate::adj::iter::incidents(halves[k])).len()
        } else {
            0
        };
        here + kept_sum(f, halves, k + 1)
    }
}

spec fn out_halves(b: Seq<BlockView>) -> Seq<Seq<AdjEntry>> {
    Seq::new(b.len(), |v: int| b[v].out)
}

spec fn in_halves(b: Seq<BlockView>) -> Seq<Seq<AdjEntry>> {
    Seq::new(b.len(), |v: int| b[v].inc)
}

spec fn all_halves(b: Seq<BlockView>) -> Seq<Seq<AdjEntry>> {
    Seq::new(b.len(), |v: int| b[v].all())
}

/// Summing degrees over the kept vertices is summing the kept entries.
proof fn lemma_degree_sum<G: GraphRef, F: Filter>(
    g: G,
    f: F,
    halves: Seq<Seq<AdjEntry>>,
    k: int,
)
    requires
        0 <= k <= halves.len() <= MAX_INDEX + 1,
        forall|v: VertexId|
            v@ < halves.len() ==> #[trigger] g.out_list(v) == super::filtered::kept_incidents(
                f,
                crate::adj::iter::incidents(halves[v@ as int]),
            ),
    ensures
        degree_sum(
            g,
            super::filtered::kept_vertices(f, crate::adj::iter::id_run(k, halves.len() as int)),
        ) == kept_sum(f, halves, k),
    decreases halves.len() - k,
{
    broadcast use crate::ids::id_is_its_index;
    broadcast use crate::ids::id_at;

    let n = halves.len() as int;
    let run = crate::adj::iter::id_run(k, n);
    let p = |v: VertexId| super::filtered::vertex_kept(f, v);
    if k == n {
        assert(run =~= Seq::empty());
        run.lemma_filter_len(p);
    } else {
        lemma_degree_sum(g, f, halves, k + 1);
        assert(run.drop_first() =~= crate::adj::iter::id_run(k + 1, n));
        assert(run[0] == VertexId::at(k as nat));
        crate::seqs::lemma_filter_first(run, p);
    }
}

/// The kept edges that leave the vertices from `k` on.
proof fn lemma_out_sum<F: Filter>(f: F, b: Seq<BlockView>, k: int)
    requires
        0 <= k <= b.len(),
    ensures
        kept_sum(f, out_halves(b), k) == super::filtered::kept_edges(
            f,
            crate::adj::iter::edges_from(b, k, 0),
        ).len(),
    decreases b.len() - k,
{
    let p = |e: EdgeRef| super::filtered::edge_kept(f, e);
    if k == b.len() {
        crate::adj::iter::edges_from(b, k, 0).lemma_filter_len(p);
    } else {
        lemma_out_sum(f, b, k + 1);
        let here = crate::adj::iter::leaving(b, k, 0);
        let later = crate::adj::iter::edges_from(b, k + 1, 0);
        Seq::filter_distributes_over_add(here, later, p);
        lemma_half_count(f, here, b[k].out, VertexId::at(k as nat), true);
        assert(out_halves(b)[k] == b[k].out);
    }
}

/// The kept edges of one half: as many as kept incidences if the owner is kept,
/// and none if not.
proof fn lemma_half_count<F: Filter>(
    f: F,
    edges: Seq<EdgeRef>,
    half: Seq<AdjEntry>,
    owner: VertexId,
    out: bool,
)
    requires
        edges.len() == half.len(),
        forall|j: int|
            0 <= j < half.len() ==> (#[trigger] edges[j]) == (if out {
                (EdgeRef { id: half[j].idx, src: owner, tgt: half[j].other })
            } else {
                (EdgeRef { id: half[j].idx, src: half[j].other, tgt: owner })
            }),
    ensures
        super::filtered::kept_edges(f, edges).len() == (if super::filtered::vertex_kept(f, owner) {
            super::filtered::kept_incidents(f, crate::adj::iter::incidents(half)).len()
        } else {
            0
        }),
{
    let p = |e: EdgeRef| super::filtered::edge_kept(f, e);
    if super::filtered::vertex_kept(f, owner) {
        let q = |i: Incident| super::filtered::incident_kept(f, i);
        crate::seqs::lemma_filters_alike(edges, p, crate::adj::iter::incidents(half), q);
    } else {
        let none = |e: EdgeRef| false;
        crate::seqs::lemma_filters_alike(edges, p, edges, none);
        edges.lemma_all_neg_filter_empty(none);
    }
}

/// The edges that enter vertex `v`, in the order of its in-half.
spec fn entering(b: Seq<BlockView>, v: int) -> Seq<EdgeRef> {
    Seq::new(
        b[v].inc.len(),
        |j: int|
            EdgeRef { id: b[v].inc[j].idx, src: b[v].inc[j].other, tgt: VertexId::at(v as nat) },
    )
}

/// The edges that enter the vertices from `v` on.
spec fn arrivals(b: Seq<BlockView>, v: int) -> Seq<EdgeRef>
    decreases b.len() - v,
{
    if v < b.len() {
        entering(b, v) + arrivals(b, v + 1)
    } else {
        Seq::empty()
    }
}

/// The kept edges that enter the vertices from `k` on.
proof fn lemma_in_sum<F: Filter>(f: F, b: Seq<BlockView>, k: int)
    requires
        0 <= k <= b.len(),
    ensures
        kept_sum(f, in_halves(b), k) == super::filtered::kept_edges(f, arrivals(b, k)).len(),
    decreases b.len() - k,
{
    let p = |e: EdgeRef| super::filtered::edge_kept(f, e);
    if k == b.len() {
        arrivals(b, k).lemma_filter_len(p);
    } else {
        lemma_in_sum(f, b, k + 1);
        let here = entering(b, k);
        let later = arrivals(b, k + 1);
        Seq::filter_distributes_over_add(here, later, p);
        lemma_half_count(f, here, b[k].inc, VertexId::at(k as nat), false);
        assert(in_halves(b)[k] == b[k].inc);
    }
}

/// The arrivals from `v` on are the live edges into `v` or later, each once.
proof fn lemma_arrivals(g: Topology, v: int)
    requires
        g.wf(),
        0 <= v <= g.blocks.len(),
    ensures
        ({
            let l = arrivals(g.blocks, v);
            &&& l.no_duplicates()
            &&& forall|e: EdgeRef| #[trigger]
                l.contains(e) <==> g.ends.contains_key(e.id) && g.ends[e.id] == (e.src, e.tgt)
                    && e.tgt@ >= v
        }),
    decreases g.blocks.len() - v,
{
    broadcast use crate::ids::id_is_its_index;
    broadcast use crate::ids::id_at;

    let b = g.blocks;
    let l = arrivals(b, v);
    if v < b.len() {
        lemma_arrivals(g, v + 1);
        let here = entering(b, v);
        let later = arrivals(b, v + 1);
        let n = here.len();
        assert forall|k: int| 0 <= k < n implies g.ends.contains_key((#[trigger] here[k]).id)
            && g.ends[here[k].id] == (here[k].src, here[k].tgt) && here[k].tgt@ == v by {
            assert(g.ends.contains_key(b[v].inc[k].idx));
        }
        assert forall|i: int, j: int| 0 <= i < l.len() && 0 <= j < l.len() && i != j implies
            #[trigger] l[i] != #[trigger] l[j] by {
            if l[i] == l[j] {
                if i < n && j < n {
                    assert(b[v].inc[i].idx == b[v].inc[j].idx);
                } else if i >= n && j >= n {
                    assert(later[i - n] == later[j - n]);
                } else if i < n {
                    assert(later.contains(later[j - n]));
                } else {
                    assert(later.contains(later[i - n]));
                }
            }
        }
        assert forall|e: EdgeRef| #[trigger] l.contains(e) <==> g.ends.contains_key(e.id)
            && g.ends[e.id] == (e.src, e.tgt) && e.tgt@ >= v by {
            if l.contains(e) {
                let k = choose|k: int| 0 <= k < l.len() && l[k] == e;
                if k < n {
                    assert(here[k] == e);
                } else {
                    assert(later[k - n] == e);
                    assert(later.contains(e));
                }
            }
            if g.ends.contains_key(e.id) && g.ends[e.id] == (e.src, e.tgt) && e.tgt@ >= v {
                if e.tgt@ == v {
                    let j = choose|j: int|
                        0 <= j < g.block(e.tgt).inc.len() && (#[trigger] g.block(e.tgt).inc[j]).idx
                            == e.id;
                    assert(b[v].inc[j].idx == e.id);
                    assert(here[j] == e);
                    assert(l[j] == e);
                } else {
                    assert(later.contains(e));
                    let k = choose|k: int| 0 <= k < later.len() && later[k] == e;
                    assert(l[n + k] == e);
                }
            }
        }
    } else {
        assert forall|e: EdgeRef| #[trigger] l.contains(e) <==> g.ends.contains_key(e.id)
            && g.ends[e.id] == (e.src, e.tgt) && e.tgt@ >= v by {}
    }
}

/// Counting the kept edges at their targets gives what counting them at their
/// sources gives.
proof fn lemma_both_ends_count_alike<F: Filter>(f: F, g: Topology)
    requires
        g.wf(),
    ensures
        super::filtered::kept_edges(f, arrivals(g.blocks, 0)).len() == super::filtered::kept_edges(
            f,
            crate::adj::iter::edges_from(g.blocks, 0, 0),
        ).len(),
{
    let a = arrivals(g.blocks, 0);
    let l = crate::adj::iter::edges_from(g.blocks, 0, 0);
    let p = |e: EdgeRef| super::filtered::edge_kept(f, e);
    lemma_arrivals(g, 0);
    crate::adj::laws::the_edge_list_has_every_edge_once(g);
    let ids = crate::adj::laws::edge_idents(l);
    assert(l.no_duplicates()) by {
        assert forall|i: int, j: int| 0 <= i < l.len() && 0 <= j < l.len() && i != j implies
            #[trigger] l[i] != #[trigger] l[j] by {
            assert(ids[i] != ids[j]);
        }
    }
    assert forall|e: EdgeRef| #[trigger] l.contains(e) <==> a.contains(e) by {
        if l.contains(e) {
            let k = choose|k: int| 0 <= k < l.len() && l[k] == e;
            assert(g.ends.contains_key(l[k]@.id));
        }
        if a.contains(e) {
            assert(ids.contains(e.id));
            let k = choose|k: int| 0 <= k < ids.len() && ids[k] == e.id;
            assert(l[k]@.id == e.id);
            assert(l[k] == e);
        }
    }
    crate::seqs::lemma_filter_distinct(a, p);
    crate::seqs::lemma_filter_distinct(l, p);
    crate::seqs::lemma_same_elements_same_len(a.filter(p), l.filter(p));
}

/// The kept incidences of whole blocks are those of the two halves.
proof fn lemma_all_sum<F: Filter>(f: F, b: Seq<BlockView>, k: int)
    requires
        0 <= k <= b.len(),
    ensures
        kept_sum(f, all_halves(b), k) == kept_sum(f, out_halves(b), k) + kept_sum(
            f,
            in_halves(b),
            k,
        ),
    decreases b.len() - k,
{
    if k < b.len() {
        lemma_all_sum(f, b, k + 1);
        let q = |i: Incident| super::filtered::incident_kept(f, i);
        let out = crate::adj::iter::incidents(b[k].out);
        let inc = crate::adj::iter::incidents(b[k].inc);
        assert(crate::adj::iter::incidents(b[k].all()) =~= out + inc);
        Seq::filter_distributes_over_add(out, inc, q);
        assert(all_halves(b)[k] == b[k].all());
        assert(out_halves(b)[k] == b[k].out);
        assert(in_halves(b)[k] == b[k].inc);
    }
}

/// Over a filtered directed view, every edge is counted once, at its source:
/// the out-degrees of the vertices it exposes sum to its number of edges.
pub proof fn filtered_degrees_sum_to_edges<'g, H: Lookup, F: Filter>(
    x: Filtered<&'g AdjList<H>, F>,
)
    requires
        x.wf(),
    ensures
        degree_sum(x, x.vertex_list()) == x.edge_count(),
{
    let g = x.under();
    g.wf_topology();
    let b = g.topology().blocks;
    lemma_degree_sum(x, x.sieve(), out_halves(b), 0);
    lemma_out_sum(x.sieve(), b, 0);
}

/// The same over a filtered reversed view, where every edge is counted at its
/// stored target.
pub proof fn filtered_reversed_degrees_sum_to_edges<'g, H: Lookup, F: Filter>(
    x: Filtered<Rev<&'g AdjList<H>>, F>,
)
    requires
        x.wf(),
    ensures
        degree_sum(x, x.vertex_list()) == x.edge_count(),
{
    let g = x.under().forward();
    g.wf_topology();
    let b = g.topology().blocks;
    let l = g.edge_list();
    lemma_degree_sum(x, x.sieve(), in_halves(b), 0);
    lemma_in_sum(x.sieve(), b, 0);
    lemma_both_ends_count_alike(x.sieve(), g.topology());
    let p = |e: EdgeRef| super::filtered::edge_kept(x.sieve(), e);
    crate::seqs::lemma_filters_alike(l, p, crate::adj::iter::all_flipped(l), p);
}

/// Over a filtered undirected view every edge is counted twice, once at either
/// end.
pub proof fn filtered_undirected_degrees_sum_to_twice_the_edges<'g, H: Lookup, F: Filter>(
    x: Filtered<Und<&'g AdjList<H>>, F>,
)
    requires
        x.wf(),
    ensures
        degree_sum(x, x.vertex_list()) == 2 * x.edge_count(),
{
    let g = x.under().directed();
    g.wf_topology();
    let b = g.topology().blocks;
    lemma_degree_sum(x, x.sieve(), all_halves(b), 0);
    lemma_all_sum(x.sieve(), b, 0);
    lemma_out_sum(x.sieve(), b, 0);
    lemma_in_sum(x.sieve(), b, 0);
    lemma_both_ends_count_alike(x.sieve(), g.topology());
}

/// Filtering is a property of the edge set, not of the orientation: the three
/// filtered views of a graph have the same edges, in the same order.
pub proof fn filtering_ignores_orientation<'g, H: Lookup, F: Filter>(
    d: Filtered<&'g AdjList<H>, F>,
    r: Filtered<Rev<&'g AdjList<H>>, F>,
    u: Filtered<Und<&'g AdjList<H>>, F>,
)
    requires
        d.wf(),
        r.wf(),
        u.wf(),
        r.under().forward() == d.under(),
        u.under().directed() == d.under(),
        r.sieve() == d.sieve(),
        u.sieve() == d.sieve(),
    ensures
        u.edge_list() == d.edge_list(),
        r.edge_list() == crate::adj::iter::all_flipped(d.edge_list()),
        u.edge_count() == d.edge_count() == r.edge_count(),
        u.vertex_list() == d.vertex_list(),
        r.vertex_list() == d.vertex_list(),
{
    lemma_flip_commutes(d.sieve(), d.under().edge_list());
}

proof fn lemma_flip_commutes<F: Filter>(f: F, l: Seq<EdgeRef>)
    ensures
        super::filtered::kept_edges(f, crate::adj::iter::all_flipped(l))
            == crate::adj::iter::all_flipped(super::filtered::kept_edges(f, l)),
    decreases l.len(),
{
    reveal(Seq::filter);
    let flip = crate::adj::iter::all_flipped(l);
    if l.len() > 0 {
        lemma_flip_commutes(f, l.drop_last());
        assert(flip.drop_last() =~= crate::adj::iter::all_flipped(l.drop_last()));
        let kept = super::filtered::kept_edges(f, l.drop_last());
        assert(crate::adj::iter::all_flipped(kept.push(l.last()))
            =~= crate::adj::iter::all_flipped(kept).push(crate::adj::iter::flipped(l.last())));
    } else {
        assert(super::filtered::kept_edges(f, flip) =~= Seq::empty());
        assert(crate::adj::iter::all_flipped(super::filtered::kept_edges(f, l)) =~= Seq::empty());
    }
}

/// A filtered view resolves exactly the edges that its edge walk yields.
pub proof fn resolution_is_what_iteration_yields<'g, H: Lookup, F: Filter>(
    x: Filtered<&'g AdjList<H>, F>,
    id: EdgeId,
)
    requires
        x.wf(),
    ensures
        x.ends_of(id) is Some <==> crate::adj::laws::edge_idents(x.edge_list()).contains(id),
{
    let g = x.under();
    g.wf_topology();
    let t = g.topology();
    crate::adj::laws::the_edge_list_has_every_edge_once(t);
    let l = g.edge_list();
    let ids = crate::adj::laws::edge_idents(l);
    let p = |e: EdgeRef| super::filtered::edge_kept(x.sieve(), e);
    let kept = x.edge_list();
    let kept_ids = crate::adj::laws::edge_idents(kept);
    if x.ends_of(id) is Some {
        assert(t.ends.contains_key(id));
        assert(ids.contains(id));
        let k = choose|k: int| 0 <= k < ids.len() && ids[k] == id;
        assert(l[k]@.id == id);
        l.lemma_filter_contains(p, k);
        let m = choose|m: int| 0 <= m < kept.len() && kept[m] == l[k];
        assert(kept_ids[m] == id);
    }
    if kept_ids.contains(id) {
        let m = choose|m: int| 0 <= m < kept_ids.len() && kept_ids[m] == id;
        l.lemma_filter_pred(p, m);
        l.lemma_filter_contains_rev(p, kept[m]);
        let k = choose|k: int| 0 <= k < l.len() && l[k] == kept[m];
        assert(l[k]@.id == id);
        assert(t.ends[id] == (l[k]@.src, l[k]@.tgt));
    }
}

/// Finding an edge in a filtered view agrees with its own out-edges: there is a
/// hit exactly where a surviving incidence leads from a surviving `s` to `t`.
pub proof fn filtered_lookup_agrees_with_incidence<'g, H: Lookup, F: Filter>(
    x: Filtered<&'g AdjList<H>, F>,
    s: VertexId,
    t: VertexId,
)
    requires
        x.wf(),
    ensures
        x.first_edge(s, t) is Some <==> super::filtered::vertex_kept(x.sieve(), s) && exists|k: int|
            0 <= k < x.out_list(s).len() && (#[trigger] x.out_list(s)[k]).other == t,
{
    let g = x.under();
    g.wf_topology();
    let top = g.topology();
    let f = x.sieve();
    let run = g.out_list(s);
    let p = |i: Incident| super::filtered::incident_kept(f, i);
    crate::adj::laws::incidences_are_anchored(top, s);
    assert forall|i: int| 0 <= i < run.len() implies top.ends_of((#[trigger] run[i]).edge) == Some(
        (s, run[i].other),
    ) by {
        assert(run[i] == crate::adj::iter::anchored(top.block(s).out[i]));
    }
    if F::TRIVIAL {
        crate::adj::laws::finding_finds_an_edge(top, s, t);
        crate::seqs::lemma_filter_all(run, p);
        if x.first_edge(s, t) is Some {
            let id = top.first_between(s, t)->0;
            let j = choose|j: int|
                0 <= j < top.block(s).out.len() && (#[trigger] top.block(s).out[j]).idx == id;
            assert(run[j].other == t);
            assert(x.out_list(s)[j].other == t);
        }
        if exists|k: int| 0 <= k < x.out_list(s).len() && (#[trigger] x.out_list(s)[k]).other == t {
            let k = choose|k: int|
                0 <= k < x.out_list(s).len() && (#[trigger] x.out_list(s)[k]).other == t;
            assert(top.ends_of(run[k].edge) == Some((s, t)));
            assert(top.ends.contains_key(run[k].edge));
        }
    } else {
        lemma_first_kept(f, run, t);
        if exists|k: int| 0 <= k < x.out_list(s).len() && (#[trigger] x.out_list(s)[k]).other == t {
            let k = choose|k: int|
                0 <= k < x.out_list(s).len() && (#[trigger] x.out_list(s)[k]).other == t;
            run.lemma_filter_pred(p, k);
            run.lemma_filter_contains_rev(p, x.out_list(s)[k]);
            let i = choose|i: int| 0 <= i < run.len() && run[i] == x.out_list(s)[k];
            assert(run[i].other == t && p(run[i]));
        }
        if super::filtered::first_kept(f, run, t) is Some {
            let i = choose|i: int|
                0 <= i < run.len() && (#[trigger] run[i]).other == t
                    && super::filtered::incident_kept(f, run[i]);
            run.lemma_filter_contains(p, i);
            let k = choose|k: int| 0 <= k < x.out_list(s).len() && x.out_list(s)[k] == run[i];
            assert(x.out_list(s)[k].other == t);
        }
    }
}

proof fn lemma_first_kept<F: Filter>(f: F, run: Seq<Incident>, t: VertexId)
    ensures
        super::filtered::first_kept(f, run, t) is Some <==> exists|i: int|
            0 <= i < run.len() && (#[trigger] run[i]).other == t && super::filtered::incident_kept(
                f,
                run[i],
            ),
        super::filtered::first_kept(f, run, t) matches Some(hit) ==> exists|i: int|
            0 <= i < run.len() && #[trigger] run[i] == hit,
    decreases run.len(),
{
    if run.len() > 0 {
        let rest = run.drop_first();
        lemma_first_kept(f, rest, t);
        if run[0].other == t && super::filtered::incident_kept(f, run[0]) {
        } else {
            if super::filtered::first_kept(f, run, t) is Some {
                let i = choose|i: int|
                    0 <= i < rest.len() && (#[trigger] rest[i]).other == t
                        && super::filtered::incident_kept(f, rest[i]);
                assert(run[i + 1] == rest[i]);
                let hit = super::filtered::first_kept(f, rest, t)->0;
                let j = choose|j: int| 0 <= j < rest.len() && #[trigger] rest[j] == hit;
                assert(run[j + 1] == hit);
            }
            if exists|i: int|
                0 <= i < run.len() && (#[trigger] run[i]).other == t
                    && super::filtered::incident_kept(f, run[i]) {
                let i = choose|i: int|
                    0 <= i < run.len() && (#[trigger] run[i]).other == t
                        && super::filtered::incident_kept(f, run[i]);
                assert(rest[i - 1] == run[i]);
            }
        }
    }
}

} // verus!
