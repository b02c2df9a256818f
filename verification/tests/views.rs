//! The view algebra over a graph of its own storage.
//!
//! The ghost functions of a trait are never run, so here they are unreachable.

use gt_core::adj::{EdgeRef, Incident};
use gt_core::bound::{Bound, EdgeBound, VertexBound};
use gt_core::dir::{Directed, HasDir};
use gt_core::error::PropError;
use gt_core::graph::{Bidirectional, EdgeList, Endpoints, GraphBase, GraphRef, VertexList};
use gt_core::ids::{EdgeId, GraphId, VertexId};
use gt_core::view::{
    keeps_edge, Filter, Filtered, KeepAll, MaskFilter, Rev, Reverse, Und, Undirect,
};
use gt_core::walk::Walk;
use vstd::prelude::{nat, Seq};

/// A run of items, as a walk.
#[derive(Clone)]
struct Run<T: Copy> {
    items: Vec<T>,
    at: usize,
}

impl<T: Copy> Run<T> {
    fn of(items: Vec<T>) -> Run<T> {
        Run { items, at: 0 }
    }
    fn step(&mut self) -> Option<T> {
        let item = self.items.get(self.at).copied();
        self.at += item.is_some() as usize;
        item
    }
    fn left(&self) -> (usize, Option<usize>) {
        let n = self.items.len() - self.at;
        (n, Some(n))
    }
}

#[derive(Clone)]
struct MockOut(Run<Incident>);
#[derive(Clone)]
struct MockIn(Run<Incident>);
#[derive(Clone)]
struct MockAll(Run<Incident>);
#[derive(Clone)]
struct MockVertices(Run<VertexId>);
#[derive(Clone)]
struct MockEdges(Run<EdgeRef>);

impl Walk for MockOut {
    type Item = Incident;
    fn wf(&self) -> bool {
        unreachable!()
    }
    fn rest(&self) -> Seq<Incident> {
        unreachable!()
    }
    fn hint(&self) -> (nat, Option<nat>) {
        unreachable!()
    }
    fn next(&mut self) -> Option<Incident> {
        self.0.step()
    }
    fn size_hint(&self) -> (usize, Option<usize>) {
        self.0.left()
    }
}

impl Walk for MockIn {
    type Item = Incident;
    fn wf(&self) -> bool {
        unreachable!()
    }
    fn rest(&self) -> Seq<Incident> {
        unreachable!()
    }
    fn hint(&self) -> (nat, Option<nat>) {
        unreachable!()
    }
    fn next(&mut self) -> Option<Incident> {
        self.0.step()
    }
    fn size_hint(&self) -> (usize, Option<usize>) {
        self.0.left()
    }
}

impl Walk for MockAll {
    type Item = Incident;
    fn wf(&self) -> bool {
        unreachable!()
    }
    fn rest(&self) -> Seq<Incident> {
        unreachable!()
    }
    fn hint(&self) -> (nat, Option<nat>) {
        unreachable!()
    }
    fn next(&mut self) -> Option<Incident> {
        self.0.step()
    }
    fn size_hint(&self) -> (usize, Option<usize>) {
        self.0.left()
    }
}

impl Walk for MockVertices {
    type Item = VertexId;
    fn wf(&self) -> bool {
        unreachable!()
    }
    fn rest(&self) -> Seq<VertexId> {
        unreachable!()
    }
    fn hint(&self) -> (nat, Option<nat>) {
        unreachable!()
    }
    fn next(&mut self) -> Option<VertexId> {
        self.0.step()
    }
    fn size_hint(&self) -> (usize, Option<usize>) {
        self.0.left()
    }
}

impl Walk for MockEdges {
    type Item = EdgeRef;
    fn wf(&self) -> bool {
        unreachable!()
    }
    fn rest(&self) -> Seq<EdgeRef> {
        unreachable!()
    }
    fn hint(&self) -> (nat, Option<nat>) {
        unreachable!()
    }
    fn next(&mut self) -> Option<EdgeRef> {
        self.0.step()
    }
    fn size_hint(&self) -> (usize, Option<usize>) {
        self.0.left()
    }
}

#[derive(Debug)]
struct Mock {
    id: GraphId,
    out: Vec<Vec<Incident>>,
    inc: Vec<Vec<Incident>>,
    edges: Vec<EdgeRef>,
}

fn v(i: usize) -> VertexId {
    VertexId::from_index(i)
}
fn e(i: usize) -> EdgeId {
    EdgeId::from_index(i)
}

fn mock(n: usize, spec: &[(usize, usize)]) -> Mock {
    let mut m = Mock {
        id: GraphId::fresh(),
        out: vec![Vec::new(); n],
        inc: vec![Vec::new(); n],
        edges: Vec::new(),
    };
    for (i, &(s, t)) in spec.iter().enumerate() {
        m.out[s].push(Incident {
            other: v(t),
            edge: e(i),
        });
        m.inc[t].push(Incident {
            other: v(s),
            edge: e(i),
        });
        m.edges.push(EdgeRef::new(e(i), v(s), v(t)));
    }
    m
}

fn path() -> Mock {
    mock(3, &[(0, 1), (1, 2)])
}

fn rich() -> Mock {
    mock(5, &[(0, 1), (1, 2), (0, 2), (2, 0), (3, 3), (1, 2)])
}

impl HasDir for &Mock {
    type Dir = Directed;
}

impl GraphBase for &Mock {
    fn wf(self) -> bool {
        unreachable!()
    }
    fn storage(self) -> GraphId {
        unreachable!()
    }
    fn vertex_count(self) -> nat {
        unreachable!()
    }
    fn edge_count(self) -> nat {
        unreachable!()
    }
    fn vertex_slots(self) -> nat {
        unreachable!()
    }
    fn edge_slots(self) -> nat {
        unreachable!()
    }
    fn graph_id(self) -> GraphId {
        self.id
    }
    fn num_vertices(self) -> usize {
        self.out.len()
    }
    fn num_edges(self) -> usize {
        self.edges.len()
    }
    fn vertex_bound(self) -> VertexBound {
        Bound::new(self.id, self.out.len())
    }
    fn edge_bound(self) -> EdgeBound {
        Bound::new(self.id, self.edges.len())
    }
}

impl GraphRef for &Mock {
    type Out = MockOut;
    type All = MockAll;
    fn out_list(self, _: VertexId) -> Seq<Incident> {
        unreachable!()
    }
    fn all_list(self, _: VertexId) -> Seq<Incident> {
        unreachable!()
    }
    fn out_edges(self, u: VertexId) -> MockOut {
        MockOut(Run::of(self.out[u.index()].clone()))
    }
    fn all_edges(self, u: VertexId) -> MockAll {
        let mut all = self.out[u.index()].clone();
        all.extend(self.inc[u.index()].iter().copied());
        MockAll(Run::of(all))
    }
    fn out_degree(self, u: VertexId) -> usize {
        self.out[u.index()].len()
    }
    fn degree(self, u: VertexId) -> usize {
        self.out[u.index()].len() + self.inc[u.index()].len()
    }
}

impl Bidirectional for &Mock {
    type In = MockIn;
    fn in_list(self, _: VertexId) -> Seq<Incident> {
        unreachable!()
    }
    fn in_edges(self, u: VertexId) -> MockIn {
        MockIn(Run::of(self.inc[u.index()].clone()))
    }
    fn in_degree(self, u: VertexId) -> usize {
        self.inc[u.index()].len()
    }
}

impl VertexList for &Mock {
    type Vertices = MockVertices;
    fn vertex_list(self) -> Seq<VertexId> {
        unreachable!()
    }
    fn vertices_are_counted(self) {}
    fn vertices(self) -> MockVertices {
        MockVertices(Run::of((0..self.out.len()).map(VertexId::from_index).collect()))
    }
}

impl EdgeList for &Mock {
    type Edges = MockEdges;
    fn edge_list(self) -> Seq<EdgeRef> {
        unreachable!()
    }
    fn edges_are_counted(self) {}
    fn edges(self) -> MockEdges {
        MockEdges(Run::of(self.edges.clone()))
    }
}

impl Endpoints for &Mock {
    fn ends_of(self, _: EdgeId) -> Option<(VertexId, VertexId)> {
        unreachable!()
    }
    fn first_edge(self, _: VertexId, _: VertexId) -> Option<EdgeRef> {
        unreachable!()
    }
    fn endpoints(self, i: EdgeId) -> Option<(VertexId, VertexId)> {
        self.edges.get(i.index()).map(|r| (r.source(), r.target()))
    }
    fn opposite(self, i: EdgeId, u: VertexId) -> Option<VertexId> {
        self.edges.get(i.index()).and_then(|r| r.opposite(u))
    }
    fn find_edge(self, s: VertexId, t: VertexId) -> Option<EdgeRef> {
        self.edges
            .iter()
            .find(|r| r.source() == s && r.target() == t)
            .copied()
    }
}

impl<'g> Reverse for &'g Mock {
    type Out = Rev<&'g Mock>;
    fn reversed(self) -> Rev<&'g Mock> {
        unreachable!()
    }
    fn reverse(self) -> Rev<&'g Mock> {
        Rev::wrap(self)
    }
}

impl<'g> Undirect for &'g Mock {
    type Out = Und<&'g Mock>;
    fn undirected(self) -> Und<&'g Mock> {
        unreachable!()
    }
    fn undirect(self) -> Und<&'g Mock> {
        Und::wrap(self)
    }
}


fn pairs<I: Walk<Item = Incident>>(it: I) -> Vec<(usize, usize)> {
    it.collect().into_iter().map(|i| (i.other.index(), i.edge.index())).collect()
}
fn sorted<I: Walk<Item = Incident>>(it: I) -> Vec<(usize, usize)> {
    let mut p = pairs(it);
    p.sort_unstable();
    p
}
fn edge_ids<I: Walk<Item = EdgeRef>>(it: I) -> Vec<usize> {
    it.collect().into_iter().map(|r| r.id().index()).collect()
}

fn counts_agree<G: GraphRef + VertexList + EdgeList>(g: G, what: &str) {
    assert_eq!(
        g.num_vertices(),
        g.vertices().count(),
        "{what}: num_vertices() != vertices().count()"
    );
    assert_eq!(
        g.num_edges(),
        g.edges().count(),
        "{what}: num_edges() != edges().count()"
    );
    assert_eq!(g.vertices().fold(0, |n, _| n + 1), g.num_vertices());
    assert_eq!(g.edges().fold(0, |n, _| n + 1), g.num_edges());
}

fn degrees_sum_to_edges<G>(g: G, what: &str)
where
    G: GraphRef + VertexList + EdgeList + HasDir<Dir = Directed>,
{
    let sum: usize = g.vertices().collect().into_iter().map(|u| g.out_degree(u)).sum();
    assert_eq!(sum, g.num_edges(), "{what}: sum(out_degree) != num_edges");
    let by_iter: usize = g.vertices().collect().into_iter().map(|u| g.out_edges(u).count()).sum();
    assert_eq!(sum, by_iter, "{what}: out_degree != out_edges().count()");
}

const ALL_V: [u8; 5] = [1, 1, 1, 1, 1];
const ALL_E: [u8; 6] = [1, 1, 1, 1, 1, 1];
const NO_V2: [u8; 5] = [1, 1, 0, 1, 1];
const NO_E5: [u8; 6] = [1, 1, 1, 1, 1, 0];
const NO_V0: [u8; 5] = [0, 1, 1, 1, 1];
const NO_E1: [u8; 6] = [1, 0, 1, 1, 1, 1];


#[test]
fn undirected_out_edges_yield_the_neighbour_never_the_query_vertex() {
    let p = path();
    let u = (&p).undirect();

    assert_eq!(pairs(u.out_edges(v(1))), [(2, 1), (0, 0)]);
    let others: Vec<usize> = u.out_edges(v(1)).collect().into_iter().map(|i| i.other.index()).collect();
    assert_eq!(sorted(u.out_edges(v(1))), [(0, 0), (2, 1)]);
    assert!(
        !others.contains(&1),
        "out_edges(1) yielded the query vertex: {others:?}"
    );
    assert_eq!(u.out_degree(v(1)), 2);
    assert_eq!(u.degree(v(1)), 2);

    for &keep_all in &[true, false] {
        let vm = [1u8, 1, 1];
        let em = [1u8, 1];
        let f = Filtered::masked((&p).undirect(), &vm, &em).expect("masks fit");
        for w in (&p).vertices().collect() {
            let it: Vec<Incident> = if keep_all {
                u.out_edges(w).collect()
            } else {
                f.out_edges(w).collect()
            };
            for i in it {
                let (s, t) = (&p).endpoints(i.edge).expect("live edge");
                assert!(
                    s == w || t == w,
                    "edge {:?} is not incident to {w:?}",
                    i.edge
                );
                assert_ne!(
                    i.other, w,
                    "out_edges({w:?}) yielded the query vertex for {:?}",
                    i.edge
                );
                assert_eq!(i.other, if s == w { t } else { s });
            }
        }
    }
}


#[test]
fn reversed_out_edges_are_the_in_edges_and_not_their_union() {
    let m = rich();
    let r = (&m).reverse();
    for u in (&m).vertices().collect() {
        assert_eq!(
            sorted(r.out_edges(u)),
            sorted((&m).in_edges(u)),
            "rev.out_edges({u:?})"
        );
        assert_eq!(sorted(r.in_edges(u)), sorted((&m).out_edges(u)));
        assert_eq!(r.out_degree(u), (&m).in_degree(u));
        assert_eq!(r.in_degree(u), (&m).out_degree(u));

        let union_len = (&m).out_degree(u) + (&m).in_degree(u);
        assert_eq!(r.degree(u), union_len);
        if (&m).out_degree(u) > 0 && (&m).in_degree(u) > 0 {
            assert_ne!(
                r.out_edges(u).count(),
                union_len,
                "rev.out_edges({u:?}) is the union"
            );
        }
    }
    let f = Filtered::masked((&m).reverse(), &ALL_V, &ALL_E).expect("masks fit");
    for u in (&m).vertices().collect() {
        assert_eq!(sorted(f.out_edges(u)), sorted((&m).in_edges(u)));
        assert_eq!(f.out_degree(u), (&m).in_degree(u));
    }
}


#[test]
fn every_view_counts_exactly_what_it_iterates() {
    let m = rich();
    let cases: [(&str, &[u8; 5], &[u8; 6]); 4] = [
        ("keep all", &ALL_V, &ALL_E),
        ("no vertex 2", &NO_V2, &ALL_E),
        ("no edge 5", &ALL_V, &NO_E5),
        ("no vertex 0, no edge 1", &NO_V0, &NO_E1),
    ];
    for (name, vm, em) in cases {
        let d = Filtered::masked(&m, vm, em).expect("masks fit");
        let u = Filtered::masked((&m).undirect(), vm, em).expect("masks fit");
        let r = Filtered::masked((&m).reverse(), vm, em).expect("masks fit");
        counts_agree(d, &format!("{name}: directed+filtered"));
        counts_agree(u, &format!("{name}: undirected+filtered"));
        counts_agree(r, &format!("{name}: reversed+filtered"));
        degrees_sum_to_edges(d, &format!("{name}: directed+filtered"));
        degrees_sum_to_edges(r, &format!("{name}: reversed+filtered"));

        assert_eq!(d.num_edges(), u.num_edges(), "{name}: und disagrees");
        assert_eq!(d.num_edges(), r.num_edges(), "{name}: rev disagrees");
        assert_eq!(d.num_vertices(), u.num_vertices());
        assert_eq!(edge_ids(d.edges()), edge_ids(u.edges()));
        assert_eq!(edge_ids(d.edges()), edge_ids(r.edges()));

        let und_sum: usize = u.vertices().collect().into_iter().map(|w| u.out_degree(w)).sum();
        assert_eq!(
            und_sum,
            2 * u.num_edges(),
            "{name}: undirected degree sum is not 2E"
        );
    }

    counts_agree(&m, "directed");
    counts_agree((&m).undirect(), "undirected");
    counts_agree((&m).reverse(), "reversed");
    counts_agree(Filtered::all(&m), "directed+KeepAll");
    counts_agree(Filtered::all((&m).undirect()), "undirected+KeepAll");
    counts_agree(Filtered::all((&m).reverse()), "reversed+KeepAll");
    degrees_sum_to_edges(&m, "directed");
    degrees_sum_to_edges(Filtered::all(&m), "directed+KeepAll");
}

#[test]
fn the_filter_actually_removes_things() {
    let m = rich();
    assert_eq!(((&m).num_vertices(), (&m).num_edges()), (5, 6));

    let d = Filtered::masked(&m, &NO_V2, &ALL_E).expect("masks fit");
    assert_eq!((d.num_vertices(), d.num_edges()), (4, 2));
    assert_eq!(edge_ids(d.edges()), vec![0, 4]);

    let d = Filtered::masked(&m, &ALL_V, &NO_E5).expect("masks fit");
    assert_eq!((d.num_vertices(), d.num_edges()), (5, 5));
    assert_eq!(edge_ids(d.edges()), vec![0, 1, 2, 3, 4]);

    let d = Filtered::masked(&m, &NO_V0, &NO_E1).expect("masks fit");
    assert_eq!((d.num_vertices(), d.num_edges()), (4, 2));
    assert_eq!(edge_ids(d.edges()), vec![4, 5]);

    let t = Filtered::all(&m);
    assert_eq!((t.num_vertices(), t.num_edges()), (5, 6));
    assert_eq!(
        (<KeepAll as Filter>::TRIVIAL, <MaskFilter<'_> as Filter>::TRIVIAL),
        (true, false)
    );
    assert_eq!(size_of::<KeepAll>(), 0);
}

#[test]
fn filtered_degrees_are_probed_per_vertex() {
    let m = rich();
    let d = Filtered::masked(&m, &NO_V2, &ALL_E).expect("masks fit");

    assert_eq!(d.out_degree(v(0)), 1); // e0 kept, e2 -> 2 gone
    assert_eq!(d.in_degree(v(0)), 0); // e3 comes from 2
    assert_eq!(d.degree(v(0)), 1);
    assert_eq!(d.out_degree(v(1)), 0); // both 1->2 edges gone
    assert_eq!(d.in_degree(v(1)), 1);
    assert_eq!(d.degree(v(1)), 1);
    assert_eq!(d.out_degree(v(3)), 1); // the self-loop survives
    assert_eq!(d.in_degree(v(3)), 1);
    assert_eq!(d.degree(v(3)), 2); // seen twice from its own vertex
    assert_eq!(d.degree(v(4)), 0);

    for w in (&m).vertices().collect() {
        assert_eq!(d.degree(w), d.in_degree(w) + d.out_degree(w));
        assert_eq!(d.out_degree(w), d.out_edges(w).count());
        assert_eq!(d.in_degree(w), d.in_edges(w).count());
        assert_eq!(d.degree(w), d.all_edges(w).count());
    }

    let d = Filtered::masked(&m, &NO_V0, &ALL_E).expect("masks fit");
    assert_eq!(d.out_degree(v(0)), 2, "the anchor itself is not probed");
    assert_eq!(d.vertices().count(), 4);
}


#[test]
fn filtering_moves_the_cardinality_and_leaves_the_bound_alone() {
    let m = rich();
    let d = Filtered::masked(&m, &NO_V2, &NO_E5).expect("masks fit");

    assert_eq!(d.vertex_bound(), (&m).vertex_bound());
    assert_eq!(d.edge_bound(), (&m).edge_bound());
    assert_eq!(d.vertex_bound().len(), 5);
    assert_eq!(d.edge_bound().len(), 6);
    assert_eq!(d.num_vertices(), 4);
    assert_ne!(d.num_vertices(), d.vertex_bound().len());
    assert_eq!(d.graph_id(), (&m).graph_id());

    let u = Filtered::masked((&m).undirect(), &NO_V2, &NO_E5).expect("masks fit");
    let r = Filtered::masked((&m).reverse(), &NO_V2, &NO_E5).expect("masks fit");
    assert_eq!(u.vertex_bound(), (&m).vertex_bound());
    assert_eq!(r.edge_bound(), (&m).edge_bound());
    assert_eq!(Filtered::all(&m).vertex_bound(), (&m).vertex_bound());
}


#[test]
fn a_short_mask_is_refused_by_the_constructor() {
    let m = rich();
    let short_v = [1u8; 4];
    let short_e = [1u8; 5];

    assert_eq!(
        Filtered::masked(&m, &short_v, &ALL_E).unwrap_err(),
        PropError::ShortMask { have: 4, need: 5 }
    );
    assert_eq!(
        Filtered::masked(&m, &ALL_V, &short_e).unwrap_err(),
        PropError::ShortMask { have: 5, need: 6 }
    );
    let long_v = [1u8; 9];
    let long_e = [1u8; 9];
    let ok = Filtered::masked(&m, &long_v, &long_e).expect("a longer mask fits");
    assert_eq!(ok.num_vertices(), 5);
    assert_eq!(ok.num_edges(), 6);
    assert!(Filtered::masked((&m).undirect(), &short_v, &ALL_E).is_err());
    assert!(Filtered::masked((&m).reverse(), &ALL_V, &short_e).is_err());
}

#[test]
fn a_mask_admitted_by_one_graph_is_re_validated_by_the_next() {
    let small = mock(3, &[(0, 1), (1, 2)]);
    let big = rich();
    let vm = [1u8, 1, 1];
    let em = [1u8, 1];

    let s = Filtered::masked(&small, &vm, &em).expect("masks fit the small graph");
    assert_eq!((s.num_vertices(), s.num_edges()), (3, 2));

    assert_eq!(
        Filtered::masked(&big, &vm, &em).unwrap_err(),
        PropError::ShortMask { have: 3, need: 5 },
        "the same masks must be refused by a larger graph"
    );

    let leaked: MaskFilter<'_> = *s.filter();
    let f = Filtered::new(&big, leaked);
    assert_eq!(f.num_vertices(), 3, "out of range is filtered out");
    assert_eq!(f.num_edges(), 2);
    counts_agree(f, "a foreign mask");
    assert!(!leaked.keep_vertex(v(4)));
    assert!(!leaked.keep_edge(e(5)));
}

#[test]
fn any_non_zero_keeps() {
    let m = rich();
    let vm = [1u8, 255, 0, 2, 1];
    let f = Filtered::masked(&m, &vm, &ALL_E).expect("masks fit");
    assert_eq!(f.num_vertices(), 4);
    assert_eq!(
        f.vertices().collect().into_iter().map(|w| w.index()).collect::<Vec<_>>(),
        vec![0, 1, 3, 4]
    );
}


#[test]
fn resolution_is_none_for_what_iteration_does_not_yield() {
    let m = rich();
    let f = Filtered::masked(&m, &NO_V2, &NO_E5).expect("masks fit");

    assert_eq!(f.endpoints(e(0)), Some((v(0), v(1))));
    assert_eq!(f.endpoints(e(1)), None, "endpoint 2 is filtered out");
    assert_eq!(f.endpoints(e(5)), None, "the edge itself is filtered out");
    assert_eq!(f.endpoints(e(99)), None, "no such edge");
    assert_eq!(f.opposite(e(0), v(0)), Some(v(1)));
    assert_eq!(f.opposite(e(0), v(2)), None, "not an endpoint");
    assert_eq!(f.opposite(e(1), v(1)), None, "the edge is not in the view");

    for i in 0..(&m).num_edges() {
        let resolvable = f.endpoints(e(i)).is_some();
        let yielded = edge_ids(f.edges()).contains(&i);
        assert_eq!(resolvable, yielded, "edge {i}");
    }

    let r = Filtered::masked((&m).reverse(), &NO_V2, &NO_E5).expect("masks fit");
    assert_eq!(r.endpoints(e(0)), Some((v(1), v(0))));
    assert_eq!(r.endpoints(e(1)), None);
    assert_eq!(r.opposite(e(0), v(0)), Some(v(1)));
}

#[test]
fn find_edge_scans_past_a_filtered_parallel_edge() {
    let m = rich();

    let f = Filtered::masked(&m, &ALL_V, &NO_E1).expect("masks fit");
    let hit = f.find_edge(v(1), v(2)).expect("e5 survives");
    assert_eq!(hit.id(), e(5));
    assert_eq!((hit.source(), hit.target()), (v(1), v(2)));
    assert!(
        f.out_edges(v(1)).collect().iter().any(|i| i.edge == e(5)),
        "find_edge and out_edges must agree"
    );

    let no_e1_e5 = [1u8, 0, 1, 1, 1, 0];
    let f = Filtered::masked(&m, &ALL_V, &no_e1_e5).expect("masks fit");
    assert!(f.find_edge(v(1), v(2)).is_none());
    let f = Filtered::masked(&m, &NO_V2, &ALL_E).expect("masks fit");
    assert!(f.find_edge(v(1), v(2)).is_none());
    assert!(f.find_edge(v(0), v(1)).is_some());
    let f = Filtered::masked(&m, &NO_V0, &ALL_E).expect("masks fit");
    assert!(f.find_edge(v(0), v(1)).is_none());
}

#[test]
fn filtered_find_edge_keeps_its_view_s_orientation() {
    let m = rich();
    let u = Filtered::masked((&m).undirect(), &ALL_V, &ALL_E).expect("masks fit");
    let hit = u.find_edge(v(2), v(1)).expect("seen from 2");
    assert_eq!(
        (hit.id(), hit.source(), hit.target()),
        (e(1), v(1), v(2)),
        "the undirected hit must be reported in storage orientation"
    );
    assert_eq!(
        hit.id(),
        (&m).undirect().find_edge(v(2), v(1)).unwrap().id()
    );

    let r = Filtered::masked((&m).reverse(), &ALL_V, &ALL_E).expect("masks fit");
    let hit = r.find_edge(v(1), v(0)).expect("e0 reversed");
    assert_eq!((hit.id(), hit.source(), hit.target()), (e(0), v(1), v(0)));
    assert!(r.find_edge(v(0), v(1)).is_none());

    let t = Filtered::all(&m);
    assert_eq!(t.find_edge(v(0), v(1)).map(|h| h.id()), Some(e(0)));
    assert!(t.find_edge(v(1), v(0)).is_none());
    let t = Filtered::all((&m).undirect());
    assert_eq!(t.find_edge(v(2), v(1)).map(|h| h.id()), Some(e(1)));
}


#[test]
fn the_incidence_predicate_is_the_edge_predicate_seen_from_a_vertex() {
    let m = rich();
    let f = Filtered::masked(&m, &NO_V2, &NO_E5).expect("masks fit");
    let filter = *f.filter();

    for r in (&m).edges().collect() {
        let kept = keeps_edge(filter, r);
        let s_sees = f.out_edges(r.source()).collect().iter().any(|i| i.edge == r.id());
        let t_sees = f.in_edges(r.target()).collect().iter().any(|i| i.edge == r.id());
        if filter.keep_vertex(r.source()) && filter.keep_vertex(r.target()) {
            assert_eq!(kept, s_sees, "edge {:?} from its source", r.id());
            assert_eq!(kept, t_sees, "edge {:?} from its target", r.id());
        } else {
            assert!(!kept);
        }
    }
}

#[test]
fn filtered_fold_agrees_with_next_from_every_start() {
    let m = rich();
    let f = Filtered::masked(&m, &NO_V2, &NO_E5).expect("masks fit");
    for skip in 0..=6 {
        let mut by_next = f.edges();
        for _ in 0..skip {
            by_next.next();
        }
        let folded = by_next.clone().fold(Vec::new(), |mut a, r| {
            a.push(r.id().index());
            a
        });
        let stepped: Vec<usize> = by_next.collect().into_iter().map(|r| r.id().index()).collect();
        assert_eq!(folded, stepped, "edges: fold disagrees after {skip}");
    }
    for skip in 0..=5 {
        let mut by_next = f.vertices();
        for _ in 0..skip {
            by_next.next();
        }
        let folded = by_next.clone().fold(Vec::new(), |mut a, w| {
            a.push(w.index());
            a
        });
        let stepped: Vec<usize> = by_next.collect().into_iter().map(|w| w.index()).collect();
        assert_eq!(folded, stepped, "vertices: fold disagrees after {skip}");
    }
    let mut it = f.all_edges(v(1));
    it.next();
    let folded = it.clone().fold(Vec::new(), |mut a, i| {
        a.push(i.edge.index());
        a
    });
    let stepped: Vec<usize> = it.collect().into_iter().map(|i| i.edge.index()).collect();
    assert_eq!(folded, stepped);

    let mut t = Filtered::all(&m).edges();
    for _ in 0..6 {
        t.next();
    }
    assert!(t.next().is_none());
    assert!(t.next().is_none());
}

#[test]
fn a_filtered_iterator_promises_nothing_it_has_not_counted() {
    let m = rich();
    let f = Filtered::masked(&m, &NO_V2, &ALL_E).expect("masks fit");
    assert_eq!(f.edges().size_hint(), (0, Some(6)));
    assert_eq!(f.vertices().size_hint(), (0, Some(5)));
    assert_eq!(f.out_edges(v(0)).size_hint(), (0, Some(2)));
    assert_eq!(f.num_edges(), 2);
    assert_eq!(f.edges().count(), 2);
}
