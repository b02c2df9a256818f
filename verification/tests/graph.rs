//! The graph traits over a graph of its own storage, whose three incidence
//! walks are three distinct types.
//!
//! The ghost functions of a trait are never run, so here they are unreachable.

use gt_core::adj::{EdgeRef, Incident};
use gt_core::bound::{Bound, EdgeBound, VertexBound};
use gt_core::dir::{Directed, HasDir, Undirected};
use gt_core::graph::{
    Bidirectional, EdgeList, Endpoints, ExactIncidence, GraphBase, GraphRef, VertexList,
};
use gt_core::ids::{EdgeId, GraphId, VertexId};
use gt_core::view::{Rev, Reverse, Und, Undirect};
use gt_core::walk::{ExactWalk, Walk};
use vstd::prelude::{nat, Seq};

/// A run of items, as a walk.
#[derive(Clone)]
struct Run<T: Copy> {
    items: Vec<T>,
    at: usize,
}

impl<T: Copy> Run<T> {
    fn of(items: Vec<T>) -> Run<T> {
        Run { items, at: 0 }
    }
    fn step(&mut self) -> Option<T> {
        let item = self.items.get(self.at).copied();
        self.at += item.is_some() as usize;
        item
    }
    fn left(&self) -> (usize, Option<usize>) {
        let n = self.items.len() - self.at;
        (n, Some(n))
    }
}

#[derive(Clone)]
struct MockOut(Run<Incident>);
#[derive(Clone)]
struct MockIn(Run<Incident>);
#[derive(Clone)]
struct MockAll(Run<Incident>);
#[derive(Clone)]
struct MockVertices(Run<VertexId>);
#[derive(Clone)]
struct MockEdges(Run<EdgeRef>);

impl Walk for MockOut {
    type Item = Incident;
    fn wf(&self) -> bool {
        unreachable!()
    }
    fn rest(&self) -> Seq<Incident> {
        unreachable!()
    }
    fn hint(&self) -> (nat, Option<nat>) {
        unreachable!()
    }
    fn next(&mut self) -> Option<Incident> {
        self.0.step()
    }
    fn size_hint(&self) -> (usize, Option<usize>) {
        self.0.left()
    }
}

impl Walk for MockIn {
    type Item = Incident;
    fn wf(&self) -> bool {
        unreachable!()
    }
    fn rest(&self) -> Seq<Incident> {
        unreachable!()
    }
    fn hint(&self) -> (nat, Option<nat>) {
        unreachable!()
    }
    fn next(&mut self) -> Option<Incident> {
        self.0.step()
    }
    fn size_hint(&self) -> (usize, Option<usize>) {
        self.0.left()
    }
}

impl Walk for MockAll {
    type Item = Incident;
    fn wf(&self) -> bool {
        unreachable!()
    }
    fn rest(&self) -> Seq<Incident> {
        unreachable!()
    }
    fn hint(&self) -> (nat, Option<nat>) {
        unreachable!()
    }
    fn next(&mut self) -> Option<Incident> {
        self.0.step()
    }
    fn size_hint(&self) -> (usize, Option<usize>) {
        self.0.left()
    }
}

impl Walk for MockVertices {
    type Item = VertexId;
    fn wf(&self) -> bool {
        unreachable!()
    }
    fn rest(&self) -> Seq<VertexId> {
        unreachable!()
    }
    fn hint(&self) -> (nat, Option<nat>) {
        unreachable!()
    }
    fn next(&mut self) -> Option<VertexId> {
        self.0.step()
    }
    fn size_hint(&self) -> (usize, Option<usize>) {
        self.0.left()
    }
}

impl Walk for MockEdges {
    type Item = EdgeRef;
    fn wf(&self) -> bool {
        unreachable!()
    }
    fn rest(&self) -> Seq<EdgeRef> {
        unreachable!()
    }
    fn hint(&self) -> (nat, Option<nat>) {
        unreachable!()
    }
    fn next(&mut self) -> Option<EdgeRef> {
        self.0.step()
    }
    fn size_hint(&self) -> (usize, Option<usize>) {
        self.0.left()
    }
}

struct Mock {
    id: GraphId,
    out: Vec<Vec<Incident>>,
    inc: Vec<Vec<Incident>>,
    edges: Vec<EdgeRef>,
}

fn v(i: usize) -> VertexId {
    VertexId::from_index(i)
}
fn e(i: usize) -> EdgeId {
    EdgeId::from_index(i)
}

fn mock() -> Mock {
    let spec = [(0usize, 1usize), (1, 2), (0, 2), (2, 0)];
    let mut m = Mock {
        id: GraphId::fresh(),
        out: vec![Vec::new(); 3],
        inc: vec![Vec::new(); 3],
        edges: Vec::new(),
    };
    for (i, &(s, t)) in spec.iter().enumerate() {
        m.out[s].push(Incident {
            other: v(t),
            edge: e(i),
        });
        m.inc[t].push(Incident {
            other: v(s),
            edge: e(i),
        });
        m.edges.push(EdgeRef::new(e(i), v(s), v(t)));
    }
    m
}

impl HasDir for &Mock {
    type Dir = Directed;
}

impl GraphBase for &Mock {
    fn wf(self) -> bool {
        unreachable!()
    }
    fn storage(self) -> GraphId {
        unreachable!()
    }
    fn vertex_count(self) -> nat {
        unreachable!()
    }
    fn edge_count(self) -> nat {
        unreachable!()
    }
    fn vertex_slots(self) -> nat {
        unreachable!()
    }
    fn edge_slots(self) -> nat {
        unreachable!()
    }
    fn graph_id(self) -> GraphId {
        self.id
    }
    fn num_vertices(self) -> usize {
        self.out.len()
    }
    fn num_edges(self) -> usize {
        self.edges.len()
    }
    fn vertex_bound(self) -> VertexBound {
        Bound::new(self.id, self.out.len())
    }
    fn edge_bound(self) -> EdgeBound {
        Bound::new(self.id, self.edges.len())
    }
}

impl GraphRef for &Mock {
    type Out = MockOut;
    type All = MockAll;
    fn out_list(self, _: VertexId) -> Seq<Incident> {
        unreachable!()
    }
    fn all_list(self, _: VertexId) -> Seq<Incident> {
        unreachable!()
    }
    fn out_edges(self, u: VertexId) -> MockOut {
        MockOut(Run::of(self.out[u.index()].clone()))
    }
    fn all_edges(self, u: VertexId) -> MockAll {
        let mut all = self.out[u.index()].clone();
        all.extend(self.inc[u.index()].iter().copied());
        MockAll(Run::of(all))
    }
    fn out_degree(self, u: VertexId) -> usize {
        self.out[u.index()].len()
    }
    fn degree(self, u: VertexId) -> usize {
        self.out[u.index()].len() + self.inc[u.index()].len()
    }
}

impl Bidirectional for &Mock {
    type In = MockIn;
    fn in_list(self, _: VertexId) -> Seq<Incident> {
        unreachable!()
    }
    fn in_edges(self, u: VertexId) -> MockIn {
        MockIn(Run::of(self.inc[u.index()].clone()))
    }
    fn in_degree(self, u: VertexId) -> usize {
        self.inc[u.index()].len()
    }
}

impl VertexList for &Mock {
    type Vertices = MockVertices;
    fn vertex_list(self) -> Seq<VertexId> {
        unreachable!()
    }
    fn vertices_are_counted(self) {}
    fn vertices(self) -> MockVertices {
        MockVertices(Run::of((0..self.out.len()).map(VertexId::from_index).collect()))
    }
}

impl EdgeList for &Mock {
    type Edges = MockEdges;
    fn edge_list(self) -> Seq<EdgeRef> {
        unreachable!()
    }
    fn edges_are_counted(self) {}
    fn edges(self) -> MockEdges {
        MockEdges(Run::of(self.edges.clone()))
    }
}

impl Endpoints for &Mock {
    fn ends_of(self, _: EdgeId) -> Option<(VertexId, VertexId)> {
        unreachable!()
    }
    fn first_edge(self, _: VertexId, _: VertexId) -> Option<EdgeRef> {
        unreachable!()
    }
    fn endpoints(self, i: EdgeId) -> Option<(VertexId, VertexId)> {
        self.edges.get(i.index()).map(|r| (r.source(), r.target()))
    }
    fn opposite(self, i: EdgeId, u: VertexId) -> Option<VertexId> {
        self.edges.get(i.index()).and_then(|r| r.opposite(u))
    }
    fn find_edge(self, s: VertexId, t: VertexId) -> Option<EdgeRef> {
        self.edges
            .iter()
            .find(|r| r.source() == s && r.target() == t)
            .copied()
    }
}

impl<'g> Reverse for &'g Mock {
    type Out = Rev<&'g Mock>;
    fn reversed(self) -> Rev<&'g Mock> {
        unreachable!()
    }
    fn reverse(self) -> Rev<&'g Mock> {
        Rev::wrap(self)
    }
}

impl<'g> Undirect for &'g Mock {
    type Out = Und<&'g Mock>;
    fn undirected(self) -> Und<&'g Mock> {
        unreachable!()
    }
    fn undirect(self) -> Und<&'g Mock> {
        Und::wrap(self)
    }
}


impl ExactWalk for MockOut {
    fn len(&self) -> usize {
        self.0.left().0
    }
}

impl ExactWalk for MockAll {
    fn len(&self) -> usize {
        self.0.left().0
    }
}

impl ExactIncidence for &Mock {}

fn pairs<I: Walk<Item = Incident>>(it: I) -> Vec<(usize, usize)> {
    it.collect().into_iter().map(|i| (i.other.index(), i.edge.index())).collect()
}
fn ends<I: Walk<Item = EdgeRef>>(it: I) -> Vec<(usize, usize, usize)> {
    it.collect().into_iter().map(|r| (r.id().index(), r.source().index(), r.target().index()))
        .collect()
}


#[test]
fn the_base_view_reads_the_half_it_names() {
    let m = mock();
    let g = &m;
    assert_eq!(pairs(g.out_edges(v(0))), [(1, 0), (2, 2)]);
    assert_eq!(pairs(g.in_edges(v(0))), [(2, 3)]);
    assert_eq!(pairs(g.in_edges(v(2))), [(1, 1), (0, 2)]);
    assert_eq!(g.out_degree(v(0)), 2);
    assert_eq!(g.in_degree(v(0)), 1);
    assert_eq!(g.degree(v(0)), 3);
    assert_eq!(g.num_edges(), 4);
    assert_eq!(g.num_vertices(), 3);
    assert_eq!(g.vertex_bound().len(), 3);
    assert_eq!(g.vertex_bound().graph(), g.graph_id());
    assert_eq!(g.vertices().count(), g.num_vertices());
    assert_eq!(g.edges().count(), g.num_edges());
}

#[test]
fn rev_swaps_the_two_halves_and_does_not_union_them() {
    let m = mock();
    let r = (&m).reverse();

    assert_eq!(pairs(r.out_edges(v(0))), pairs((&m).in_edges(v(0))));
    assert_eq!(pairs(r.out_edges(v(0))), [(2, 3)]);
    assert_eq!(pairs(r.in_edges(v(0))), pairs((&m).out_edges(v(0))));
    assert_eq!(r.out_degree(v(0)), 1);
    assert_eq!(r.in_degree(v(0)), 2);
    assert_eq!(r.out_degree(v(0)) + r.in_degree(v(0)), r.degree(v(0)));

    assert_eq!(
        std::any::TypeId::of::<<Rev<&Mock> as GraphRef>::Out>(),
        std::any::TypeId::of::<<&Mock as Bidirectional>::In>()
    );
    assert_eq!(
        std::any::TypeId::of::<<Rev<&Mock> as Bidirectional>::In>(),
        std::any::TypeId::of::<<&Mock as GraphRef>::Out>()
    );
}

#[test]
fn rev_swaps_endpoints_without_mutating_a_descriptor() {
    let m = mock();
    let r = (&m).reverse();
    assert_eq!((&m).endpoints(e(0)), Some((v(0), v(1))));
    assert_eq!(r.endpoints(e(0)), Some((v(1), v(0))));
    assert_eq!(r.endpoints(e(9)), None);

    assert!(r.find_edge(v(0), v(1)).is_none());
    let hit = r.find_edge(v(1), v(0)).expect("reversed lookup");
    assert_eq!(
        (hit.id().index(), hit.source().index(), hit.target().index()),
        (0, 1, 0)
    );
    let base = (&m).find_edge(v(0), v(1)).unwrap();
    assert_eq!(
        (base.source().index(), base.target().index()),
        (0, 1),
        "the stored orientation must survive a reversed lookup"
    );

    assert_eq!(
        ends(r.edges()),
        [(0, 1, 0), (1, 2, 1), (2, 2, 0), (3, 0, 2)]
    );
    assert_eq!(r.edges().count(), r.num_edges());
}

#[test]
fn und_out_edges_is_the_whole_anchored_run() {
    let m = mock();
    let u = Und::wrap(&m);

    assert_eq!(pairs(u.out_edges(v(2))), pairs((&m).all_edges(v(2))));
    assert_eq!(pairs(u.out_edges(v(2))), [(0, 3), (1, 1), (0, 2)]);
    assert_eq!(u.out_degree(v(2)), 3);
    assert_eq!(u.degree(v(2)), u.out_degree(v(2)));

    for w in (&m).vertices().collect() {
        for i in u.out_edges(w).collect() {
            let (s, t) = (&m).endpoints(i.edge).unwrap();
            assert!(
                s == w || t == w,
                "edge {:?} is not incident to {w:?}",
                i.edge
            );
            assert_eq!(
                i.other,
                if s == w { t } else { s },
                "out_edges({w:?}) must yield the neighbour, not the query vertex"
            );
        }
    }

    assert_eq!(
        std::any::TypeId::of::<<Und<&Mock> as GraphRef>::Out>(),
        std::any::TypeId::of::<<&Mock as GraphRef>::All>()
    );
}

#[test]
fn und_find_edge_reports_storage_orientation() {
    let m = mock();
    let u = Und::wrap(&m);

    let fwd = u.find_edge(v(1), v(2)).expect("forward hit");
    assert_eq!((fwd.source().index(), fwd.target().index()), (1, 2));

    let rev = u.find_edge(v(2), v(1)).expect("reverse hit");
    assert_eq!(
        (rev.id().index(), rev.source().index(), rev.target().index()),
        (1, 1, 2),
        "the reverse hit must not be swapped into an orientation \
         iteration never yields"
    );

    assert!(u.find_edge(v(1), v(1)).is_none());
    assert!(u.out_edges(v(2)).collect().iter().any(|i| i.edge == e(1) && i.other == v(1)));
}

#[test]
fn the_constructors_normalise() {
    let m = mock();

    let back: &Mock = (&m).reverse().reverse();
    assert_eq!(pairs(back.out_edges(v(0))), pairs((&m).out_edges(v(0))));

    let a: Und<&Mock> = (&m).reverse().undirect();
    let b: Und<&Mock> = Und::wrap(&m);
    assert_eq!(pairs(a.out_edges(v(2))), pairs(b.out_edges(v(2))));

    let c: Und<&Mock> = b.undirect();
    assert_eq!(pairs(c.out_edges(v(2))), pairs(b.out_edges(v(2))));

    fn is_directed<G: HasDir<Dir = Directed>>(_: &G) {}
    fn is_undirected<G: HasDir<Dir = Undirected>>(_: &G) {}
    is_directed(&(&m).reverse());
    is_directed(&back);
    is_undirected(&a);
}

#[test]
fn views_forward_identity_and_bounds() {
    let m = mock();
    let g = &m;
    let u = Und::wrap(g);
    let r = g.reverse();

    assert_eq!(u.graph_id(), g.graph_id());
    assert_eq!(r.graph_id(), g.graph_id());
    assert_eq!(u.vertex_bound(), g.vertex_bound());
    assert_eq!(r.edge_bound(), g.edge_bound());
    assert_eq!(u.num_vertices(), g.num_vertices());
    assert_eq!(u.num_edges(), g.num_edges());
    assert_eq!(r.num_edges(), g.num_edges());

    let m2 = mock();
    assert_ne!(g.graph_id(), (&m2).graph_id());
    assert_ne!(g.vertex_bound(), (&m2).vertex_bound());
}

#[test]
fn opposite_rejects_a_non_endpoint() {
    let m = mock();
    let g = &m;
    assert_eq!(g.opposite(e(0), v(0)), Some(v(1)));
    assert_eq!(g.opposite(e(0), v(1)), Some(v(0)));
    assert_eq!(g.opposite(e(0), v(2)), None);
    assert_eq!(g.opposite(e(7), v(0)), None);
    assert_eq!(g.reverse().opposite(e(0), v(0)), Some(v(1)));
}
