//! The adjacency list against a naive reference, with and without an index.

use std::collections::BTreeMap;
use std::sync::Arc;

use gt_core::adj::{AdjList, EHash, EdgeIds, EdgeRef, Graph, Lookup, LookupGraph, NoLookup};
use gt_core::dir::{Dir, Directed, Field, Undirected};
use gt_core::error::{GraphError, PropError};
use gt_core::graph::GraphOwner;
use gt_core::ids::{EdgeId, VertexId};
use gt_core::prop::{DenseProp, EdgeProp, VertexProp};
use gt_core::view::{own_reversed, own_undirected, Reverse, Undirect};
use gt_core::walk::Walk;

fn v(i: usize) -> VertexId {
    VertexId::from_index(i)
}
fn e(i: usize) -> EdgeId {
    EdgeId::from_index(i)
}

/// Edges by identity, and how many vertices there are.
struct Model {
    n: usize,
    edges: BTreeMap<usize, (usize, usize)>,
}

impl Model {
    fn drop_where(&mut self, f: impl Fn(usize, (usize, usize)) -> bool) {
        self.edges.retain(|&i, &mut p| !f(i, p));
    }
    fn swap_remove(&mut self, u: usize) {
        self.drop_where(|_, (s, t)| s == u || t == u);
        self.n -= 1;
        let last = self.n;
        for p in self.edges.values_mut() {
            if p.0 == last {
                p.0 = u;
            }
            if p.1 == last {
                p.1 = u;
            }
        }
    }
}

fn check<H: Lookup>(g: &AdjList<H>, m: &Model) {
    assert_eq!(g.validate(), Ok(()));
    assert_eq!(g.num_vertices(), m.n);
    assert_eq!(g.num_edges(), m.edges.len());
    for u in 0..m.n {
        let mut out: Vec<(usize, usize)> = g
            .out_edges(v(u))
            .collect()
            .iter()
            .map(|i| (i.edge.index(), i.other.index()))
            .collect();
        let mut inc: Vec<(usize, usize)> = g
            .in_edges(v(u))
            .collect()
            .iter()
            .map(|i| (i.edge.index(), i.other.index()))
            .collect();
        out.sort_unstable();
        inc.sort_unstable();
        let want_out: Vec<(usize, usize)> = m
            .edges
            .iter()
            .filter(|(_, p)| p.0 == u)
            .map(|(&i, p)| (i, p.1))
            .collect();
        let want_in: Vec<(usize, usize)> = m
            .edges
            .iter()
            .filter(|(_, p)| p.1 == u)
            .map(|(&i, p)| (i, p.0))
            .collect();
        assert_eq!(out, want_out);
        assert_eq!(inc, want_in);
        assert_eq!(g.out_degree(v(u)), want_out.len());
        assert_eq!(g.in_degree(v(u)), want_in.len());
        assert_eq!(g.degree(v(u)), want_out.len() + want_in.len());
        assert_eq!(g.all_edges(v(u)).count(), g.degree(v(u)));
        for w in 0..m.n {
            let hit = g.find_edge(v(u), v(w));
            let any = m.edges.iter().any(|(_, &p)| p == (u, w));
            assert_eq!(hit.is_some(), any);
            if let Some(r) = hit {
                assert_eq!(m.edges[&r.id().index()], (u, w));
                assert_eq!((r.source(), r.target()), (v(u), v(w)));
            }
        }
    }
    let mut listed: Vec<(usize, (usize, usize))> = g
        .edges()
        .collect()
        .iter()
        .map(|r| (r.id().index(), (r.source().index(), r.target().index())))
        .collect();
    listed.sort_unstable();
    let want: Vec<(usize, (usize, usize))> = m.edges.iter().map(|(&i, &p)| (i, p)).collect();
    assert_eq!(listed, want);
    for i in 0..g.edge_bound().len() {
        assert_eq!(
            g.endpoints(e(i)),
            m.edges.get(&i).map(|&(s, t)| (v(s), v(t)))
        );
    }
}

fn replay<H: Lookup + Default>(seed: u64) {
    let mut state = seed;
    let mut draw = |n: usize| {
        state = state
            .wrapping_mul(6_364_136_223_846_793_005)
            .wrapping_add(1_442_695_040_888_963_407);
        (state >> 33) as usize % n
    };
    for _ in 0..150 {
        let n = 1 + draw(6);
        let mut g: AdjList<H> = AdjList::with_vertices_and_lookup(n, H::default());
        let mut m = Model {
            n,
            edges: BTreeMap::new(),
        };
        for _ in 0..24 {
            match draw(8) {
                0..=3 if m.n > 0 => {
                    let (s, t) = (draw(m.n), draw(m.n));
                    let r = g.add_edge(v(s), v(t)).expect("in range");
                    assert!(m.edges.insert(r.id().index(), (s, t)).is_none());
                }
                4 if !m.edges.is_empty() => {
                    let k = draw(m.edges.len());
                    let id = *m.edges.keys().nth(k).expect("k is in range");
                    assert_eq!(g.remove_edge(e(id)), Ok(()));
                    m.edges.remove(&id);
                }
                5 if m.n > 0 => {
                    let u = draw(m.n);
                    if draw(2) == 0 {
                        assert_eq!(g.clear_vertex(v(u)), Ok(()));
                        m.drop_where(|_, (s, t)| s == u || t == u);
                    } else {
                        assert_eq!(
                            g.clear_vertex_where(v(u), |id, _| id.index() % 2 == 0),
                            Ok(())
                        );
                        m.drop_where(|i, (s, t)| (s == u || t == u) && i % 2 == 0);
                    }
                }
                6 if m.n > 0 => {
                    let u = draw(m.n);
                    assert_eq!(g.swap_remove_vertex(v(u)), Ok(()));
                    m.swap_remove(u);
                }
                7 => {
                    assert_eq!(g.add_vertex(), Ok(v(m.n)));
                    m.n += 1;
                }
                _ => {}
            }
            check(&g, &m);
        }
        g.shrink_to_fit();
        check(&g, &m);
        let copy = g.clone();
        check(&copy, &m);
    }
}

#[test]
fn random_sequences_agree_with_the_reference() {
    replay::<NoLookup>(0x1234_5678);
}

#[test]
fn random_sequences_agree_with_the_reference_under_an_index() {
    replay::<EHash>(0x9abc_def0);
}

#[test]
fn every_refusal_names_what_is_missing() {
    let mut g: LookupGraph = AdjList::with_vertices_and_lookup(2, EHash::default());
    let missing = |r: Result<EdgeRef, GraphError>| r.map(|x| x.id()).unwrap_err();
    assert_eq!(
        missing(g.add_edge(v(5), v(9))),
        GraphError::NoSuchVertex(v(5))
    );
    assert_eq!(
        missing(g.add_edge(v(0), v(2))),
        GraphError::NoSuchVertex(v(2))
    );
    assert_eq!(g.remove_edge(e(0)), Err(GraphError::NoSuchEdge(e(0))));
    assert_eq!(g.clear_vertex(v(2)), Err(GraphError::NoSuchVertex(v(2))));
    assert_eq!(
        g.clear_vertex_where(v(3), |_, _| true),
        Err(GraphError::NoSuchVertex(v(3)))
    );
    assert_eq!(
        g.swap_remove_vertex(v(2)),
        Err(GraphError::NoSuchVertex(v(2)))
    );
    let id = g.add_edge(v(0), v(1)).expect("in range").id();
    assert_eq!(g.remove_edge(id), Ok(()));
    assert_eq!(g.remove_edge(id), Err(GraphError::NoSuchEdge(id)));
    assert_eq!(g.endpoints(id), None);
}

/// A predicate that matches only the loop takes one edge away.
#[test]
fn clearing_a_loop_counts_it_once() {
    let mut g: Graph = AdjList::with_vertices(2);
    let loop_ = g.add_edge(v(0), v(0)).expect("in range").id();
    let other = g.add_edge(v(0), v(1)).expect("in range").id();
    assert_eq!((g.degree(v(0)), g.num_edges()), (3, 2));
    let mut asked = Vec::new();
    g.clear_vertex_where(v(0), |id, _| {
        asked.push(id);
        id == loop_
    })
    .expect("in range");
    assert_eq!(g.num_edges(), 1);
    assert_eq!(g.endpoints(loop_), None);
    assert_eq!(g.endpoints(other), Some((v(0), v(1))));
    assert_eq!(asked, vec![loop_, other]);
    assert_eq!(g.validate(), Ok(()));
}

/// An edge has no orientation to remove it by.
#[test]
fn an_edge_is_removed_by_its_identity() {
    let mut a: Graph = AdjList::with_vertices(2);
    a.add_edge(v(0), v(1)).expect("in range");
    let mut b = a.clone();
    let forward = a.find_edge(v(0), v(1)).expect("there");
    let backward = b.find_edge(v(0), v(1)).expect("there").reversed();
    assert_eq!((backward.source(), backward.target()), (v(1), v(0)));
    a.remove_edge(forward.id()).expect("there");
    b.remove_edge(EdgeId::from(backward)).expect("there");
    assert_eq!((a.num_edges(), b.num_edges()), (0, 0));
}

#[test]
fn removing_undoes_adding() {
    let mut g: Graph = AdjList::with_vertices(3);
    g.add_edge(v(0), v(1)).expect("in range");
    g.add_edge(v(2), v(0)).expect("in range");
    let before: Vec<(usize, usize, usize)> = listed(&g);
    let r = g.add_edge(v(0), v(2)).expect("in range");
    g.remove_edge(r.id()).expect("there");
    assert_eq!(listed(&g), before);
    assert_eq!(g.add_edge(v(1), v(2)).expect("in range").id(), r.id());
}

fn listed(g: &Graph) -> Vec<(usize, usize, usize)> {
    g.edges()
        .collect()
        .iter()
        .map(|r| (r.id().index(), r.source().index(), r.target().index()))
        .collect()
}

#[test]
fn an_index_finds_the_first_edge_of_a_pair() {
    let mut g: LookupGraph = AdjList::with_lookup(EHash::default());
    for _ in 0..3 {
        g.add_vertex().expect("room");
    }
    let a = g.add_edge(v(0), v(1)).expect("in range").id();
    let b = g.add_edge(v(0), v(1)).expect("in range").id();
    assert_eq!(g.find_edge(v(0), v(1)).map(|r| r.id()), Some(a));
    g.remove_edge(a).expect("there");
    assert_eq!(g.find_edge(v(0), v(1)).map(|r| r.id()), Some(b));
    g.remove_edge(b).expect("there");
    assert!(g.find_edge(v(0), v(1)).is_none());
    assert!(g.find_edge(v(7), v(1)).is_none());
}

#[test]
fn two_graphs_have_two_identities() {
    let a: Graph = AdjList::new();
    let b = a.clone();
    let c: Graph = AdjList::default();
    assert_ne!(a.graph_id(), b.graph_id());
    assert_ne!(a.graph_id(), c.graph_id());
    assert_ne!(b.graph_id(), c.graph_id());
    assert_eq!(a.vertex_bound().graph(), a.graph_id());
    assert_eq!(a.edge_bound().graph(), a.graph_id());
    assert_eq!(b.num_vertices(), 0);
    assert!(a.block(v(0)).is_none());
}

#[test]
fn a_clone_is_a_graph_of_its_own() {
    let mut g: Graph = AdjList::with_vertices(2);
    g.add_edge(v(0), v(1)).expect("in range");
    let h: Graph = AdjList::with_vertices(2);
    let mut c = g.clone();
    assert_ne!(g.graph_id(), h.graph_id());
    assert_ne!(g.graph_id(), c.graph_id());
    assert_ne!(h.graph_id(), c.graph_id());
    assert_eq!(listed(&c), listed(&g));
    assert_eq!(c.vertex_bound().len(), g.vertex_bound().len());

    let mut map: VertexProp<i64> = DenseProp::new(g.graph_id());
    assert!(map.sized_for(g.vertex_bound()).is_ok());
    assert_eq!(
        map.sized_for(c.vertex_bound()).unwrap_err(),
        PropError::WrongGraph {
            owner: g.graph_id().get(),
            expected: c.graph_id().get(),
        }
    );
    assert!(map.view(c.vertex_bound()).is_err());
    let mut edges: EdgeProp<i64> = DenseProp::new(c.graph_id());
    assert!(edges.sized_for(c.edge_bound()).is_ok());
    assert!(edges.sized_for(g.edge_bound()).is_err());

    c.add_edge(v(1), v(1)).expect("in range");
    assert_eq!((g.num_edges(), c.num_edges()), (1, 2));
    assert_eq!((g.validate(), c.validate()), (Ok(()), Ok(())));

    let mut indexed: LookupGraph = AdjList::with_lookup(EHash::default());
    indexed.add_vertex().expect("room");
    indexed.add_edge(v(0), v(0)).expect("in range");
    let copy = indexed.clone();
    assert_ne!(indexed.graph_id(), copy.graph_id());
    assert_eq!(copy.find_edge(v(0), v(0)).map(|r| r.id()), Some(e(0)));
    assert_eq!(copy.validate(), Ok(()));
}

#[test]
fn an_edge_taken_out_and_put_back_is_the_same_edge() {
    let pairs = [(0, 1), (1, 1), (2, 1), (1, 0), (0, 1), (1, 1)];
    for k in 0..pairs.len() {
        let mut g: LookupGraph = AdjList::with_lookup(EHash::default());
        for _ in 0..3 {
            g.add_vertex().expect("room");
        }
        for (s, t) in pairs {
            g.add_edge(v(s), v(t)).expect("in range");
        }
        g.remove_edge(e(k)).expect("there");
        assert_eq!(g.endpoints(e(k)), None);
        let r = g.add_edge(v(pairs[k].0), v(pairs[k].1)).expect("in range");
        assert_eq!(r.id(), e(k));
        for (i, (s, t)) in pairs.into_iter().enumerate() {
            assert_eq!(g.endpoints(e(i)), Some((v(s), v(t))));
        }
        assert_eq!((g.num_edges(), g.edge_bound().len()), (6, 6));
        assert_eq!(g.validate(), Ok(()));
    }
}

#[test]
fn identifiers_are_reused_and_compacted() {
    let mut ids = EdgeIds::new();
    for i in 0..5 {
        assert_eq!(ids.allocate().expect("room"), e(i));
    }
    ids.release(e(1));
    ids.release(e(3));
    assert_eq!((ids.live(), ids.bound()), (3, 5));
    assert_eq!(ids.allocate().expect("room"), e(3));
    ids.release(e(3));
    let map = ids.compact();
    assert_eq!((ids.live(), ids.bound()), (3, 3));
    let mut kept: Vec<usize> = [0usize, 2, 4].iter().map(|&i| map[i].index()).collect();
    kept.sort_unstable();
    assert_eq!(kept, vec![0, 1, 2]);
    let mut all: Vec<usize> = map.iter().map(|i| i.index()).collect();
    all.sort_unstable();
    assert_eq!(all, vec![0, 1, 2, 3, 4]);
    assert_eq!(EdgeIds::max_index(), gt_core::ids::MAX_INDEX);
}

#[test]
fn a_shared_graph_lends_its_views() {
    let mut g: Graph = AdjList::with_vertices(3);
    g.add_edge(v(0), v(1)).expect("in range");
    g.add_edge(v(1), v(2)).expect("in range");
    let shared = Arc::new(g);
    let base = shared.as_graph();
    assert_eq!(base.num_edges(), 2);
    let r = base.reverse();
    let u = base.undirect();
    assert_eq!(gt_core::graph::GraphRef::out_degree(r, v(1)), 1);
    assert_eq!(gt_core::graph::GraphRef::out_degree(u, v(1)), 2);
    let owned = own_reversed(Arc::clone(&shared));
    assert!(Arc::ptr_eq(&owned.into_forward(), &shared));
    let owned = own_undirected(Arc::clone(&shared));
    assert!(Arc::ptr_eq(&owned.into_directed(), &shared));
    assert!(Arc::ptr_eq(&Arc::clone(&shared).reverse().reverse(), &shared));
}

#[test]
fn fields_are_numbered_within_their_direction() {
    assert_eq!((Directed::N_FIELDS, Undirected::N_FIELDS), (4, 2));
    assert_eq!((Directed::NAME, Undirected::NAME), ("directed", "undirected"));
    assert_eq!(
        [
            Field::<Directed>::r_out().index(),
            Field::<Directed>::nr_out().index(),
            Field::<Directed>::r_in().index(),
            Field::<Directed>::nr_in().index(),
        ],
        [0, 1, 2, 3]
    );
    assert_eq!(Field::<Undirected>::r_out().index(), 0);
    assert_eq!(format!("{:?}", Field::<Directed>::r_in()), "Field<directed>(2)");
    assert!(Field::<Directed>::r_in().index() < Directed::N_FIELDS);
}

/// What the storage costs.
#[test]
fn the_sizes_of_the_storage() {
    assert_eq!(size_of::<VertexId>(), 4);
    assert_eq!(size_of::<gt_core::adj::AdjEntry>(), 8);
    assert_eq!(size_of::<gt_core::adj::Block>(), 32);
    assert_eq!(size_of::<gt_core::adj::EdgeSlot>(), 16);
}
