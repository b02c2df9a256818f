//! Staged construction.

use gt_core::adj::{AdjList, EHash, Lookup, NoLookup, ParBuilder};
use gt_core::error::GraphError;
use gt_core::ids::{EdgeId, VertexId};
use gt_core::walk::Walk;

fn fingerprint<H: Lookup>(g: &AdjList<H>) -> Vec<u64> {
    let mut f = vec![
        g.num_vertices() as u64,
        g.num_edges() as u64,
        g.edge_bound().len() as u64,
    ];
    for i in 0..g.edge_bound().len() {
        match g.endpoints(EdgeId::from_index(i)) {
            Some((s, t)) => f.extend([1, s.index() as u64, t.index() as u64]),
            None => f.extend([0, 0, 0]),
        }
    }
    for v in g.vertices().collect() {
        let b = g.block(v).expect("vertex in range");
        f.push(b.out_degree() as u64);
        f.push(b.degree() as u64);
        for e in b.all() {
            f.push(e.other.index() as u64);
            f.push(e.idx.index() as u64);
        }
    }
    f
}

fn mix(seed: u64, i: u64) -> u64 {
    let mut z = seed
        .wrapping_add(i.wrapping_mul(0x9e37_79b9_7f4a_7c15))
        .wrapping_add(0x9e37_79b9_7f4a_7c15);
    z = (z ^ (z >> 30)).wrapping_mul(0xbf58_476d_1ce4_e5b9);
    z = (z ^ (z >> 27)).wrapping_mul(0x94d0_49bb_1331_11eb);
    z ^ (z >> 31)
}

const N: usize = 512;
const CHUNKS: usize = 37;
const PER: usize = 53;

fn staged() -> ParBuilder {
    let mut b = ParBuilder::new(N, CHUNKS);
    b.fill(|k, out| {
        for j in 0..PER {
            let i = (k * PER + j) as u64;
            let s = mix(0xA5A5, 2 * i) as usize % N;
            let t = if mix(0xA5A5, 4 * i) % 10 == 0 {
                s
            } else {
                mix(0xA5A5, 2 * i + 1) as usize % N
            };
            out.push((VertexId::from_index(s), VertexId::from_index(t)));
        }
    });
    b
}

#[test]
fn the_pool_size_changes_nothing() {
    let mut seen: Option<Vec<u64>> = None;
    for threads in [1usize, 4, 16] {
        let pool = rayon::ThreadPoolBuilder::new()
            .num_threads(threads)
            .build()
            .expect("thread pool");
        let g = pool
            .install(|| staged().build(NoLookup))
            .expect("build must succeed");
        g.validate().expect("the built graph must validate");
        assert_eq!(g.num_edges(), CHUNKS * PER);
        let f = fingerprint(&g);
        match &seen {
            None => seen = Some(f),
            Some(first) => assert_eq!(
                *first, f,
                "the graph built on {threads} threads differs from the one built on 1"
            ),
        }
    }
}

fn hashed(threads: usize) -> Vec<u64> {
    let pool = rayon::ThreadPoolBuilder::new()
        .num_threads(threads)
        .build()
        .expect("thread pool");
    let g = pool
        .install(|| staged().build(EHash::default()))
        .expect("build must succeed");
    g.validate().expect("the built graph must validate");
    fingerprint(&g)
}

#[test]
fn the_pool_size_changes_nothing_with_a_lookup_index() {
    assert_eq!(hashed(1), hashed(16));
}

#[test]
fn fill_appends_rather_than_replacing() {
    let mut b = ParBuilder::new(4, 2);
    let one = |k: usize, out: &mut Vec<(VertexId, VertexId)>| {
        out.push((VertexId::from_index(k), VertexId::from_index(k + 1)));
    };
    b.fill(one);
    b.fill(one);
    let g = b.build(NoLookup).expect("build");
    assert_eq!(g.num_edges(), 4);
    for id in 0..4 {
        let k = id / 2;
        assert_eq!(
            g.endpoints(EdgeId::from_index(id)),
            Some((VertexId::from_index(k), VertexId::from_index(k + 1)))
        );
    }
}

#[test]
fn a_builder_with_no_chunks_builds_the_edgeless_graph() {
    let b = ParBuilder::new(3, 0);
    assert_eq!(b.chunks(), 0);
    let g = b.build(NoLookup).expect("build");
    assert_eq!((g.num_vertices(), g.num_edges()), (3, 0));
    g.validate().expect("validate");
    let d = ParBuilder::default();
    assert_eq!(d.chunks(), 0);
    assert_eq!(d.build(NoLookup).expect("build").num_vertices(), 0);
}

#[test]
fn staged_pairs_are_numbered_in_chunk_order() {
    let mut b = ParBuilder::new(3, 2);
    let v = VertexId::from_index;
    b.push(1, v(2), v(0));
    b.push(0, v(0), v(1));
    b.push(1, v(1), v(1));
    let g = b.build(EHash::default()).expect("build");
    assert_eq!(g.endpoints(EdgeId::from_index(0)), Some((v(0), v(1))));
    assert_eq!(g.endpoints(EdgeId::from_index(1)), Some((v(2), v(0))));
    assert_eq!(g.endpoints(EdgeId::from_index(2)), Some((v(1), v(1))));
    g.validate().expect("validate");
}

#[test]
fn a_staged_pair_outside_the_graph_is_refused() {
    let v = VertexId::from_index;
    let mut b = ParBuilder::new(2, 1);
    b.push(0, v(0), v(1));
    b.push(0, v(0), v(5));
    assert_eq!(b.build(NoLookup).unwrap_err(), GraphError::NoSuchVertex(v(5)));
    let mut b = ParBuilder::new(2, 1);
    b.push(0, v(7), v(5));
    assert_eq!(b.build(NoLookup).unwrap_err(), GraphError::NoSuchVertex(v(7)));
}

#[test]
fn a_merge_is_adding_one_by_one() {
    let pairs = [(0, 1), (1, 1), (2, 0), (0, 1), (1, 2)];
    let mut b = ParBuilder::new(3, 3);
    // Staged out of chunk order, merged in it.
    b.push(2, VertexId::from_index(0), VertexId::from_index(1));
    b.push(2, VertexId::from_index(1), VertexId::from_index(2));
    b.push(0, VertexId::from_index(0), VertexId::from_index(1));
    b.push(0, VertexId::from_index(1), VertexId::from_index(1));
    b.push(1, VertexId::from_index(2), VertexId::from_index(0));
    let merged = b.build(NoLookup).expect("in range");
    let mut added = AdjList::with_vertices(3);
    for (s, t) in pairs {
        added
            .add_edge(VertexId::from_index(s), VertexId::from_index(t))
            .expect("in range");
    }
    assert_eq!(fingerprint(&merged), fingerprint(&added));
    assert_eq!((merged.num_edges(), merged.edge_bound().len()), (5, 5));
}

#[test]
fn the_first_pair_that_is_refused_decides() {
    let mut b = ParBuilder::new(2, 2);
    b.push(1, VertexId::from_index(9), VertexId::from_index(8));
    b.push(0, VertexId::from_index(0), VertexId::from_index(1));
    b.push(0, VertexId::from_index(1), VertexId::from_index(7));
    assert_eq!(
        b.build(NoLookup).map(|_| ()),
        Err(GraphError::NoSuchVertex(VertexId::from_index(7)))
    );
}
