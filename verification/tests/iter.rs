//! The iterators over a block, over the vertices and over all edges.
//!
//! The ghost functions of a trait are never run, so here they are unreachable.

use gt_core::adj::{
    AdjEntry, Block, EdgeIdsOf, EdgeRef, Edges, IncidentIter, SwapEnds, Vertices,
};
use gt_core::ids::{EdgeId, VertexId};
use gt_core::walk::{BackWalk, ExactWalk, Walk};
use vstd::prelude::{nat, Seq};

fn v(i: usize) -> VertexId {
    VertexId::from_index(i)
}
fn e(i: usize) -> EdgeId {
    EdgeId::from_index(i)
}

fn entries(pairs: &[(usize, usize)]) -> Vec<AdjEntry> {
    pairs
        .iter()
        .map(|&(o, i)| AdjEntry {
            other: v(o),
            idx: e(i),
        })
        .collect()
}

const RUN: [(usize, usize); 5] = [(3, 0), (7, 4), (3, 9), (0, 2), (11, 6)];


#[test]
fn incident_yields_the_run_in_order() {
    let es = entries(&RUN);
    let got: Vec<(usize, usize)> = IncidentIter::new(&es)
        .collect()
        .into_iter()
        .map(|i| (i.other.index(), i.edge.index()))
        .collect();
    assert_eq!(got, RUN.to_vec());
}

#[test]
fn incident_fold_and_next_agree_from_every_start() {
    let es = entries(&RUN);
    for skip in 0..=RUN.len() {
        let mut by_next = IncidentIter::new(&es);
        for _ in 0..skip {
            by_next.next();
        }
        let folded = by_next.clone().fold(Vec::new(), |mut acc, i| {
            acc.push((i.other.index(), i.edge.index()));
            acc
        });
        let stepped: Vec<(usize, usize)> =
            by_next.collect().into_iter().map(|i| (i.other.index(), i.edge.index())).collect();
        assert_eq!(folded, stepped, "fold disagrees with next after {skip}");
    }
}

#[test]
fn incident_size_hint_is_exact_at_every_step() {
    let es = entries(&RUN);
    let mut it = IncidentIter::new(&es);
    for remaining in (0..=RUN.len()).rev() {
        assert_eq!(it.size_hint(), (remaining, Some(remaining)));
        assert_eq!(it.len(), remaining);
        it.next();
    }
    assert_eq!(it.size_hint(), (0, Some(0)));
    assert!(it.next().is_none());
    assert!(it.next().is_none());
}

#[test]
fn incident_double_ended_meets_in_the_middle() {
    let es = entries(&RUN);
    let mut it = IncidentIter::new(&es);
    assert_eq!(it.next().unwrap().edge.index(), 0);
    assert_eq!(it.next_back().unwrap().edge.index(), 6);
    assert_eq!(it.next_back().unwrap().edge.index(), 2);
    assert_eq!(it.len(), 2);
    let rest: Vec<usize> = it.collect().into_iter().map(|i| i.edge.index()).collect();
    assert_eq!(rest, vec![4, 9]);
}

#[test]
fn incident_empty_is_empty() {
    let mut it = IncidentIter::empty();
    assert_eq!(it.len(), 0);
    assert!(it.next().is_none());
    assert_eq!(IncidentIter::empty().count(), 0);
}


#[test]
fn edges_over_empty_blocks_yields_nothing() {
    for n in [0usize, 1, 2, 64] {
        let blocks = vec![Block::new(); n];
        assert_eq!(Edges::new(&blocks).count(), 0, "n = {n}");
        assert!(Edges::new(&blocks).next().is_none(), "n = {n}");
        assert_eq!(Edges::new(&blocks).fold(0usize, |a, _| a + 1), 0, "n = {n}");
    }
}

#[test]
fn edges_cursor_advances_one_block_at_a_time_and_never_rewinds() {
    let blocks = vec![Block::new(); 32];
    let mut it = Edges::new(&blocks);
    let mut seen = it.vertex;
    assert!(it.next().is_none());
    assert!(it.vertex >= seen);
    seen = it.vertex;
    assert_eq!(seen, blocks.len());
    assert_eq!(it.within, 0);
    for _ in 0..4 {
        assert!(it.next().is_none());
        assert_eq!(it.vertex, seen);
    }
}

#[test]
fn edges_fold_from_a_parked_cursor_is_empty() {
    let blocks = vec![Block::new(); 3];
    let mut it = Edges::new(&blocks);
    assert!(it.next().is_none());
    assert_eq!(it.clone().fold(0usize, |a, _| a + 1), 0);
    it.vertex = 99;
    it.within = 7;
    assert_eq!(it.fold(0usize, |a, _| a + 1), 0);
}


fn blocks_of(n: usize, edges: &[(usize, usize)]) -> Vec<Block> {
    let mut blocks = vec![Block::new(); n];
    for (i, &(s, t)) in edges.iter().enumerate() {
        blocks[s].insert_out(AdjEntry {
            other: v(t),
            idx: e(i),
        });
        blocks[t].insert_in(AdjEntry {
            other: v(s),
            idx: e(i),
        });
    }
    blocks
}

fn swept(blocks: &[Block]) -> Vec<(usize, usize, usize)> {
    Edges::new(blocks)
        .collect()
        .into_iter()
        .map(|r| (r.source().index(), r.target().index(), r.id().index()))
        .collect()
}

const MIXED: [(usize, usize); 6] = [(0, 1), (0, 1), (1, 0), (3, 3), (3, 4), (1, 4)];

#[test]
fn edges_yields_every_edge_exactly_once_in_storage_orientation() {
    let blocks = blocks_of(5, &MIXED);
    let mut expected = Vec::new();
    for u in 0..5 {
        for (i, &(s, t)) in MIXED.iter().enumerate() {
            if s == u {
                expected.push((s, t, i));
            }
        }
    }
    assert_eq!(swept(&blocks), expected);

    let mut ids: Vec<usize> = Edges::new(&blocks).collect().into_iter().map(|r| r.id().index()).collect();
    let n = ids.len();
    ids.sort_unstable();
    ids.dedup();
    assert_eq!(ids.len(), n, "an edge was yielded twice");
    assert_eq!(n, MIXED.len());
    assert_eq!(Edges::new(&blocks).count(), MIXED.len());
}

#[test]
fn a_self_loop_is_yielded_once() {
    let blocks = blocks_of(2, &[(0, 0), (0, 1)]);
    assert_eq!(swept(&blocks), vec![(0, 0, 0), (0, 1, 1)]);
}

#[test]
fn ids_ascend_after_a_compaction() {
    let blocks = blocks_of(3, &[(0, 1), (0, 2), (1, 2), (2, 0), (2, 1), (2, 2)]);
    let ids: Vec<usize> = Edges::new(&blocks).collect().into_iter().map(|r| r.id().index()).collect();
    assert_eq!(ids, (0..6).collect::<Vec<_>>());
}

#[test]
fn ids_are_not_sorted_when_insertion_was_not_source_major() {
    let blocks = blocks_of(3, &[(2, 0), (0, 1)]);
    assert_eq!(swept(&blocks), vec![(0, 1, 1), (2, 0, 0)]);
}

#[test]
fn skipping_empty_blocks_costs_each_block_once_for_the_whole_sweep() {
    let n = 1000;
    let blocks = blocks_of(n, &[(0, 1), (500, 2), (999, 3)]);
    let mut it = Edges::new(&blocks);
    let mut steps = 0usize;
    let mut yielded = 0usize;
    let mut at = it.vertex;
    loop {
        let got = it.next();
        assert!(it.vertex >= at, "the cursor rewound");
        steps += it.vertex - at;
        at = it.vertex;
        match got {
            Some(_) => yielded += 1,
            None => break,
        }
    }
    assert_eq!(yielded, 3);
    assert!(
        steps <= n,
        "the sweep stepped {steps} blocks over {n}: that is a rescan"
    );
}

#[test]
fn edges_fold_and_next_agree_from_every_starting_position() {
    let blocks = blocks_of(5, &MIXED);
    let full = swept(&blocks);
    for skip in 0..=full.len() {
        let mut it = Edges::new(&blocks);
        for _ in 0..skip {
            it.next();
        }
        let folded = it.clone().fold(Vec::new(), |mut acc, r| {
            acc.push((r.source().index(), r.target().index(), r.id().index()));
            acc
        });
        assert_eq!(folded, full[skip..].to_vec(), "fold disagrees after {skip}");
        assert_eq!(it.count(), full.len() - skip);
    }
}

#[test]
fn edges_is_fused_on_a_populated_list() {
    let blocks = blocks_of(4, &[(0, 1)]);
    let mut it = Edges::new(&blocks);
    assert!(it.next().is_some());
    for _ in 0..8 {
        assert!(it.next().is_none());
        assert_eq!(it.vertex, blocks.len());
    }
}


#[test]
fn vertices_are_zero_to_n_and_fold_agrees() {
    let n = 7;
    let stepped: Vec<usize> = Vertices::new(n).collect().into_iter().map(|u| u.index()).collect();
    assert_eq!(stepped, (0..n).collect::<Vec<_>>());
    let folded = Vertices::new(n).fold(Vec::new(), |mut a, u| {
        a.push(u.index());
        a
    });
    assert_eq!(folded, stepped);
    let mut it = Vertices::new(n);
    for remaining in (0..=n).rev() {
        assert_eq!(it.size_hint(), (remaining, Some(remaining)));
        it.next();
    }
}


/// A list of edges, as a walk.
struct Listed(Vec<EdgeRef>);

impl Listed {
    fn of(list: &[EdgeRef]) -> Listed {
        Listed(list.iter().rev().copied().collect())
    }
}

impl Walk for Listed {
    type Item = EdgeRef;
    fn wf(&self) -> bool {
        unreachable!()
    }
    fn rest(&self) -> Seq<EdgeRef> {
        unreachable!()
    }
    fn hint(&self) -> (nat, Option<nat>) {
        unreachable!()
    }
    fn next(&mut self) -> Option<EdgeRef> {
        self.0.pop()
    }
    fn size_hint(&self) -> (usize, Option<usize>) {
        (self.0.len(), Some(self.0.len()))
    }
}

impl ExactWalk for Listed {
    fn len(&self) -> usize {
        self.0.len()
    }
}

#[test]
fn swap_ends_exchanges_endpoints_and_keeps_identity() {
    let list = [
        EdgeRef::new(e(2), v(0), v(1)),
        EdgeRef::new(e(5), v(3), v(3)),
    ];
    let got: Vec<(usize, usize, usize)> = SwapEnds::new(Listed::of(&list))
        .collect()
        .into_iter()
        .map(|r| (r.id().index(), r.source().index(), r.target().index()))
        .collect();
    assert_eq!(got, vec![(2, 1, 0), (5, 3, 3)]);
    let folded = SwapEnds::new(Listed::of(&list)).fold(Vec::new(), |mut a, r| {
        a.push((r.id().index(), r.source().index(), r.target().index()));
        a
    });
    assert_eq!(folded, got);
    assert_eq!(SwapEnds::new(Listed::of(&list)).len(), 2);
}

#[test]
fn edge_ids_of_projects_identity_only() {
    let es = entries(&RUN);
    let ids: Vec<usize> = EdgeIdsOf::new(IncidentIter::new(&es))
        .collect()
        .into_iter()
        .map(|i| i.index())
        .collect();
    assert_eq!(ids, RUN.iter().map(|&(_, i)| i).collect::<Vec<_>>());
    let folded = EdgeIdsOf::new(IncidentIter::new(&es)).fold(Vec::new(), |mut a, i| {
        a.push(i.index());
        a
    });
    assert_eq!(folded, ids);
    assert_eq!(EdgeIdsOf::new(IncidentIter::new(&es)).len(), RUN.len());
}
