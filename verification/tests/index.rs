//! The edge table and the endpoint-pair index, against a real adjacency.

use std::collections::BTreeMap;

use gt_core::adj::{AdjEntry, Block, EHash, EdgeSlot, EdgeSlots, End, Lookup, Moved, NoLookup};
use gt_core::ids::{EdgeId, Raw, VertexId, MAX_INDEX};
use rand::{Rng, SeedableRng};
use rand_chacha::ChaCha8Rng;

fn v(i: usize) -> VertexId {
    VertexId::from_index(i)
}
fn e(i: usize) -> EdgeId {
    EdgeId::from_index(i)
}
fn slot(src: usize, tgt: usize, out_pos: Raw, in_pos: Raw) -> EdgeSlot {
    EdgeSlot {
        src: v(src),
        tgt: v(tgt),
        out_pos,
        in_pos,
    }
}


#[test]
fn slot_is_four_raws_and_the_tombstone_is_unrepresentable() {
    assert_eq!(size_of::<EdgeSlot>(), 4 * size_of::<Raw>());
    assert!(!EdgeSlot::tomb().live());
    assert!(slot(0, 0, 0, 0).live());
    assert!(slot(0, 0, MAX_INDEX as Raw, MAX_INDEX as Raw).live());
}

#[test]
fn half_names_the_owning_block() {
    let s = slot(3, 7, 1, 4);
    assert_eq!(s.half(End::Out), (v(3), 1));
    assert_eq!(s.half(End::In), (v(7), 4));
    let loop_ = slot(5, 5, 0, 2);
    assert_eq!(loop_.half(End::Out).0, loop_.half(End::In).0);
}


#[test]
fn insert_move_remove_roundtrip() {
    let mut t = EdgeSlots::new();
    t.on_insert(e(2), slot(1, 4, 0, 3));
    assert_eq!(t.endpoints(e(2)), Some((v(1), v(4))));
    assert_eq!(t.endpoints(e(0)), None);
    assert_eq!(t.endpoints(e(1)), None);
    assert_eq!(t.endpoints(e(3)), None);
    assert_eq!(t.endpoints(e(9_999)), None);

    t.on_move(Moved {
        id: e(2),
        end: End::Out,
        to: 5,
    });
    assert_eq!(t.slot[2].half(End::Out), (v(1), 5));
    assert_eq!(
        t.slot[2].half(End::In),
        (v(4), 3),
        "the other half must be untouched"
    );
    t.on_move(Moved {
        id: e(2),
        end: End::In,
        to: 6,
    });
    assert_eq!(t.slot[2].half(End::In), (v(4), 6));

    t.on_remove(e(2));
    assert_eq!(t.endpoints(e(2)), None);
    assert_eq!(t.slot[2], EdgeSlot::tomb());
}

#[test]
fn reinsert_after_release_reuses_the_slot() {
    let mut t = EdgeSlots::new();
    t.on_insert(e(0), slot(1, 2, 0, 0));
    t.on_remove(e(0));
    t.on_insert(e(0), slot(3, 4, 7, 9));
    assert_eq!(t.endpoints(e(0)), Some((v(3), v(4))));
    assert_eq!(t.slot.len(), 1, "the table grew on a reused index");
}


struct Mini {
    blocks: Vec<Block>,
    slots: EdgeSlots,
    hash: EHash,
    next: usize,
    live: Vec<(usize, usize, EdgeId)>,
}

impl Mini {
    fn new(n: usize) -> Self {
        Mini {
            blocks: vec![Block::new(); n],
            slots: EdgeSlots::new(),
            hash: EHash::default(),
            next: 0,
            live: Vec::new(),
        }
    }

    fn add(&mut self, s: usize, t: usize) -> EdgeId {
        let id = e(self.next);
        self.next += 1;
        let (out_pos, moved) = self.blocks[s].insert_out(AdjEntry {
            other: v(t),
            idx: id,
        });
        if let Some(m) = moved {
            self.slots.on_move(m);
        }
        let in_pos = self.blocks[t].insert_in(AdjEntry {
            other: v(s),
            idx: id,
        });
        self.slots.on_insert(
            id,
            EdgeSlot {
                src: v(s),
                tgt: v(t),
                out_pos,
                in_pos,
            },
        );
        self.hash.on_link(v(s), v(t), id);
        self.live.push((s, t, id));
        id
    }

    fn remove(&mut self, id: EdgeId) {
        let (s, t) = self.slots.endpoints(id).expect("live");
        let (owner, out_pos) = self
            .slots
            .locate(&self.blocks, id, End::Out)
            .expect("the out half is locatable");
        assert_eq!(owner, s);
        for m in self.blocks[s.index()]
            .remove_at(out_pos, End::Out)
            .into_iter()
            .flatten()
        {
            self.slots.on_move(m);
        }
        let (owner, in_pos) = self
            .slots
            .locate(&self.blocks, id, End::In)
            .expect("the in half is locatable");
        assert_eq!(owner, t);
        for m in self.blocks[t.index()]
            .remove_at(in_pos, End::In)
            .into_iter()
            .flatten()
        {
            self.slots.on_move(m);
        }
        self.slots.on_remove(id);
        self.hash.on_unlink(s, t, id);
        let k = self.live.iter().position(|x| x.2 == id).expect("live");
        self.live.swap_remove(k);
    }

    fn check(&self) {
        let mut seen = 0usize;
        for &(s, t, id) in &self.live {
            assert_eq!(self.slots.endpoints(id), Some((v(s), v(t))));
            let (o, p) = self.slots.locate(&self.blocks, id, End::Out).unwrap();
            assert_eq!(o, v(s));
            let entry = self.blocks[s].get(p, End::Out).unwrap();
            assert_eq!((entry.idx, entry.other), (id, v(t)));
            let (o, p) = self.slots.locate(&self.blocks, id, End::In).unwrap();
            assert_eq!(o, v(t));
            let entry = self.blocks[t].get(p, End::In).unwrap();
            assert_eq!((entry.idx, entry.other), (id, v(s)));
            seen += 2;
        }
        let entries: usize = self.blocks.iter().map(Block::degree).sum();
        assert_eq!(entries, seen, "blocks hold entries no slot points at");
        let mut model: BTreeMap<(usize, usize), Vec<EdgeId>> = BTreeMap::new();
        for &(s, t, id) in &self.live {
            model.entry((s, t)).or_default().push(id);
        }
        for ((s, t), mut want) in model {
            let mut got = self.hash.find(v(s), v(t)).to_vec();
            want.sort_unstable();
            got.sort_unstable();
            assert_eq!(got, want, "EHash disagrees about ({s},{t})");
        }
        assert_eq!(self.hash.map.len(), self.hash_keys());
        check_ehpos(&self.hash);
    }

    fn hash_keys(&self) -> usize {
        let mut ks: Vec<(usize, usize)> = self.live.iter().map(|&(s, t, _)| (s, t)).collect();
        ks.sort_unstable();
        ks.dedup();
        ks.len()
    }
}

const MIXED: [(usize, usize); 7] = [(0, 1), (0, 1), (1, 0), (3, 3), (3, 4), (1, 4), (0, 0)];

#[test]
fn the_table_tracks_the_push_swap_and_the_boundary_promotion() {
    let mut g = Mini::new(5);
    for &(s, t) in &MIXED {
        g.add(s, t);
        g.check();
    }
    assert_eq!(g.blocks[0].out_degree(), 3);
    assert_eq!(g.blocks[0].in_degree(), 2);
    let ids: Vec<EdgeId> = g.live.iter().map(|x| x.2).collect();
    for id in ids {
        g.remove(id);
        g.check();
    }
    assert!(g.blocks.iter().all(|b| b.degree() == 0));
}

#[test]
fn locate_disagrees_about_the_block_exactly_when_the_ends_differ() {
    let mut g = Mini::new(4);
    let cross = g.add(2, 3);
    let loop_ = g.add(1, 1);
    g.check();

    let out = g.slots.locate(&g.blocks, cross, End::Out).unwrap();
    let inn = g.slots.locate(&g.blocks, cross, End::In).unwrap();
    assert_eq!(out.0, v(2));
    assert_eq!(inn.0, v(3));
    assert_ne!(out.0, inn.0, "src != tgt must name two blocks");

    let out = g.slots.locate(&g.blocks, loop_, End::Out).unwrap();
    let inn = g.slots.locate(&g.blocks, loop_, End::In).unwrap();
    assert_eq!(out.0, inn.0, "a self-loop lives in one block");
    assert_ne!(
        out.1, inn.1,
        "…but in two positions, one per half, never the same entry"
    );
    assert_eq!(g.blocks[1].get(out.1, End::Out).unwrap().idx, loop_);
    assert_eq!(g.blocks[1].get(inn.1, End::In).unwrap().idx, loop_);
}

#[test]
fn locate_is_total() {
    let mut g = Mini::new(3);
    let kept = g.add(0, 1);
    let gone = g.add(1, 2);
    g.remove(gone);

    assert_eq!(g.slots.locate(&g.blocks, gone, End::Out), None);
    assert_eq!(g.slots.locate(&g.blocks, gone, End::In), None);
    assert_eq!(g.slots.endpoints(gone), None);
    assert_eq!(g.slots.locate(&g.blocks, e(50), End::Out), None);
    assert_eq!(g.slots.locate(&g.blocks, e(50), End::In), None);
    assert!(g.slots.locate(&g.blocks, kept, End::Out).is_some());
    assert_eq!(g.slots.locate(&g.blocks[..1], kept, End::In), None);
    assert_eq!(g.slots.locate(&[], kept, End::Out), None);

    g.add(2, 0);
    let mut t = EdgeSlots::new();
    t.on_insert(kept, slot(0, 0, 0, 0));
    assert!(
        t.locate(&g.blocks, kept, End::Out).is_some(),
        "position 0 of vertex 0's out-half really is `kept`"
    );
    assert_eq!(
        t.locate(&g.blocks, kept, End::In),
        None,
        "the same number read against the in-half must not match"
    );
}


#[test]
fn rebuild_reproduces_the_incremental_table() {
    let mut g = Mini::new(5);
    for &(s, t) in &MIXED {
        g.add(s, t);
    }
    g.remove(e(1));
    g.remove(e(4));
    g.check();

    let mut fresh = EdgeSlots::new();
    fresh.rebuild(&g.blocks, g.next);
    assert_eq!(fresh.slot.len(), g.next);
    assert_eq!(
        fresh.slot, g.slots.slot,
        "rebuild_epos must reproduce the incremental state exactly"
    );

    let mut fresh_hash = EHash::default();
    fresh_hash.rebuild(&g.blocks);
    check_ehpos(&fresh_hash);
    let keys = |h: &EHash| {
        let mut ks: Vec<_> = h.map.keys().copied().collect();
        ks.sort_unstable();
        ks
    };
    assert_eq!(keys(&fresh_hash), keys(&g.hash));
    for k in keys(&g.hash) {
        let (s, t) = (v(k.0 as usize), v(k.1 as usize));
        let mut a = g.hash.find(s, t).to_vec();
        let mut b = fresh_hash.find(s, t).to_vec();
        a.sort_unstable();
        b.sort_unstable();
        assert_eq!(a, b, "rebuild_ehash disagrees about {k:?}");
    }
}

#[test]
fn rebuild_gives_the_same_table_for_every_bound_above_the_entries() {
    let mut g = Mini::new(5);
    for &(s, t) in &MIXED {
        g.add(s, t);
    }
    let last = g.next - 1;
    g.remove(e(1));
    g.remove(e(last));
    for bound in [last, g.next, g.next + 7] {
        let mut fresh = EdgeSlots::new();
        fresh.on_insert(e(1), slot(3, 3, 0, 1));
        fresh.rebuild(&g.blocks, bound);
        assert_eq!(fresh.slot.len(), bound);
        for i in 0..g.next + 9 {
            assert_eq!(fresh.endpoints(e(i)), g.slots.endpoints(e(i)));
            for end in [End::Out, End::In] {
                assert_eq!(
                    fresh.locate(&g.blocks, e(i), end),
                    g.slots.locate(&g.blocks, e(i), end)
                );
            }
        }
        assert_eq!(fresh.endpoints(e(1)), None);
        assert_eq!(fresh.endpoints(e(last)), None);
    }
}

#[test]
fn rebuild_drops_the_entries_outside_the_index_range() {
    let mut g = Mini::new(5);
    for &(s, t) in &MIXED {
        g.add(s, t);
    }
    for bound in 0..g.next {
        let mut fresh = EdgeSlots::new();
        fresh.rebuild(&g.blocks, bound);
        assert_eq!(fresh.slot[..], g.slots.slot[..bound]);
    }
}

#[test]
fn rebuild_sizes_to_the_index_range_and_tombstones_the_holes() {
    let mut t = EdgeSlots::new();
    t.on_insert(e(4), slot(0, 0, 0, 0));
    t.rebuild(&[], 6);
    assert_eq!(t.slot.len(), 6);
    assert!(t.slot.iter().all(|s| *s == EdgeSlot::tomb()));
    for i in 0..6 {
        assert_eq!(t.endpoints(e(i)), None);
    }
    t.rebuild(&[Block::new(), Block::new()], 0);
    assert!(t.slot.is_empty());
    assert_eq!(t.endpoints(e(0)), None);
}


#[test]
fn a_random_mutation_sequence_keeps_every_index_exact() {
    let mut rng = ChaCha8Rng::seed_from_u64(0x5107_7ab1e);
    for n in [1usize, 2, 3, 8] {
        let mut g = Mini::new(n);
        for _ in 0..400 {
            if !g.live.is_empty() && rng.random_range(0..3) == 0 {
                let k = rng.random_range(0..g.live.len());
                let id = g.live[k].2;
                g.remove(id);
            } else {
                g.add(rng.random_range(0..n), rng.random_range(0..n));
            }
            g.check();
        }
        let mut fresh = EdgeSlots::new();
        fresh.rebuild(&g.blocks, g.next);
        assert_eq!(fresh.slot, g.slots.slot);
    }
}


fn check_ehpos(h: &EHash) {
    for (key, bucket) in &h.map {
        assert!(
            !bucket.is_empty(),
            "empty bucket for {key:?} was not erased"
        );
        for (i, id) in bucket.iter().enumerate() {
            assert_eq!(
                h.pos[id.index()] as usize,
                i,
                "`pos` disagrees with the bucket for {id:?}"
            );
        }
    }
}

#[test]
fn ehash_swap_removes_and_erases_empty_buckets() {
    let mut h = EHash::default();
    for i in 0..3 {
        h.on_link(v(1), v(2), e(i));
    }
    h.on_link(v(2), v(1), e(3));
    check_ehpos(&h);
    assert_eq!(h.find(v(1), v(2)).len(), 3);
    assert_eq!(h.find(v(2), v(1)), &[e(3)]);
    assert_eq!(h.find(v(2), v(2)), &[], "an absent pair is an empty slice");

    h.on_unlink(v(1), v(2), e(0));
    check_ehpos(&h);
    let mut got: Vec<_> = h.find(v(1), v(2)).to_vec();
    got.sort_unstable();
    assert_eq!(got, vec![e(1), e(2)]);

    h.on_unlink(v(1), v(2), e(1));
    h.on_unlink(v(1), v(2), e(2));
    check_ehpos(&h);
    assert_eq!(h.find(v(1), v(2)), &[]);
    assert!(
        !h.map.contains_key(&(1, 2)),
        "the key outlived its last edge"
    );
    h.on_unlink(v(2), v(1), e(3));
    assert!(h.map.is_empty());
}


#[test]
fn nolookup_is_a_zero_sized_no_op() {
    assert_eq!((NoLookup::ENABLED, EHash::ENABLED), (false, true));
    assert_eq!(size_of::<NoLookup>(), 0);
    let mut n = NoLookup;
    n.on_link(v(0), v(1), e(0));
    assert_eq!(n.find(v(0), v(1)), &[]);
    n.on_unlink(v(0), v(1), e(0));
    n.rebuild(&[Block::new()]);
}
