//! The adjacency block: its splices, their notifications and its layout.

use std::collections::HashMap;
use std::time::{Duration, Instant};

use gt_core::adj::{AdjEntry, Block, End, Moved};
use gt_core::ids::{EdgeId, Raw, VertexId};

fn entry(other: usize, idx: usize) -> AdjEntry {
    AdjEntry {
        other: VertexId::from_index(other),
        idx: EdgeId::from_index(idx),
    }
}

fn bag(v: &[AdjEntry]) -> Vec<(usize, usize)> {
    let mut s: Vec<_> = v.iter().map(|e| (e.idx.index(), e.other.index())).collect();
    s.sort_unstable();
    s
}

fn moved_is_honest(b: &Block, ms: &[Option<Moved>]) {
    for m in ms.iter().flatten() {
        assert_eq!(
            b.get(m.to, m.end).map(|e| e.idx),
            Some(m.id),
            "notification {m:?} does not describe the block"
        );
    }
}


#[test]
fn insert_out_is_the_push_swap() {
    let mut b = Block::new();
    b.insert_in(entry(10, 0));
    b.insert_in(entry(11, 1));

    let (pos, mv) = b.insert_out(entry(20, 2));

    assert_eq!(pos, 0);
    assert_eq!(
        mv,
        Some(Moved {
            id: EdgeId::from_index(0),
            end: End::In,
            to: 2
        })
    );
    assert_eq!(b.all(), &[entry(20, 2), entry(11, 1), entry(10, 0)]);
    assert_eq!(b.out(), &[entry(20, 2)]);
    assert_eq!(b.inc(), &[entry(11, 1), entry(10, 0)]);
    moved_is_honest(&b, &[mv]);
}

#[test]
fn insert_out_with_an_empty_in_half_moves_nothing() {
    let mut b = Block::new();
    let (p0, m0) = b.insert_out(entry(1, 0));
    let (p1, m1) = b.insert_out(entry(2, 1));
    assert_eq!((p0, p1), (0, 1));
    assert_eq!((m0, m1), (None, None));
    assert_eq!(b.out_degree(), 2);
    assert_eq!(b.in_degree(), 0);
}

#[test]
fn insert_in_appends() {
    let mut b = Block::new();
    b.insert_out(entry(1, 0));
    assert_eq!(b.insert_in(entry(2, 1)), 1);
    assert_eq!(b.insert_in(entry(3, 2)), 2);
    assert_eq!(b.inc(), &[entry(2, 1), entry(3, 2)]);
}

#[test]
fn remove_out_fills_the_hole_then_promotes_across_the_boundary() {
    let mut b = Block::new();
    b.insert_out(entry(10, 0));
    b.insert_out(entry(11, 1));
    b.insert_out(entry(12, 2));
    b.insert_in(entry(20, 3));
    b.insert_in(entry(21, 4));
    let ms = b.remove_at(0, End::Out);

    assert_eq!(
        ms[0],
        Some(Moved {
            id: EdgeId::from_index(2),
            end: End::Out,
            to: 0
        })
    );
    assert_eq!(
        ms[1],
        Some(Moved {
            id: EdgeId::from_index(4),
            end: End::In,
            to: 2
        })
    );
    assert_eq!(b.out(), &[entry(12, 2), entry(11, 1)]);
    assert_eq!(b.inc(), &[entry(21, 4), entry(20, 3)]);
    moved_is_honest(&b, &ms);
}

#[test]
fn removing_the_last_out_entry_reports_no_self_move() {
    let mut b = Block::new();
    b.insert_out(entry(10, 0));
    b.insert_out(entry(11, 1));
    let ms = b.remove_at(1, End::Out);
    assert_eq!(ms, [None, None]);
    assert_eq!(b.out(), &[entry(10, 0)]);
    assert_eq!(b.degree(), 1);
}

#[test]
fn remove_in_swaps_with_the_block_back() {
    let mut b = Block::new();
    b.insert_out(entry(10, 0));
    b.insert_in(entry(20, 1));
    b.insert_in(entry(21, 2));
    b.insert_in(entry(22, 3));
    let ms = b.remove_at(1, End::In);
    assert_eq!(
        ms,
        [
            Some(Moved {
                id: EdgeId::from_index(3),
                end: End::In,
                to: 1
            }),
            None
        ]
    );
    assert_eq!(b.inc(), &[entry(22, 3), entry(21, 2)]);
    assert_eq!(b.out(), &[entry(10, 0)]);
    moved_is_honest(&b, &ms);
}

#[test]
fn self_loop_out_removal_relocates_its_own_in_entry() {
    let mut b = Block::new();
    b.insert_out(entry(0, 7)); // loop 7: out-half
    let in_pos = b.insert_in(entry(0, 7)); // loop 7: in-half
    assert_eq!((b.out_degree(), in_pos), (1, 1));

    let ms = b.remove_at(0, End::Out);
    assert_eq!(
        ms,
        [
            None,
            Some(Moved {
                id: EdgeId::from_index(7),
                end: End::In,
                to: 0
            })
        ]
    );
    assert_eq!(b.out_degree(), 0);
    assert_eq!(b.inc(), &[entry(0, 7)]);
    moved_is_honest(&b, &ms);
}

#[test]
fn get_refuses_the_other_half() {
    let mut b = Block::new();
    b.insert_out(entry(1, 0));
    b.insert_in(entry(2, 1));
    assert_eq!(b.get(0, End::Out), Some(entry(1, 0)));
    assert_eq!(b.get(0, End::In), None);
    assert_eq!(b.get(1, End::In), Some(entry(2, 1)));
    assert_eq!(b.get(1, End::Out), None);
    assert_eq!(b.get(2, End::In), None);
}

#[test]
fn shrink_keeps_the_contents() {
    let mut b = Block::new();
    for i in 0..64 {
        b.insert_out(entry(i, i));
    }
    for _ in 0..64 {
        b.remove_at(0, End::Out);
    }
    for i in 0..3 {
        b.insert_out(entry(i, 100 + i));
    }
    let before = bag(b.all());
    b.shrink();
    assert_eq!(bag(b.all()), before);
    assert_eq!(b.out_degree(), 3);
}

fn apply(
    out_pos: &mut HashMap<EdgeId, Raw>,
    in_pos: &mut HashMap<EdgeId, Raw>,
    ms: &[Option<Moved>],
) {
    for m in ms.iter().flatten() {
        match m.end {
            End::Out => out_pos.insert(m.id, m.to),
            End::In => in_pos.insert(m.id, m.to),
        };
    }
}


#[test]
fn splices_agree_with_the_naive_model() {
    let mut state: u64 = 0x2545_f491_4f6c_dd1d;
    let mut draw = |n: u64| {
        state = state
            .wrapping_mul(6_364_136_223_846_793_005)
            .wrapping_add(1_442_695_040_888_963_407);
        ((state >> 33) % n) as usize
    };
    for _ in 0..32 {
        let mut b = Block::new();
        let mut naive: (Vec<AdjEntry>, usize) = (Vec::new(), 0);
        let mut out_pos: HashMap<EdgeId, Raw> = HashMap::new();
        let mut in_pos: HashMap<EdgeId, Raw> = HashMap::new();
        let mut next_id = 0usize;
        for _ in 0..200 {
            let kind = draw(4);
            let arg = draw(65_536);
            let other = arg % 97;
            match kind {
                0 => {
                    let e = entry(other, next_id);
                    next_id += 1;
                    let (pos, mv) = b.insert_out(e);
                    moved_is_honest(&b, &[mv]);
                    out_pos.insert(e.idx, pos);
                    apply(&mut out_pos, &mut in_pos, &[mv]);
                    naive.0.insert(naive.1, e);
                    naive.1 += 1;
                }
                1 => {
                    let e = entry(other, next_id);
                    next_id += 1;
                    let pos = b.insert_in(e);
                    in_pos.insert(e.idx, pos);
                    naive.0.push(e);
                }
                2 => {
                    let e = entry(other, next_id);
                    next_id += 1;
                    let (pos, mv) = b.insert_out(e);
                    moved_is_honest(&b, &[mv]);
                    out_pos.insert(e.idx, pos);
                    apply(&mut out_pos, &mut in_pos, &[mv]);
                    let p = b.insert_in(e);
                    in_pos.insert(e.idx, p);
                    naive.0.insert(naive.1, e);
                    naive.1 += 1;
                    naive.0.push(e);
                }
                _ => {
                    if b.degree() == 0 {
                        continue;
                    }
                    let k = arg % b.degree();
                    let end = if k < b.out_degree() { End::Out } else { End::In };
                    let pos = k as Raw;
                    let doomed = b.get(pos, end).expect("k is in range");
                    let ms = b.remove_at(pos, end);
                    moved_is_honest(&b, &ms);
                    match end {
                        End::Out => out_pos.remove(&doomed.idx),
                        End::In => in_pos.remove(&doomed.idx),
                    };
                    apply(&mut out_pos, &mut in_pos, &ms);
                    let i = match end {
                        End::Out => naive.0[..naive.1]
                            .iter()
                            .position(|x| x.idx == doomed.idx)
                            .expect("the model holds it too"),
                        End::In => {
                            naive.1
                                + naive.0[naive.1..]
                                    .iter()
                                    .position(|x| x.idx == doomed.idx)
                                    .expect("the model holds it too")
                        }
                    };
                    naive.0.remove(i);
                    if end == End::Out {
                        naive.1 -= 1;
                    }
                }
            }
            assert_eq!(b.out_degree(), naive.1);
            assert_eq!(b.degree(), naive.0.len());
            assert_eq!(bag(b.out()), bag(&naive.0[..naive.1]));
            assert_eq!(bag(b.inc()), bag(&naive.0[naive.1..]));
            assert_eq!(out_pos.len(), b.out_degree());
            assert_eq!(in_pos.len(), b.in_degree());
            for (&id, &p) in &out_pos {
                assert_eq!(b.get(p, End::Out).map(|e| e.idx), Some(id));
            }
            for (&id, &p) in &in_pos {
                assert_eq!(b.get(p, End::In).map(|e| e.idx), Some(id));
            }
        }
    }
}

fn ladder_rung(m: usize, reps: usize) -> Duration {
    let mut best = Duration::MAX;
    for _ in 0..reps {
        let mut b = Block::new();
        for i in 0..m {
            b.insert_in(entry(i % 97, i));
        }
        let t0 = Instant::now();
        for i in 0..m {
            b.insert_out(entry(i % 97, m + i));
        }
        best = best.min(t0.elapsed());
        std::hint::black_box(&b);
    }
    best
}

#[test]
fn insert_out_is_not_quadratic() {
    const REPS: usize = 25;
    const FLOOR: Duration = Duration::from_micros(50);

    let mut t = Vec::new();
    for (rung, &m) in [10_000usize, 20_000, 40_000, 80_000].iter().enumerate() {
        let d = ladder_rung(m, REPS);
        if rung == 0 {
            assert!(d < Duration::from_millis(50), "10k rung took {d:?}");
        }
        t.push(d);
    }

    const TOL: f64 = 2.0;

    let base = t[0].max(FLOOR).as_secs_f64();
    for (i, &d) in t.iter().enumerate().skip(1) {
        let linear = (1u32 << i) as f64;
        let got = d.as_secs_f64() / base;
        assert!(
            got <= linear * TOL,
            "rung {i}: {:?} is {got:.2}x the 10k rung ({:?}); \
             linear is {linear:.0}x, `Vec::insert` is {:.0}x",
            d,
            t[0],
            linear * linear
        );
    }
}
