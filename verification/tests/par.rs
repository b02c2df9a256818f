//! Plans, seeds, reductions and row locks.

use std::sync::atomic::{AtomicUsize, Ordering};

use gt_core::par::{
    chunked_sum, det_reduce, lock_order, pair_mut, try_det_reduce, ChunkSum, Pair, Plan, RowLocks,
    Seed,
};
use rand_chacha::rand_core::{RngCore, SeedableRng};
use rand_chacha::ChaCha8Rng;

#[test]
fn pair_mut_is_in_caller_order() {
    let mut xs = [10, 11, 12, 13];
    match pair_mut(&mut xs, 3, 1) {
        Some(Pair::Two(a, b)) => {
            assert_eq!(*a, 13, "first reference must be r's row");
            assert_eq!(*b, 11, "second reference must be s's row");
        }
        _ => panic!("expected Two"),
    }
}

#[test]
fn pair_mut_diagonal_is_same() {
    let mut xs = [10, 11, 12, 13];
    match pair_mut(&mut xs, 2, 2) {
        Some(Pair::Same(a)) => assert_eq!(*a, 12),
        _ => panic!("expected Same"),
    }
}

#[test]
fn pair_mut_out_of_range_is_none() {
    let mut xs = [10, 11, 12, 13];
    assert!(pair_mut(&mut xs, 4, 1).is_none());
    assert!(pair_mut(&mut xs, 1, 4).is_none());
    assert!(pair_mut(&mut xs, 4, 4).is_none());
    let empty: &mut [i32] = &mut [];
    assert!(pair_mut(empty, 0, 0).is_none());
}

#[test]
fn row_locks_are_reentrant_on_the_diagonal() {
    let l = RowLocks::new(4);
    assert_eq!(l.len(), 4);
    assert!(!l.is_empty());
    assert_eq!(l.with_pair(2, 2, || 7), 7);
}

#[test]
fn chunks_cover_exactly() {
    for n in 0..64usize {
        for grain in 1..16usize {
            let p = Plan::new(n, grain);
            let mut next = 0;
            for k in 0..p.chunks() {
                let r = p.range(k);
                assert_eq!(r.start, next);
                assert!(r.end >= r.start);
                next = r.end;
            }
            assert_eq!(next, n);
        }
    }
}

#[test]
fn empty_plan_has_one_empty_chunk() {
    let p = Plan::new(0, 8);
    assert_eq!(p.chunks(), 1);
    assert_eq!(p.range(0), 0..0);
    assert!(p.is_empty());
    assert_eq!(p.len(), 0);
}

#[test]
fn a_huge_grain_does_not_overflow() {
    let p = Plan::new(usize::MAX, usize::MAX);
    assert_eq!(p.chunks(), 1);
    assert_eq!(p.range(0), 0..usize::MAX);
}

#[test]
fn every_item_is_in_one_balanced_chunk() {
    for n in 1..40usize {
        for grain in 1..9usize {
            let p = Plan::new(n, grain);
            let sizes: Vec<usize> = (0..p.chunks()).map(|k| p.range(k).len()).collect();
            assert_eq!(sizes.iter().sum::<usize>(), n);
            let (low, high) = (
                *sizes.iter().min().expect("a chunk"),
                *sizes.iter().max().expect("a chunk"),
            );
            assert!(high - low <= 1, "{sizes:?}");
        }
    }
    assert_eq!(Plan::new(10, 4).chunks(), 3);
}

#[test]
fn a_split_seed_is_the_keystream_of_its_chunk() {
    let seed = Seed([7; 32]);
    for k in [0u64, 1, 2, 1 << 40] {
        let mut kdf = ChaCha8Rng::from_seed([7; 32]);
        kdf.set_stream(k);
        let mut derived = [0u8; 32];
        kdf.fill_bytes(&mut derived);
        let mut want = ChaCha8Rng::from_seed(derived);
        let mut got = seed.split(k);
        for _ in 0..16 {
            assert_eq!(got.next_u64(), want.next_u64());
        }
    }
    assert_ne!(seed.split(0).next_u64(), seed.split(1).next_u64());
}

#[test]
fn a_reduction_folds_the_chunks_in_order_whatever_the_pool() {
    let plan = Plan::new(1000, 7);
    let run = || {
        det_reduce(
            plan,
            Seed([3; 32]),
            |r, rng| vec![(r.start, r.end, rng.next_u64())],
            Vec::new(),
            |mut a, b| {
                a.extend(b);
                a
            },
        )
    };
    let mut want = Vec::new();
    for k in 0..plan.chunks() {
        let r = plan.range(k);
        want.push((r.start, r.end, Seed([3; 32]).split(k as u64).next_u64()));
    }
    for threads in [1usize, 2, 8] {
        let pool = rayon::ThreadPoolBuilder::new()
            .num_threads(threads)
            .build()
            .expect("thread pool");
        assert_eq!(pool.install(run), want, "{threads} threads");
    }
}

#[test]
fn a_fallible_reduction_reports_the_first_failed_chunk() {
    let plan = Plan::new(100, 10);
    let sum = |bad: usize| {
        try_det_reduce(
            plan,
            Seed([0; 32]),
            |r, _rng| {
                if r.start >= bad {
                    Err(r.start)
                } else {
                    Ok(r.sum::<usize>())
                }
            },
            0usize,
            |a, b| a + b,
        )
    };
    assert_eq!(sum(1000), Ok(4950));
    assert_eq!(sum(50), Err(50));
    assert_eq!(sum(0), Err(0));
}

#[test]
fn rows_are_locked_low_to_high() {
    assert_eq!(lock_order(3, 1), (1, Some(3)));
    assert_eq!(lock_order(1, 3), (1, Some(3)));
    assert_eq!(lock_order(2, 2), (2, None));
    let l = RowLocks::new(3);
    assert_eq!(l.with_pair(2, 0, || 5), 5);
    assert_eq!(l.with_row(1, || 6), 6);
    assert!(RowLocks::new(0).is_empty());
}

#[test]
fn writes_through_a_pair_reach_the_rows() {
    let mut xs = [1, 2, 3];
    if let Some(Pair::Two(a, b)) = pair_mut(&mut xs, 2, 0) {
        *a = 30;
        *b = 10;
    }
    if let Some(Pair::Same(a)) = pair_mut(&mut xs, 1, 1) {
        *a = 20;
    }
    assert_eq!(xs, [10, 20, 30]);
}

fn sum<const LANES: usize>(xs: &[f64]) -> f64 {
    chunked_sum::<LANES, f64, _>(xs, 0.0, |a, b| a + b)
}

#[test]
fn one_lane_is_the_naive_scan() {
    let xs: Vec<f64> = (0..1000)
        .map(|i| ((i * 7919) % 101) as f64 * 1e-3)
        .collect();
    let naive = xs.iter().fold(0.0f64, |a, &x| a + x);
    assert_eq!(sum::<1>(&xs).to_bits(), naive.to_bits());
}

#[test]
fn the_remainder_is_summed_into_the_low_lanes() {
    let xs = [1.0, 2.0, 4.0, 8.0, 16.0, 32.0, 64.0];
    assert_eq!(sum::<4>(&xs), 127.0);
    assert_eq!(sum::<16>(&xs), 127.0);
}

#[test]
fn an_empty_slice_sums_to_positive_zero() {
    assert_eq!(sum::<4>(&[]).to_bits(), 0.0f64.to_bits());
}

#[test]
fn a_full_cover_uses_every_lane_equally() {
    let xs: Vec<f64> = (0..64).map(|i| i as f64).collect();
    assert_eq!(sum::<4>(&xs), 63.0 * 64.0 / 2.0);
    assert_eq!(sum::<8>(&xs), 63.0 * 64.0 / 2.0);
}

/// The order of the additions, seen through one that is not associative.
#[test]
fn lanes_are_summed_in_index_order_and_folded_in_lane_order() {
    let terms: Vec<u64> = (1..=7).collect();
    let order = chunked_sum::<3, u64, _>(&terms, 0, |a, b| a * 10 + b);
    // Lanes 147, 25 and 36, each behind a zero, folded as a * 10 + b.
    assert_eq!(order, (147 * 10 + 25) * 10 + 36);
    let partial = ChunkSum { chunk: 2, sum: order };
    assert_eq!((partial.chunk, partial.sum), (2, 14_986));
}

#[test]
fn split_seeds_are_pairwise_distinct() {
    let seed = Seed([9; 32]);
    let mut firsts: Vec<u64> = (0..1024).map(|k| seed.split(k).next_u64()).collect();
    firsts.sort_unstable();
    firsts.dedup();
    assert_eq!(firsts.len(), 1024);
    let mut other = [9u8; 32];
    other[0] ^= 3;
    assert_ne!(seed.split(3).next_u64(), Seed(other).split(0).next_u64());
}

#[test]
fn row_locks_exclude_whoever_holds_a_row() {
    let locks = RowLocks::new(8);
    let busy: Vec<AtomicUsize> = (0..8).map(|_| AtomicUsize::new(0)).collect();
    let pool = rayon::ThreadPoolBuilder::new()
        .num_threads(8)
        .build()
        .expect("thread pool");
    pool.scope(|scope| {
        for t in 0..8u64 {
            let (locks, busy) = (&locks, &busy);
            scope.spawn(move |_| {
                let mut state = t + 1;
                for _ in 0..2_000 {
                    state = state
                        .wrapping_mul(6_364_136_223_846_793_005)
                        .wrapping_add(1_442_695_040_888_963_407);
                    let r = (state >> 33) as usize % 8;
                    let s = (state >> 43) as usize % 8;
                    locks.with_pair(r, s, || {
                        assert_eq!(busy[r].fetch_add(1, Ordering::SeqCst), 0);
                        if r != s {
                            assert_eq!(busy[s].fetch_add(1, Ordering::SeqCst), 0);
                            busy[s].fetch_sub(1, Ordering::SeqCst);
                        }
                        busy[r].fetch_sub(1, Ordering::SeqCst);
                    });
                }
            });
        }
    });
}
