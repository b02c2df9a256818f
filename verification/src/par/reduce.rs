//! Reductions with a fixed association order.

use std::ops::Range;

use rand_chacha::ChaCha8Rng;
use rayon::iter::{IntoParallelIterator, ParallelIterator};
use vstd::prelude::*;

use super::plan::{Plan, Seed};

verus! {

/// `rayon`'s indexed `map` and `collect` over `0..n`: `f` is called once for
/// every index, in whatever order and on whatever thread, and the results land
/// at the index they were made for.
#[verifier::external_body]
fn par_map<T: Send, F: Fn(usize) -> T + Sync + Send>(n: usize, f: F) -> (r: Vec<T>)
    requires
        forall|k: usize| k < n ==> #[trigger] call_requires(f, (k,)),
    ensures
        r@.len() == n,
        forall|k: usize| k < n ==> #[trigger] call_ensures(f, (k,), r@[k as int]),
{
    (0..n).into_par_iter().map(f).collect()
}

/// The items of chunk `k`.
pub open spec fn chunk_range(plan: Plan, k: int) -> Range<usize> {
    Range {
        start: super::plan::cut(plan.items(), plan.parts(), k) as usize,
        end: super::plan::cut(plan.items(), plan.parts(), k + 1) as usize,
    }
}

/// Whether `map` may give `t` for chunk `k`: with the chunk's items, and with
/// the generator that the seed derives from the chunk's index.
pub open spec fn from_chunk<T, M: Fn(Range<usize>, &mut ChaCha8Rng) -> T>(
    plan: Plan,
    seed: Seed,
    map: M,
    k: int,
    t: T,
) -> bool {
    exists|rng: &mut ChaCha8Rng|
        super::plan::is_split(seed, k as u64, *rng) && #[trigger] call_ensures(
            map,
            (chunk_range(plan, k), rng),
            t,
        )
}

/// Whether `parts` are what `map` may give for the chunks, one for each.
pub open spec fn mapped<T, M: Fn(Range<usize>, &mut ChaCha8Rng) -> T>(
    plan: Plan,
    seed: Seed,
    map: M,
    parts: Seq<T>,
) -> bool {
    &&& parts.len() == plan.parts()
    &&& forall|k: int|
        0 <= k < parts.len() ==> from_chunk(plan, seed, map, k, #[trigger] parts[k])
}

/// Whether `map` can be called on every chunk.
pub open spec fn chunks_ready<T, M: Fn(Range<usize>, &mut ChaCha8Rng) -> T>(
    plan: Plan,
    seed: Seed,
    map: M,
) -> bool {
    forall|k: int, rng: &mut ChaCha8Rng|
        0 <= k < plan.parts() && super::plan::is_split(seed, k as u64, *rng)
            ==> #[trigger] call_requires(map, (chunk_range(plan, k), rng))
}

/// Map every chunk, in parallel, keeping the results in chunk order.
fn map_chunks<T, M>(plan: Plan, seed: Seed, map: &M) -> (r: Vec<T>) where
    T: Send,
    M: Fn(Range<usize>, &mut ChaCha8Rng) -> T + Sync + Send,

    requires
        plan.wf(),
        chunks_ready(plan, seed, *map),
    ensures
        mapped(plan, seed, *map, r@),
{
    let task = |k: usize| -> (t: T)
        requires
            k < plan.parts()
        ensures
            from_chunk(plan, seed, *map, k as int, t)
    {
        let mut rng = seed.split(k as u64);
        let range = plan.range(k);
        assert(range == chunk_range(plan, k as int));
        map(range, &mut rng)
    };
    let r = par_map(plan.chunks(), task);
    assert forall|k: int| 0 <= k < r@.len() implies from_chunk(
        plan,
        seed,
        *map,
        k,
        #[trigger] r@[k],
    ) by {
        assert(call_ensures(task, (k as usize,), r@[k as usize as int]));
    }
    r
}

/// Map each chunk, then fold the per-chunk results **in chunk order**.
///
/// `map` is called exactly once per chunk of the plan's cover, with the
/// generator that [`Seed::split`] derives from the chunk index. The fold is
/// sequential, left to right from `identity`, so `reduce` need be neither
/// associative nor commutative.
pub fn det_reduce<T, M, R>(plan: Plan, seed: Seed, map: M, identity: T, reduce: R) -> (r: T) where
    T: Send,
    M: Fn(Range<usize>, &mut ChaCha8Rng) -> T + Sync + Send,
    R: Fn(T, T) -> T,

    requires
        plan.wf(),
        chunks_ready(plan, seed, map),
        forall|parts: Seq<T>| #[trigger]
            mapped(plan, seed, map, parts) ==> crate::walk::fold_ready(reduce, parts, identity),
    ensures
        exists|parts: Seq<T>, accs: Seq<T>| #[trigger]
            mapped(plan, seed, map, parts) && #[trigger] crate::walk::fold_chain(
                reduce,
                parts,
                identity,
                accs,
            ) && r == accs.last(),
{
    let partials = map_chunks(plan, seed, &map);
    let ghost parts = partials@;
    let mut acc = identity;
    let ghost mut accs: Seq<T> = seq![identity];
    assert(parts.take(0) =~= Seq::empty());
    for partial in it: partials
        invariant
            parts == it.seq(),
            mapped(plan, seed, map, parts),
            crate::walk::fold_ready(reduce, parts, identity),
            crate::walk::fold_chain(reduce, parts.take(it.index()), identity, accs),
            acc == accs.last(),
    {
        let ghost k = it.index();
        let ghost was = accs;
        assert(accs[k] == acc);
        acc = reduce(acc, partial);
        proof {
            accs = accs.push(acc);
            crate::walk::lemma_chain_push(reduce, parts, identity, was, k, acc);
        }
    }
    assert(parts.take(parts.len() as int) =~= parts);
    acc
}

/// The results before the first failure.
pub open spec fn ok_prefix<T, E>(parts: Seq<Result<T, E>>) -> Seq<T>
    decreases parts.len(),
{
    if parts.len() == 0 {
        Seq::empty()
    } else {
        match parts[0] {
            Ok(t) => seq![t] + ok_prefix(parts.drop_first()),
            Err(_) => Seq::empty(),
        }
    }
}

proof fn lemma_ok_prefix<T, E>(parts: Seq<Result<T, E>>, k: int)
    requires
        0 <= k <= parts.len(),
        forall|i: int| 0 <= i < k ==> (#[trigger] parts[i]) is Ok,
    ensures
        ok_prefix(parts).len() >= k,
        forall|i: int| 0 <= i < k ==> Ok::<T, E>(#[trigger] ok_prefix(parts)[i]) == parts[i],
        k == parts.len() || parts[k] is Err ==> ok_prefix(parts).len() == k,
        k < parts.len() && parts[k] is Ok ==> ok_prefix(parts).len() > k && Ok::<T, E>(
            ok_prefix(parts)[k],
        ) == parts[k],
    decreases parts.len(),
{
    if parts.len() > 0 && parts[0] is Ok {
        let rest = parts.drop_first();
        if k > 0 {
            assert forall|i: int| 0 <= i < k - 1 implies (#[trigger] rest[i]) is Ok by {
                assert(rest[i] == parts[i + 1]);
            }
            lemma_ok_prefix(rest, k - 1);
            if k < parts.len() {
                assert(rest[k - 1] == parts[k]);
            }
            assert forall|i: int| 0 <= i < k implies Ok::<T, E>(#[trigger] ok_prefix(parts)[i])
                == parts[i] by {
                if i > 0 {
                    assert(ok_prefix(parts)[i] == ok_prefix(rest)[i - 1]);
                    assert(rest[i - 1] == parts[i]);
                }
            }
        }
    }
}

/// As [`det_reduce`], but each chunk may fail.
///
/// Every chunk runs, whether or not another fails, and the error returned is
/// the one of the lowest chunk index.
pub fn try_det_reduce<T, E, M, R>(
    plan: Plan,
    seed: Seed,
    map: M,
    identity: T,
    reduce: R,
) -> (r: Result<T, E>) where
    T: Send,
    E: Send,
    M: Fn(Range<usize>, &mut ChaCha8Rng) -> Result<T, E> + Sync + Send,
    R: Fn(T, T) -> T,

    requires
        plan.wf(),
        chunks_ready(plan, seed, map),
        forall|parts: Seq<Result<T, E>>| #[trigger]
            mapped(plan, seed, map, parts) ==> crate::walk::fold_ready(
                reduce,
                ok_prefix(parts),
                identity,
            ),
    ensures
        exists|parts: Seq<Result<T, E>>| #[trigger]
            mapped(plan, seed, map, parts) && match r {
                Ok(t) => ok_prefix(parts).len() == parts.len() && exists|accs: Seq<T>| #[trigger]
                    crate::walk::fold_chain(reduce, ok_prefix(parts), identity, accs) && t
                        == accs.last(),
                Err(e) => ok_prefix(parts).len() < parts.len() && parts[ok_prefix(
                    parts,
                ).len() as int] == Err::<T, E>(e),
            },
{
    let partials = map_chunks(plan, seed, &map);
    let ghost parts = partials@;
    let ghost oks = ok_prefix(parts);
    let mut acc = identity;
    let ghost mut accs: Seq<T> = seq![identity];
    proof {
        lemma_ok_prefix(parts, 0);
        assert(oks.take(0) =~= Seq::empty());
    }
    for partial in it: partials
        invariant
            parts == it.seq(),
            oks == ok_prefix(parts),
            mapped(plan, seed, map, parts),
            crate::walk::fold_ready(reduce, oks, identity),
            it.index() <= oks.len(),
            forall|i: int| 0 <= i < it.index() ==> (#[trigger] parts[i]) is Ok,
            crate::walk::fold_chain(reduce, oks.take(it.index()), identity, accs),
            acc == accs.last(),
    {
        let ghost k = it.index();
        proof {
            lemma_ok_prefix(parts, k);
        }
        match partial {
            Ok(t) => {
                let ghost was = accs;
                assert(oks[k] == t);
                assert(accs[k] == acc);
                acc = reduce(acc, t);
                proof {
                    accs = accs.push(acc);
                    crate::walk::lemma_chain_push(reduce, oks, identity, was, k, acc);
                    lemma_ok_prefix(parts, k + 1);
                }
            },
            Err(e) => {
                return Err(e);
            },
        }
    }
    proof {
        lemma_ok_prefix(parts, parts.len() as int);
        assert(oks.take(parts.len() as int) =~= oks);
    }
    Ok(acc)
}

/// Whether two generators draw the same numbers from here on.
pub open spec fn same_generator(a: ChaCha8Rng, b: ChaCha8Rng) -> bool {
    &&& super::plan::rng_seed(a) == super::plan::rng_seed(b)
    &&& super::plan::rng_stream(a) == super::plan::rng_stream(b)
    &&& super::plan::rng_word_pos(a) == super::plan::rng_word_pos(b)
}

/// Whether `map` gives one result for each range and each generator.
pub open spec fn one_result<T, M: Fn(Range<usize>, &mut ChaCha8Rng) -> T>(map: M) -> bool {
    forall|r: Range<usize>, a: &mut ChaCha8Rng, b: &mut ChaCha8Rng, x: T, y: T|
        same_generator(*a, *b) && #[trigger] call_ensures(map, (r, a), x)
            && #[trigger] call_ensures(map, (r, b), y) ==> x == y
}

/// Where `map` gives one result for each range and generator, the results of
/// the chunks are a function of the plan, the seed and `map`, whatever threads
/// they were made on and in whatever order.
pub proof fn the_schedule_does_not_show<T, M: Fn(Range<usize>, &mut ChaCha8Rng) -> T>(
    plan: Plan,
    seed: Seed,
    map: M,
    one: Seq<T>,
    other: Seq<T>,
)
    requires
        one_result(map),
        mapped(plan, seed, map, one),
        mapped(plan, seed, map, other),
    ensures
        one == other,
{
    assert forall|k: int| 0 <= k < one.len() implies one[k] == other[k] by {
        assert(from_chunk(plan, seed, map, k, one[k]));
        assert(from_chunk(plan, seed, map, k, other[k]));
    }
    assert(one =~= other);
}

/// Where `map` and `reduce` give one result for their arguments, so does the
/// whole reduction: two runs of [`det_reduce`] give the same value.
pub proof fn a_reduction_has_one_outcome<T, M, R>(
    plan: Plan,
    seed: Seed,
    map: M,
    identity: T,
    reduce: R,
    parts: (Seq<T>, Seq<T>),
    accs: (Seq<T>, Seq<T>),
) where M: Fn(Range<usize>, &mut ChaCha8Rng) -> T, R: Fn(T, T) -> T
    requires
        one_result(map),
        crate::walk::one_answer(reduce),
        mapped(plan, seed, map, parts.0),
        mapped(plan, seed, map, parts.1),
        crate::walk::fold_chain(reduce, parts.0, identity, accs.0),
        crate::walk::fold_chain(reduce, parts.1, identity, accs.1),
    ensures
        accs.0.last() == accs.1.last(),
{
    the_schedule_does_not_show(plan, seed, map, parts.0, parts.1);
    crate::walk::a_fold_has_one_outcome(reduce, parts.0, identity, accs.0, accs.1);
}

/// The ranges handed to `map` tile the items in order: the first begins at
/// zero, each begins where the one before it ends, and the last ends at the
/// number of items. They are as even as can be, the larger ones first.
pub proof fn the_ranges_tile_the_items(plan: Plan, k: int)
    requires
        plan.wf(),
        plan.items() <= usize::MAX,
        0 <= k < plan.parts(),
    ensures
        chunk_range(plan, 0).start == 0,
        k + 1 < plan.parts() ==> chunk_range(plan, k).end == chunk_range(plan, k + 1).start,
        k + 1 == plan.parts() ==> chunk_range(plan, k).end == plan.items(),
        chunk_range(plan, k).start <= chunk_range(plan, k).end <= plan.items(),
        forall|j: int|
            0 <= j <= k ==> ({
                let early = (#[trigger] chunk_range(plan, j)).end - chunk_range(plan, j).start;
                let late = chunk_range(plan, k).end - chunk_range(plan, k).start;
                late <= early <= late + 1
            }),
{
    let (n, c) = (plan.items(), plan.parts());
    super::plan::the_chunks_cover_exactly(n, c);
    assert(super::plan::cut(n, c, 0) <= super::plan::cut(n, c, k) <= super::plan::cut(n, c, c));
    assert(super::plan::cut(n, c, k) <= super::plan::cut(n, c, k + 1) <= super::plan::cut(
        n,
        c,
        c,
    ));
    assert forall|j: int| 0 <= j <= k implies ({
        let early = (#[trigger] chunk_range(plan, j)).end - chunk_range(plan, j).start;
        let late = chunk_range(plan, k).end - chunk_range(plan, k).start;
        late <= early <= late + 1
    }) by {
        super::plan::earlier_chunks_are_no_smaller(n, c, j, k);
        assert(super::plan::cut(n, c, 0) <= super::plan::cut(n, c, j) <= super::plan::cut(
            n,
            c,
            c,
        ));
        assert(super::plan::cut(n, c, j) <= super::plan::cut(n, c, j + 1) <= super::plan::cut(
            n,
            c,
            c,
        ));
    }
}

/// The result of chunk `k` is one that `map` gives for the range of chunk `k`
/// and for a generator seeded from stream `k` of the root seed, and there is
/// one result for every chunk.
pub proof fn a_chunk_is_mapped_with_its_own_range_and_stream<
    T,
    M: Fn(Range<usize>, &mut ChaCha8Rng) -> T,
>(plan: Plan, seed: Seed, map: M, parts: Seq<T>, k: int, t: T)
    ensures
        from_chunk(plan, seed, map, k, t) <==> exists|rng: &mut ChaCha8Rng|
            super::plan::rng_seed(*rng) == super::plan::keystream(seed.0@, k as u64, 0, 32)
                && super::plan::rng_stream(*rng) == 0 && super::plan::rng_word_pos(*rng) == 0
                && #[trigger] call_ensures(map, (chunk_range(plan, k), rng), t),
        mapped(plan, seed, map, parts) <==> parts.len() == plan.parts() && forall|j: int|
            0 <= j < plan.parts() ==> from_chunk(plan, seed, map, j, #[trigger] parts[j]),
{
    if exists|rng: &mut ChaCha8Rng|
        super::plan::rng_seed(*rng) == super::plan::keystream(seed.0@, k as u64, 0, 32)
            && super::plan::rng_stream(*rng) == 0 && super::plan::rng_word_pos(*rng) == 0
            && #[trigger] call_ensures(map, (chunk_range(plan, k), rng), t) {
        let rng = choose|rng: &mut ChaCha8Rng|
            super::plan::rng_seed(*rng) == super::plan::keystream(seed.0@, k as u64, 0, 32)
                && super::plan::rng_stream(*rng) == 0 && super::plan::rng_word_pos(*rng) == 0
                && #[trigger] call_ensures(map, (chunk_range(plan, k), rng), t);
        assert(super::plan::is_split(seed, k as u64, *rng));
        assert(call_ensures(map, (chunk_range(plan, k), rng), t));
    }
}

/// What precedes the first failure: every result up to it, in order, and all of
/// them where nothing failed.
pub proof fn the_results_before_the_first_failure<T, E>(parts: Seq<Result<T, E>>)
    ensures
        ok_prefix(parts).len() <= parts.len(),
        forall|i: int|
            0 <= i < ok_prefix(parts).len() ==> parts[i] == Ok::<T, E>(#[trigger] ok_prefix(parts)[i]),
        ok_prefix(parts).len() < parts.len() ==> parts[ok_prefix(parts).len() as int] is Err,
    decreases parts.len(),
{
    if parts.len() > 0 && parts[0] is Ok {
        let rest = parts.drop_first();
        the_results_before_the_first_failure(rest);
        assert forall|i: int| 0 <= i < ok_prefix(parts).len() implies parts[i] == Ok::<T, E>(
            #[trigger] ok_prefix(parts)[i],
        ) by {
            if i > 0 {
                assert(rest[i - 1] == parts[i]);
                assert(ok_prefix(parts)[i] == ok_prefix(rest)[i - 1]);
            }
        }
    }
}

} // verus!
