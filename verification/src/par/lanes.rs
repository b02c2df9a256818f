//! Summation with several accumulators and a fixed association order.

use vstd::prelude::*;

verus! {

/// How many of `n` terms fall to lane `i` of `lanes`.
pub open spec fn lane_len(n: nat, lanes: nat, i: int) -> nat {
    if i < n {
        ((n - i - 1) / lanes as int + 1) as nat
    } else {
        0
    }
}

/// The terms of lane `i`: every `lanes`-th term, from the `i`-th on.
pub open spec fn lane<T>(xs: Seq<T>, lanes: nat, i: int) -> Seq<T> {
    Seq::new(lane_len(xs.len(), lanes, i), |j: int| xs[i + j * lanes])
}

/// Whether `s` is what summing the terms of lane `i` from `zero` comes to.
pub open spec fn is_lane_sum<T, A: Fn(T, T) -> T>(
    plus: A,
    xs: Seq<T>,
    lanes: nat,
    zero: T,
    i: int,
    s: T,
) -> bool {
    exists|accs: Seq<T>| #[trigger]
        crate::walk::fold_chain(plus, lane(xs, lanes, i), zero, accs) && s == accs.last()
}

/// Whether `sums` holds the sum of every lane.
pub open spec fn are_lane_sums<T, A: Fn(T, T) -> T>(
    plus: A,
    xs: Seq<T>,
    lanes: nat,
    zero: T,
    sums: Seq<T>,
) -> bool {
    &&& sums.len() == lanes
    &&& forall|i: int|
        0 <= i < lanes ==> is_lane_sum(plus, xs, lanes, zero, i, #[trigger] sums[i])
}

/// One more term goes to one lane.
proof fn lemma_lane_grows<T>(xs: Seq<T>, lanes: nat, k: int, i: int)
    requires
        0 < lanes,
        0 <= k < xs.len(),
        0 <= i < lanes,
    ensures
        k % lanes as int == i ==> lane(xs.take(k + 1), lanes, i) == lane(
            xs.take(k),
            lanes,
            i,
        ).push(xs[k]),
        k % lanes as int != i ==> lane(xs.take(k + 1), lanes, i) == lane(xs.take(k), lanes, i),
{
    let before = lane(xs.take(k), lanes, i);
    let after = lane(xs.take(k + 1), lanes, i);
    let l = lanes as int;
    vstd::arithmetic::div_mod::lemma_fundamental_div_mod(k, l);
    let q = k / l;
    let m = k % l;
    assert(0 <= m < l);
    if i <= k {
        if m == i {
            assert(k - i == q * l) by (nonlinear_arith)
                requires
                    k == l * q + m,
                    m == i,
            ;
            vstd::arithmetic::div_mod::lemma_div_by_multiple(q, l);
            assert((k - i) / l == q);
            if i < k {
                assert((k - i - 1) / l == q - 1) by (nonlinear_arith)
                    requires
                        k - i == q * l,
                        l > 0,
                ;
            } else {
                assert(q == 0) by (nonlinear_arith)
                    requires
                        k - i == q * l,
                        k == i,
                        l > 0,
                ;
            }
            assert(after.len() == before.len() + 1);
            assert(before.len() == q);
            lemma_lane_in_range(k as nat, lanes, i);
            assert forall|j: int| 0 <= j < after.len() implies after[j] == before.push(xs[k])[j] by {
                if j < q {
                    assert(0 <= i + j * lanes < k);
                } else {
                    assert(i + j * lanes == k);
                }
            }
            assert(after =~= before.push(xs[k]));
        } else {
            assert(i != k) by {
                if i == k {
                    vstd::arithmetic::div_mod::lemma_small_mod(k as nat, lanes);
                }
            }
            assert((k - i) / l == (k - i - 1) / l) by (nonlinear_arith)
                requires
                    k == l * q + m,
                    0 <= m < l,
                    0 <= i < l,
                    m != i,
                    i < k,
            ;
            lemma_lane_in_range(k as nat, lanes, i);
            assert(after =~= before);
        }
    } else {
        vstd::arithmetic::div_mod::lemma_small_mod(k as nat, lanes);
        assert(after =~= before);
    }
}

/// Every place of a lane is the place of a term.
proof fn lemma_lane_in_range(n: nat, lanes: nat, i: int)
    requires
        0 < lanes,
        0 <= i,
    ensures
        forall|j: int|
            0 <= j < lane_len(n, lanes, i) ==> 0 <= i + #[trigger] (j * lanes) < n,
{
    assert forall|j: int| 0 <= j < lane_len(n, lanes, i) implies 0 <= i + #[trigger] (j
        * lanes) < n by {
        let l = lanes as int;
        vstd::arithmetic::div_mod::lemma_fundamental_div_mod(n - i - 1, l);
        assert(0 <= j * l <= n - i - 1) by (nonlinear_arith)
            requires
                0 <= j <= (n - i - 1) / l,
                n - i - 1 == l * ((n - i - 1) / l) + (n - i - 1) % l,
                0 <= (n - i - 1) % l,
                l > 0,
        ;
    }
}

/// Sum a slice with `LANES` accumulators, which are added up at the end.
///
/// Lane `i` accumulates `xs[i]`, `xs[i + LANES]`, `xs[i + 2 * LANES]` and so
/// on, in index order, from `zero`; the lanes are then folded in lane order,
/// again from `zero`. The order of the additions is a function of the slice's
/// length and `LANES` alone, so `plus` need be neither associative nor
/// commutative.
pub fn chunked_sum<const LANES: usize, T: Copy, A: Fn(T, T) -> T>(
    xs: &[T],
    zero: T,
    plus: A,
) -> (r: T)
    requires
        LANES > 0,
        forall|a: T, b: T| #[trigger] call_requires(plus, (a, b)),
    ensures
        exists|sums: Seq<T>, accs: Seq<T>| #[trigger]
            are_lane_sums(plus, xs@, LANES as nat, zero, sums) && #[trigger]
            crate::walk::fold_chain(plus, sums, zero, accs) && r == accs.last(),
{
    let lanes: usize = LANES;
    let mut sums: Vec<T> = Vec::new();
    for i in 0..lanes
        invariant
            sums@.len() == i,
            forall|j: int| 0 <= j < i ==> sums@[j] == zero,
    {
        sums.push(zero);
    }
    proof {
        assert forall|i: int| 0 <= i < lanes implies is_lane_sum(
            plus,
            xs@.take(0),
            lanes as nat,
            zero,
            i,
            #[trigger] sums@[i],
        ) by {
            assert(crate::walk::fold_chain(
                plus,
                lane(xs@.take(0), lanes as nat, i),
                zero,
                seq![zero],
            ));
        }
    }
    let mut at: usize = 0;
    proof {
        vstd::arithmetic::div_mod::lemma_small_mod(0, lanes as nat);
    }
    for k in 0..xs.len()
        invariant
            lanes == LANES,
            lanes > 0,
            at == k as int % lanes as int,
            forall|a: T, b: T| #[trigger] call_requires(plus, (a, b)),
            are_lane_sums(plus, xs@.take(k as int), lanes as nat, zero, sums@),
    {
        let ghost before = sums@;
        let s = plus(sums[at], xs[k]);
        sums.set(at, s);
        proof {
            assert forall|i: int| 0 <= i < lanes implies is_lane_sum(
                plus,
                xs@.take(k + 1),
                lanes as nat,
                zero,
                i,
                #[trigger] sums@[i],
            ) by {
                lemma_lane_grows(xs@, lanes as nat, k as int, i);
                let terms = lane(xs@.take(k as int), lanes as nat, i);
                assert(is_lane_sum(plus, xs@.take(k as int), lanes as nat, zero, i, before[i]));
                let accs = choose|accs: Seq<T>| #[trigger]
                    crate::walk::fold_chain(plus, terms, zero, accs) && before[i] == accs.last();
                if i == at {
                    let longer = terms.push(xs@[k as int]);
                    assert(longer.take(terms.len() as int) =~= terms);
                    crate::walk::lemma_chain_push(
                        plus,
                        longer,
                        zero,
                        accs,
                        terms.len() as int,
                        s,
                    );
                    assert(longer.take((terms.len() + 1) as int) =~= longer);
                    assert(crate::walk::fold_chain(plus, longer, zero, accs.push(s)));
                }
            }
            vstd::arithmetic::div_mod::lemma_fundamental_div_mod(k as int, lanes as int);
            lemma_next_place(k as nat, lanes as nat);
        }
        at = if at + 1 == lanes {
            0
        } else {
            at + 1
        };
    }
    assert(xs@.take(xs@.len() as int) =~= xs@);
    let ghost all = sums@;
    let mut acc = zero;
    let ghost mut accs: Seq<T> = seq![zero];
    assert(all.take(0) =~= Seq::empty());
    for i in 0..lanes
        invariant
            all == sums@,
            all.len() == lanes,
            forall|a: T, b: T| #[trigger] call_requires(plus, (a, b)),
            crate::walk::fold_chain(plus, all.take(i as int), zero, accs),
            acc == accs.last(),
    {
        let ghost was = accs;
        assert(accs[i as int] == acc);
        acc = plus(acc, sums[i]);
        proof {
            accs = accs.push(acc);
            crate::walk::lemma_chain_push(plus, all, zero, was, i as int, acc);
        }
    }
    assert(all.take(all.len() as int) =~= all);
    acc
}

proof fn lemma_next_place(k: nat, lanes: nat)
    requires
        0 < lanes,
    ensures
        (k + 1) as int % lanes as int == if k as int % lanes as int + 1 == lanes {
            0
        } else {
            k as int % lanes as int + 1
        },
{
    let l = lanes as int;
    let m = k as int % l;
    vstd::arithmetic::div_mod::lemma_add_mod_noop(k as int, 1, l);
    if l == 1 {
        vstd::arithmetic::div_mod::lemma_mod_self_0(l);
    } else {
        vstd::arithmetic::div_mod::lemma_small_mod(1, lanes);
        if m + 1 == l {
            vstd::arithmetic::div_mod::lemma_mod_self_0(l);
        } else {
            vstd::arithmetic::div_mod::lemma_small_mod((m + 1) as nat, lanes);
        }
    }
}

/// Every term is summed exactly once: term `k` is at place `k / lanes` of lane
/// `k % lanes`, and a lane has no term but those.
pub proof fn every_term_is_in_one_lane<T>(xs: Seq<T>, lanes: nat, k: int, i: int, j: int)
    requires
        0 < lanes,
        0 <= k < xs.len(),
        0 <= i < lanes,
        0 <= j < lane_len(xs.len(), lanes, i),
    ensures
        0 <= k / lanes as int,
        k / (lanes as int) < lane_len(xs.len(), lanes, k % lanes as int),
        lane(xs, lanes, k % lanes as int)[k / lanes as int] == xs[k],
        i + j * lanes == k <==> i == k % lanes as int && j == k / lanes as int,
{
    let l = lanes as int;
    vstd::arithmetic::div_mod::lemma_fundamental_div_mod(k, l);
    let q = k / l;
    let m = k % l;
    let n = xs.len() as int;
    vstd::arithmetic::div_mod::lemma_div_pos_is_pos(k, l);
    assert(q <= (n - m - 1) / l) by {
        assert(q * l == l * q) by (nonlinear_arith);
        vstd::arithmetic::div_mod::lemma_div_is_ordered(q * l, n - m - 1, l);
        vstd::arithmetic::div_mod::lemma_div_by_multiple(q, l);
    }
    assert(m + q * lanes == k) by (nonlinear_arith)
        requires
            k == l * q + m,
            l == lanes,
    ;
    if i + j * lanes == k {
        vstd::arithmetic::div_mod::lemma_fundamental_div_mod_converse(k, l, j, i);
    }
}

/// A lane holds the terms at its own index and every `lanes` further on, in
/// that order, up to the end of the slice and no further.
pub proof fn a_lane_steps_through_the_slice<T>(xs: Seq<T>, lanes: nat, i: int, j: int)
    requires
        0 < lanes,
        0 <= i < lanes,
        0 <= j,
    ensures
        j < lane(xs, lanes, i).len() <==> i + j * lanes < xs.len(),
        j < lane(xs, lanes, i).len() ==> lane(xs, lanes, i)[j] == xs[i + j * lanes],
{
    let n = xs.len() as int;
    let l = lanes as int;
    lemma_lane_in_range(xs.len(), lanes, i);
    if i < n {
        let q = (n - i - 1) / l;
        vstd::arithmetic::div_mod::lemma_fundamental_div_mod(n - i - 1, l);
        vstd::arithmetic::div_mod::lemma_mod_bound(n - i - 1, l);
        if i + j * lanes < n {
            assert(j <= q) by (nonlinear_arith)
                requires
                    j * l <= n - i - 1,
                    n - i - 1 == l * q + (n - i - 1) % l,
                    (n - i - 1) % l < l,
                    l > 0,
            ;
        }
    } else {
        assert(j * lanes >= 0) by (nonlinear_arith)
            requires
                j >= 0,
                lanes >= 0,
        ;
    }
}

/// A lane's sum is what adding the terms at its own index and every `lanes`
/// further on comes to, from `zero` and one at a time.
pub proof fn a_lane_sum_adds_its_terms<T, A: Fn(T, T) -> T>(
    plus: A,
    xs: Seq<T>,
    lanes: nat,
    zero: T,
    sums: Seq<T>,
)
    requires
        0 < lanes,
    ensures
        are_lane_sums(plus, xs, lanes, zero, sums) ==> sums.len() == lanes && forall|i: int|
            0 <= i < lanes ==> exists|accs: Seq<T>|
                {
                    &&& accs[0] == zero
                    &&& accs.last() == #[trigger] sums[i]
                    &&& #[trigger] accs.len() == lane(xs, lanes, i).len() + 1
                    &&& forall|j: int|
                        0 <= j && i + j * lanes < xs.len() ==> call_ensures(
                            plus,
                            (accs[j], xs[i + j * lanes]),
                            #[trigger] accs[j + 1],
                        )
                },
{
    if are_lane_sums(plus, xs, lanes, zero, sums) {
        assert forall|i: int| 0 <= i < lanes implies exists|accs: Seq<T>|
            {
                &&& accs[0] == zero
                &&& accs.last() == #[trigger] sums[i]
                &&& #[trigger] accs.len() == lane(xs, lanes, i).len() + 1
                &&& forall|j: int|
                    0 <= j && i + j * lanes < xs.len() ==> call_ensures(
                        plus,
                        (accs[j], xs[i + j * lanes]),
                        #[trigger] accs[j + 1],
                    )
            } by {
            assert(is_lane_sum(plus, xs, lanes, zero, i, sums[i]));
            let terms = lane(xs, lanes, i);
            let accs = choose|accs: Seq<T>| #[trigger]
                crate::walk::fold_chain(plus, terms, zero, accs) && sums[i] == accs.last();
            assert forall|j: int| 0 <= j && i + j * lanes < xs.len() implies call_ensures(
                plus,
                (accs[j], xs[i + j * lanes]),
                #[trigger] accs[j + 1],
            ) by {
                a_lane_steps_through_the_slice(xs, lanes, i, j);
                assert(call_ensures(plus, (accs[j], terms[j]), accs[j + 1]));
            }
            assert(accs.len() == terms.len() + 1);
        }
    }
}

/// Where `plus` gives one result for its arguments, so does the whole sum.
pub proof fn a_lane_sum_has_one_outcome<T, A: Fn(T, T) -> T>(
    plus: A,
    xs: Seq<T>,
    lanes: nat,
    zero: T,
    sums: (Seq<T>, Seq<T>),
    accs: (Seq<T>, Seq<T>),
)
    requires
        crate::walk::one_answer(plus),
        are_lane_sums(plus, xs, lanes, zero, sums.0),
        are_lane_sums(plus, xs, lanes, zero, sums.1),
        crate::walk::fold_chain(plus, sums.0, zero, accs.0),
        crate::walk::fold_chain(plus, sums.1, zero, accs.1),
    ensures
        accs.0.last() == accs.1.last(),
{
    assert forall|i: int| 0 <= i < lanes implies sums.0[i] == sums.1[i] by {
        let terms = lane(xs, lanes, i);
        assert(is_lane_sum(plus, xs, lanes, zero, i, sums.0[i]));
        assert(is_lane_sum(plus, xs, lanes, zero, i, sums.1[i]));
        let a = choose|a: Seq<T>| #[trigger]
            crate::walk::fold_chain(plus, terms, zero, a) && sums.0[i] == a.last();
        let b = choose|b: Seq<T>| #[trigger]
            crate::walk::fold_chain(plus, terms, zero, b) && sums.1[i] == b.last();
        crate::walk::a_fold_has_one_outcome(plus, terms, zero, a, b);
    }
    assert(sums.0 =~= sums.1);
    crate::walk::a_fold_has_one_outcome(plus, sums.0, zero, accs.0, accs.1);
}

/// With one lane the terms are summed as they stand.
pub proof fn one_lane_is_the_whole_slice<T>(xs: Seq<T>)
    ensures
        lane(xs, 1, 0) == xs,
{
    assert(lane(xs, 1, 0) =~= xs);
}

/// A partial sum carrying its chunk index, so that a parallel reduction can be
/// folded back in a fixed order.
#[derive(Clone, Copy, Debug, PartialEq)]
pub struct ChunkSum<T> {
    /// Which chunk produced this.
    pub chunk: usize,
    /// The partial sum.
    pub sum: T,
}

} // verus!
