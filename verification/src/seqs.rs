//! Facts about filtered sequences.

use vstd::prelude::*;

verus! {

/// Where the `k`-th element that a filter keeps comes from.
pub open spec fn filter_source<A>(s: Seq<A>, p: spec_fn(A) -> bool, k: int) -> int
    decreases s.len(),
{
    if s.len() == 0 {
        -1
    } else if p(s.last()) && k == s.drop_last().filter(p).len() {
        s.len() - 1
    } else {
        filter_source(s.drop_last(), p, k)
    }
}

/// A filter keeps the order, and takes every element from one place.
pub proof fn lemma_filter_keeps_order<A>(s: Seq<A>, p: spec_fn(A) -> bool)
    ensures
        forall|k: int|
            0 <= k < s.filter(p).len() ==> 0 <= #[trigger] filter_source(s, p, k) < s.len()
                && s.filter(p)[k] == s[filter_source(s, p, k)],
        forall|k: int, l: int|
            0 <= k < l < s.filter(p).len() ==> #[trigger] filter_source(s, p, k)
                < #[trigger] filter_source(s, p, l),
    decreases s.len(),
{
    reveal(Seq::filter);
    if s.len() > 0 {
        let d = s.drop_last();
        lemma_filter_keeps_order(d, p);
        assert forall|k: int| 0 <= k < s.filter(p).len() implies 0 <= #[trigger] filter_source(
            s,
            p,
            k,
        ) < s.len() && s.filter(p)[k] == s[filter_source(s, p, k)] by {
            if k < d.filter(p).len() {
                assert(filter_source(s, p, k) == filter_source(d, p, k));
                assert(s.filter(p)[k] == d.filter(p)[k]);
                assert(d[filter_source(d, p, k)] == s[filter_source(d, p, k)]);
            }
        }
        assert forall|k: int, l: int| 0 <= k < l < s.filter(p).len() implies #[trigger] filter_source(
            s,
            p,
            k,
        ) < #[trigger] filter_source(s, p, l) by {
            assert(filter_source(s, p, k) == filter_source(d, p, k));
            if l < d.filter(p).len() {
                assert(filter_source(s, p, l) == filter_source(d, p, l));
            }
        }
    }
}

/// A filter that keeps every element keeps the run as it is.
pub proof fn lemma_filter_all<A>(s: Seq<A>, p: spec_fn(A) -> bool)
    requires
        forall|i: int| 0 <= i < s.len() ==> p(#[trigger] s[i]),
    ensures
        s.filter(p) == s,
    decreases s.len(),
{
    reveal(Seq::filter);
    if s.len() > 0 {
        assert forall|i: int| 0 <= i < s.drop_last().len() implies p(
            #[trigger] s.drop_last()[i],
        ) by {
            assert(s.drop_last()[i] == s[i]);
        }
        lemma_filter_all(s.drop_last(), p);
        assert(s.drop_last().push(s.last()) =~= s);
    } else {
        assert(s.filter(p) =~= s);
    }
}

/// A filter passes over the elements it drops and yields the others in order.
pub proof fn lemma_filter_first<A>(s: Seq<A>, p: spec_fn(A) -> bool)
    requires
        s.len() > 0,
    ensures
        p(s[0]) ==> s.filter(p).len() > 0 && s.filter(p)[0] == s[0] && s.filter(p).drop_first()
            == s.drop_first().filter(p),
        !p(s[0]) ==> s.filter(p) == s.drop_first().filter(p),
{
    let rest = s.drop_first();
    assert(seq![s[0]] + rest =~= s);
    rest.lemma_filter_prepend(s[0], p);
    if p(s[0]) {
        assert((seq![s[0]] + rest.filter(p)).drop_first() =~= rest.filter(p));
    }
}

/// Filters that answer alike, place by place, keep equally many.
pub proof fn lemma_filters_alike<A, B>(
    a: Seq<A>,
    p: spec_fn(A) -> bool,
    b: Seq<B>,
    q: spec_fn(B) -> bool,
)
    requires
        a.len() == b.len(),
        forall|i: int| 0 <= i < a.len() ==> p(#[trigger] a[i]) == q(b[i]),
    ensures
        a.filter(p).len() == b.filter(q).len(),
    decreases a.len(),
{
    reveal(Seq::filter);
    if a.len() > 0 {
        assert(p(a[a.len() - 1]) == q(b[a.len() - 1]));
        assert forall|i: int| 0 <= i < a.drop_last().len() implies p(#[trigger] a.drop_last()[i])
            == q(b.drop_last()[i]) by {
            assert(a.drop_last()[i] == a[i]);
        }
        lemma_filters_alike(a.drop_last(), p, b.drop_last(), q);
    }
}

/// Two sequences of the same distinct elements are equally long.
pub proof fn lemma_same_elements_same_len<A>(a: Seq<A>, b: Seq<A>)
    requires
        a.no_duplicates(),
        b.no_duplicates(),
        forall|x: A| #[trigger] a.contains(x) <==> b.contains(x),
    ensures
        a.len() == b.len(),
{
    a.unique_seq_to_set();
    b.unique_seq_to_set();
    assert(a.to_set() =~= b.to_set());
}

/// A filter of distinct elements has the distinct elements that it keeps.
pub proof fn lemma_filter_distinct<A>(s: Seq<A>, p: spec_fn(A) -> bool)
    requires
        s.no_duplicates(),
    ensures
        s.filter(p).no_duplicates(),
        forall|x: A| #[trigger] s.filter(p).contains(x) <==> s.contains(x) && p(x),
{
    let t = s.filter(p);
    lemma_filter_keeps_order(s, p);
    assert forall|i: int, j: int| 0 <= i < t.len() && 0 <= j < t.len() && i != j implies
        #[trigger] t[i] != #[trigger] t[j] by {
        let (x, y) = (filter_source(s, p, i), filter_source(s, p, j));
        assert(s[x] != s[y]);
    }
    assert forall|x: A| #[trigger] t.contains(x) <==> s.contains(x) && p(x) by {
        if t.contains(x) {
            let k = choose|k: int| 0 <= k < t.len() && t[k] == x;
            s.lemma_filter_pred(p, k);
            assert(s[filter_source(s, p, k)] == x);
        }
        if s.contains(x) && p(x) {
            let i = choose|i: int| 0 <= i < s.len() && s[i] == x;
            s.lemma_filter_contains(p, i);
        }
    }
}

} // verus!
