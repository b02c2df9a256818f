//! Counting marked positions of a sequence.

use vstd::prelude::*;

use crate::ids::EdgeId;

verus! {

/// How many of the marks are set.
pub open spec fn marked(s: Seq<bool>) -> nat
    decreases s.len(),
{
    if s.len() == 0 {
        0
    } else {
        marked(s.drop_last()) + (if s.last() { 1nat } else { 0nat })
    }
}

/// Setting one mark more adds one.
pub proof fn lemma_marked_update(s: Seq<bool>, i: int)
    requires
        0 <= i < s.len(),
        !s[i],
    ensures
        marked(s.update(i, true)) == marked(s) + 1,
    decreases s.len(),
{
    let t = s.update(i, true);
    if i == s.len() - 1 {
        assert(t.drop_last() =~= s.drop_last());
    } else {
        lemma_marked_update(s.drop_last(), i);
        assert(t.drop_last() =~= s.drop_last().update(i, true));
    }
}

/// At most every position is marked.
pub proof fn lemma_marked_at_most_len(s: Seq<bool>)
    ensures
        marked(s) <= s.len(),
    decreases s.len(),
{
    if s.len() > 0 {
        lemma_marked_at_most_len(s.drop_last());
    }
}

/// No mark, no count.
pub proof fn lemma_marked_none(s: Seq<bool>)
    requires
        forall|i: int| 0 <= i < s.len() ==> !s[i],
    ensures
        marked(s) == 0,
    decreases s.len(),
{
    if s.len() > 0 {
        lemma_marked_none(s.drop_last());
    }
}

/// The marks of a prefix, one position at a time.
pub proof fn lemma_marked_step(s: Seq<bool>, i: int)
    requires
        0 <= i < s.len(),
    ensures
        marked(s.take(i + 1)) == marked(s.take(i)) + (if s[i] { 1nat } else { 0nat }),
{
    assert(s.take(i + 1).drop_last() =~= s.take(i));
}

/// The counts of a longer prefix are no smaller, neither of marks nor of gaps.
pub proof fn lemma_marked_prefix(s: Seq<bool>, i: int, j: int)
    requires
        0 <= i <= j <= s.len(),
    ensures
        marked(s.take(i)) <= marked(s.take(j)),
        i - marked(s.take(i)) <= j - marked(s.take(j)),
    decreases j,
{
    if i < j {
        lemma_marked_prefix(s, i, j - 1);
        lemma_marked_step(s, j - 1);
    }
}

/// The marks and the gaps make up the whole.
pub proof fn lemma_marked_complement(a: Seq<bool>, b: Seq<bool>)
    requires
        a.len() == b.len(),
        forall|i: int| 0 <= i < a.len() ==> a[i] != b[i],
    ensures
        marked(a) + marked(b) == a.len(),
    decreases a.len(),
{
    if a.len() > 0 {
        assert(a[a.len() - 1] != b[a.len() - 1]);
        lemma_marked_complement(a.drop_last(), b.drop_last());
    }
}

/// Which of the first `n` indices `ids` names.
pub open spec fn named(ids: Seq<EdgeId>, n: nat) -> Seq<bool> {
    Seq::new(n, |i: int| exists|k: int| 0 <= k < ids.len() && (#[trigger] ids[k])@ == i)
}

/// Distinct identifiers below `n` name as many indices as they are.
pub proof fn lemma_named_count(ids: Seq<EdgeId>, n: nat)
    requires
        ids.no_duplicates(),
        forall|k: int| 0 <= k < ids.len() ==> (#[trigger] ids[k])@ < n,
    ensures
        marked(named(ids, n)) == ids.len(),
        ids.len() <= n,
    decreases ids.len(),
{
    if ids.len() == 0 {
        lemma_marked_none(named(ids, n));
    } else {
        let rest = ids.drop_last();
        let last = ids.last()@ as int;
        assert(rest.no_duplicates());
        lemma_named_count(rest, n);
        let before = named(rest, n);
        let after = named(ids, n);
        assert(!before[last]) by {
            if before[last] {
                let k = choose|k: int| 0 <= k < rest.len() && (#[trigger] rest[k])@ == last;
                crate::ids::id_is_its_index(ids[k], ids[ids.len() - 1]);
            }
        }
        assert forall|i: int| 0 <= i < n implies #[trigger] after[i] == before.update(last, true)[i] by {
            if i == last {
                assert(ids[ids.len() - 1]@ == i);
            } else {
                if after[i] {
                    let k = choose|k: int| 0 <= k < ids.len() && (#[trigger] ids[k])@ == i;
                    assert(rest[k] == ids[k]);
                }
                if before[i] {
                    let k = choose|k: int| 0 <= k < rest.len() && (#[trigger] rest[k])@ == i;
                    assert(ids[k]@ == i);
                }
            }
        }
        assert(after =~= before.update(last, true));
        lemma_marked_update(before, last);
        lemma_marked_at_most_len(after);
    }
}

} // verus!
