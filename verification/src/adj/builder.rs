//! Parallel bulk construction.
//!
//! Every worker stages `(s, t)` pairs into its own chunk, and a deterministic
//! merge splices them in chunk order, so the resulting edge ids depend on the
//! number of chunks that the caller fixes and not on the number of threads.

use rayon::iter::{IndexedParallelIterator, IntoParallelRefMutIterator, ParallelIterator};
use vstd::prelude::*;

use super::allocator::IdSpace;
use super::index::Lookup;
use super::list::AdjList;
use super::topology::Topology;
use crate::error::GraphError;
use crate::ids::{EdgeId, VertexId, MAX_INDEX};

verus! {

/// A staged edge: its source and its target.
pub type Staged = (VertexId, VertexId);

/// `rayon`'s `par_iter_mut`, `enumerate` and `for_each`: `make` is called once
/// on every buffer, with the buffer's index, in whatever order and on whatever
/// thread. Nothing else touches a buffer.
#[verifier::external_body]
fn fill_each<F>(chunks: &mut Vec<Vec<Staged>>, make: F) where
    F: Fn(usize, &mut Vec<Staged>) + Sync + Send,

    requires
        forall|k: usize, buf: &mut Vec<Staged>|
            k < old(chunks)@.len() && *buf == old(chunks)@[k as int] ==> #[trigger] call_requires(
                make,
                (k, buf),
            ),
    ensures
        final(chunks)@.len() == old(chunks)@.len(),
        forall|k: usize| #[trigger]
            names_chunk(old(chunks)@, k) ==> exists|buf: &mut Vec<Staged>|
                *buf == old(chunks)@[k as int] && *final(buf) == final(chunks)@[k as int]
                    && #[trigger] call_ensures(make, (k, buf), ()),
{
    chunks.par_iter_mut().enumerate().for_each(|(k, buf)| make(k, buf));
}

/// Whether `k` is the index of a chunk.
pub open spec fn names_chunk(chunks: Seq<Vec<Staged>>, k: usize) -> bool {
    k < chunks.len()
}

/// The staged edges, chunk after chunk.
pub open spec fn merged(chunks: Seq<Vec<Staged>>) -> Seq<Staged>
    decreases chunks.len(),
{
    if chunks.len() == 0 {
        Seq::empty()
    } else {
        merged(chunks.drop_last()) + chunks.last()@
    }
}

/// A graph once the pairs have been added in order, and the index space that
/// the edges were issued from.
pub open spec fn with_edges(g: Topology, space: IdSpace, pairs: Seq<Staged>) -> (Topology, IdSpace)
    decreases pairs.len(),
{
    if pairs.len() == 0 {
        (g, space)
    } else {
        let (h, s) = with_edges(g, space, pairs.drop_last());
        (h.link(s.next_id(), pairs.last().0, pairs.last().1), s.issue())
    }
}

/// The graph of `n` vertices and the staged pairs, added in order.
pub open spec fn built(n: nat, indexed: bool, pairs: Seq<Staged>) -> (Topology, IdSpace) {
    with_edges(
        Topology::isolated(n, indexed),
        IdSpace { bound: 0, free: Seq::empty() },
        pairs,
    )
}

/// Whether both ends of a pair are among the first `n` vertices.
pub open spec fn in_range(n: nat, p: Staged) -> bool {
    p.0@ < n && p.1@ < n
}

/// Whether the first `k` pairs can be added: their ends are vertices, and there
/// is an index for each.
pub open spec fn addable(n: nat, pairs: Seq<Staged>, k: int) -> bool {
    &&& k <= MAX_INDEX + 1
    &&& forall|i: int| 0 <= i < k ==> in_range(n, #[trigger] pairs[i])
}

/// Whether every pair that can be added finds room in the blocks of its ends.
pub open spec fn room_for_all(n: nat, indexed: bool, pairs: Seq<Staged>) -> bool {
    forall|k: int|
        0 <= k < pairs.len() && #[trigger] addable(n, pairs, k + 1) ==> built(
            n,
            indexed,
            pairs.take(k),
        ).0.has_room(pairs[k].0, pairs[k].1)
}

/// Stages edges off-thread, then merges them deterministically.
#[derive(Debug)]
pub struct ParBuilder {
    pub(crate) chunks: Vec<Vec<Staged>>,
    pub(crate) n_vertices: usize,
}

impl Default for ParBuilder {
    /// No vertices and no chunks.
    fn default() -> (r: Self)
        ensures
            r.staging() == Seq::<Vec<Staged>>::empty(),
            r.vertices() == 0,
    {
        ParBuilder { chunks: Vec::new(), n_vertices: 0 }
    }
}

impl ParBuilder {
    /// The staging buffers.
    pub open(crate) spec fn staging(self) -> Seq<Vec<Staged>> {
        self.chunks@
    }

    /// The number of vertices.
    pub open(crate) spec fn vertices(self) -> nat {
        self.n_vertices as nat
    }

    /// A builder for a graph with `n_vertices` vertices and `chunks` staging
    /// buffers.
    ///
    /// The count is taken literally, and none is a builder that builds an
    /// edgeless graph.
    pub fn new(n_vertices: usize, chunks: usize) -> (r: Self)
        ensures
            r.vertices() == n_vertices,
            r.staging().len() == chunks,
            forall|k: int|
                0 <= k < chunks ==> (#[trigger] r.staging()[k])@ == Seq::<Staged>::empty(),
    {
        let mut v: Vec<Vec<Staged>> = Vec::new();
        let mut k: usize = 0;
        while k < chunks
            invariant
                k <= chunks,
                v@.len() == k,
                forall|i: int| 0 <= i < k ==> (#[trigger] v@[i])@ == Seq::<Staged>::empty(),
            decreases chunks - k,
        {
            v.push(Vec::new());
            k = k + 1;
        }
        ParBuilder { chunks: v, n_vertices }
    }

    /// Number of staging buffers.
    #[inline]
    pub fn chunks(&self) -> (r: usize)
        ensures
            r == self.staging().len(),
    {
        self.chunks.len()
    }

    /// Stage one edge into a chunk. Endpoints are *not* checked here but by
    /// [`build`](Self::build).
    #[inline]
    pub fn push(&mut self, chunk: usize, s: VertexId, t: VertexId)
        requires
            chunk < old(self).staging().len(),
        ensures
            final(self).vertices() == old(self).vertices(),
            final(self).staging().len() == old(self).staging().len(),
            final(self).staging()[chunk as int]@ == old(self).staging()[chunk as int]@.push((s, t)),
            forall|k: int|
                0 <= k < old(self).staging().len() && k != chunk
                    ==> #[trigger] final(self).staging()[k] == old(self).staging()[k],
    {
        self.chunks[chunk].push((s, t));
    }

    /// Fill every chunk in parallel from a per-chunk generator.
    ///
    /// `make(k, buf)` is handed the chunk's index and its buffer, as it is, and
    /// nothing else.
    pub fn fill<F>(&mut self, make: F) where F: Fn(usize, &mut Vec<Staged>) + Sync + Send
        requires
            forall|k: usize, buf: &mut Vec<Staged>|
                k < old(self).staging().len() && *buf == old(self).staging()[k as int]
                    ==> #[trigger] call_requires(make, (k, buf)),
        ensures
            final(self).vertices() == old(self).vertices(),
            final(self).staging().len() == old(self).staging().len(),
            forall|k: usize| #[trigger]
                names_chunk(old(self).staging(), k) ==> exists|buf: &mut Vec<Staged>|
                    *buf == old(self).staging()[k as int] && *final(buf) == final(
                        self
                    ).staging()[k as int] && #[trigger] call_ensures(make, (k, buf), ()),
    {
        fill_each(&mut self.chunks, make);
    }

    /// Merge in chunk order. Edge ids are `0..n_edges` in that order.
    ///
    /// The graph is the one that adding the pairs one at a time gives, and the
    /// first pair that cannot be added gives the error that adding it would. A
    /// failed merge yields no graph.
    pub fn build<H: Lookup>(self, lookup: H) -> (r: Result<AdjList<H>, GraphError>)
        requires
            AdjList::<H>::is_fresh_index(lookup),
            room_for_all(self.vertices(), H::ENABLED, merged(self.staging())),
        ensures
            ({
                let n = self.vertices();
                let pairs = merged(self.staging());
                match r {
                    Ok(g) => {
                        &&& n <= MAX_INDEX + 1
                        &&& addable(n, pairs, pairs.len() as int)
                        &&& g.wf()
                        &&& (g.topology(), g.space()) == built(n, H::ENABLED, pairs)
                        &&& g.space() == (IdSpace { bound: pairs.len(), free: Seq::empty() })
                        &&& forall|i: int|
                            0 <= i < pairs.len() ==> g.topology().ends_of(EdgeId::at(i as nat))
                                == Some(#[trigger] pairs[i])
                    },
                    Err(err) => if n > MAX_INDEX + 1 {
                        err == (GraphError::VertexIdSpaceExhausted { max: MAX_INDEX })
                    } else {
                        exists|k: int| #[trigger]
                            first_refused(n, pairs, k) && err == refusal(n, pairs[k])
                    },
                }
            }),
            r is Ok <==> self.vertices() <= MAX_INDEX + 1 && addable(
                self.vertices(),
                merged(self.staging()),
                merged(self.staging()).len() as int,
            ),
    {
        if self.n_vertices != 0 && self.n_vertices - 1 > MAX_INDEX {
            return Err(GraphError::VertexIdSpaceExhausted { max: MAX_INDEX });
        }
        let ghost n = self.vertices();
        let ghost pairs = merged(self.staging());
        let mut g = AdjList::with_vertices_and_lookup(self.n_vertices, lookup);
        let ghost mut done: int = 0;
        let mut c: usize = 0;
        assert(self.chunks@.take(0) =~= Seq::empty());
        assert(pairs.take(0) =~= Seq::empty());
        while c < self.chunks.len()
            invariant
                c <= self.chunks@.len(),
                n == self.n_vertices,
                n <= MAX_INDEX + 1,
                pairs == merged(self.chunks@),
                room_for_all(n, H::ENABLED, pairs),
                g.wf(),
                g.topology().indexed == H::ENABLED,
                g.topology().blocks.len() == n,
                0 <= done <= pairs.len(),
                addable(n, pairs, done),
                g.space() == (IdSpace { bound: done as nat, free: Seq::empty() }),
                (g.topology(), g.space()) == built(n, H::ENABLED, pairs.take(done)),
                pairs.take(done) == merged(self.chunks@.take(c as int)),
            decreases self.chunks@.len() - c,
        {
            let chunk = &self.chunks[c];
            let ghost start = done;
            let mut i: usize = 0;
            proof {
                lemma_merged_prefix(self.chunks@, c as int);
            }
            while i < chunk.len()
                invariant
                    i <= chunk@.len(),
                    c < self.chunks@.len(),
                    *chunk == self.chunks@[c as int],
                    n == self.n_vertices,
                    n <= MAX_INDEX + 1,
                    pairs == merged(self.chunks@),
                    room_for_all(n, H::ENABLED, pairs),
                    g.wf(),
                    g.topology().indexed == H::ENABLED,
                    g.topology().blocks.len() == n,
                    done == start + i,
                    0 <= start,
                    start + chunk@.len() <= pairs.len(),
                    forall|j: int|
                        0 <= j < chunk@.len() ==> #[trigger] pairs[start + j] == chunk@[j],
                    addable(n, pairs, done),
                    g.space() == (IdSpace { bound: done as nat, free: Seq::empty() }),
                    (g.topology(), g.space()) == built(n, H::ENABLED, pairs.take(done)),
                decreases chunk@.len() - i,
            {
                let (s, t) = chunk[i];
                let ghost before = g;
                proof {
                    assert(pairs[start + i] == chunk@[i as int]);
                    assert(pairs[done] == (s, t));
                    assert(pairs.take(done + 1).drop_last() =~= pairs.take(done));
                    if in_range(n, (s, t)) && done <= MAX_INDEX {
                        assert(addable(n, pairs, done + 1));
                    } else if in_range(n, (s, t)) {
                        assert(!addable(n, pairs, done + 1));
                    } else {
                        assert(!in_range(n, pairs[done]));
                        assert(!addable(n, pairs, done + 1));
                    }
                }
                match g.add_edge(s, t) {
                    Ok(_) => {
                        proof {
                            before.topology().lemma_link_counts(before.space().next_id(), s, t);
                            assert(g.space().free =~= Seq::empty());
                            done = done + 1;
                        }
                    },
                    Err(err) => {
                        assert(!addable(n, pairs, done + 1));
                        assert(err == refusal(n, pairs[done]));
                        assert(first_refused(self.vertices(), merged(self.staging()), done));
                        proof {
                            a_merge_has_one_outcome(n, pairs);
                        }
                        return Err(err);
                    },
                }
                i = i + 1;
            }
            proof {
                let more = self.chunks@.take(c + 1);
                assert(more.drop_last() =~= self.chunks@.take(c as int));
                assert(pairs.take(done) =~= merged(more));
            }
            c = c + 1;
        }
        assert(self.chunks@.take(c as int) =~= self.chunks@);
        assert(pairs.take(done) =~= pairs);
        proof {
            staged_pairs_are_numbered_in_order(n, H::ENABLED, pairs);
        }
        Ok(g)
    }
}

/// Whether pair `k` is the first that cannot be added.
pub open spec fn first_refused(n: nat, pairs: Seq<Staged>, k: int) -> bool {
    0 <= k < pairs.len() && addable(n, pairs, k) && !addable(n, pairs, k + 1)
}

/// The error that adding a pair gives which cannot be added.
pub open spec fn refusal(n: nat, p: Staged) -> GraphError {
    if p.0@ >= n {
        GraphError::NoSuchVertex(p.0)
    } else if p.1@ >= n {
        GraphError::NoSuchVertex(p.1)
    } else {
        GraphError::EdgeIdSpaceExhausted { max: MAX_INDEX }
    }
}

/// A chunk's pairs stand in the merge right after those of the chunks before.
proof fn lemma_merged_prefix(chunks: Seq<Vec<Staged>>, c: int)
    requires
        0 <= c < chunks.len(),
    ensures
        ({
            let start = merged(chunks.take(c)).len();
            &&& start + chunks[c]@.len() <= merged(chunks).len()
            &&& forall|j: int|
                0 <= j < chunks[c]@.len() ==> #[trigger] merged(chunks)[start + j] == chunks[c]@[j]
            &&& merged(chunks).take((start + chunks[c]@.len()) as int) == merged(
                chunks.take(c),
            ) + chunks[c]@
        }),
    decreases chunks.len(),
{
    let start = merged(chunks.take(c)).len();
    let all = merged(chunks);
    if c == chunks.len() - 1 {
        assert(chunks.take(c) =~= chunks.drop_last());
        assert(all.take((start + chunks[c]@.len()) as int) =~= all);
    } else {
        let less = chunks.drop_last();
        lemma_merged_prefix(less, c);
        assert(less.take(c) =~= chunks.take(c));
        assert forall|j: int| 0 <= j < chunks[c]@.len() implies #[trigger] all[start + j]
            == chunks[c]@[j] by {
            assert(all[start + j] == merged(less)[start + j]);
        }
        assert(all.take((start + chunks[c]@.len()) as int) =~= merged(less).take(
            (start + chunks[c]@.len()) as int,
        ));
    }
}

/// The `i`-th staged pair in chunk order is edge `i`: a merged graph has one
/// edge for each pair, numbered in the order of the merge.
pub proof fn staged_pairs_are_numbered_in_order(n: nat, indexed: bool, pairs: Seq<Staged>)
    requires
        addable(n, pairs, pairs.len() as int),
    ensures
        ({
            let (g, space) = built(n, indexed, pairs);
            &&& space == (IdSpace { bound: pairs.len(), free: Seq::empty() })
            &&& forall|i: int|
                0 <= i < pairs.len() ==> g.ends_of(EdgeId::at(i as nat)) == Some(
                    #[trigger] pairs[i],
                )
            &&& forall|id: EdgeId| #[trigger] g.ends.contains_key(id) <==> id@ < pairs.len()
        }),
    decreases pairs.len(),
{
    broadcast use crate::ids::id_is_its_index;
    broadcast use crate::ids::id_at;

    if pairs.len() > 0 {
        let less = pairs.drop_last();
        assert forall|i: int| 0 <= i < less.len() implies in_range(n, #[trigger] less[i]) by {
            assert(less[i] == pairs[i]);
        }
        staged_pairs_are_numbered_in_order(n, indexed, less);
        let (h, s) = built(n, indexed, less);
        let (g, space) = built(n, indexed, pairs);
        let id = s.next_id();
        assert(id == EdgeId::at(less.len()));
        assert(space.free =~= Seq::empty());
        assert forall|i: int| 0 <= i < pairs.len() implies g.ends_of(EdgeId::at(i as nat)) == Some(
            #[trigger] pairs[i],
        ) by {
            if i < less.len() {
                assert(less[i] == pairs[i]);
                assert(EdgeId::at(i as nat)@ == i);
            } else {
                assert(in_range(n, pairs[i]));
            }
        }
        assert forall|e: EdgeId| #[trigger] g.ends.contains_key(e) <==> e@ < pairs.len() by {
            assert(h.ends.contains_key(e) <==> e@ < less.len());
        }
    }
}

/// A merge has one outcome: either every pair can be added, or there is a first
/// one that cannot, and only one.
pub proof fn a_merge_has_one_outcome(n: nat, pairs: Seq<Staged>)
    ensures
        addable(n, pairs, pairs.len() as int) <==> !exists|k: int| #[trigger]
            first_refused(n, pairs, k),
        forall|k: int, l: int| #[trigger]
            first_refused(n, pairs, k) && #[trigger] first_refused(n, pairs, l) ==> k == l,
{
    lemma_first_refused(n, pairs, pairs.len() as int);
    assert forall|k: int, l: int| #[trigger]
        first_refused(n, pairs, k) && #[trigger] first_refused(n, pairs, l) implies k == l by {
        lemma_addable_before(n, pairs, k, l);
        lemma_addable_before(n, pairs, l, k);
    }
    if exists|k: int| #[trigger] first_refused(n, pairs, k) {
        let k = choose|k: int| #[trigger] first_refused(n, pairs, k);
        if addable(n, pairs, pairs.len() as int) {
            lemma_addable_before(n, pairs, k, pairs.len() as int);
        }
    }
}

proof fn lemma_addable_before(n: nat, pairs: Seq<Staged>, k: int, l: int)
    ensures
        k < l && addable(n, pairs, l) ==> addable(n, pairs, k + 1),
{
}

proof fn lemma_first_refused(n: nat, pairs: Seq<Staged>, m: int)
    requires
        0 <= m <= pairs.len(),
    ensures
        addable(n, pairs, m) || exists|k: int| #[trigger] first_refused(n, pairs, k),
    decreases m,
{
    if m > 0 {
        lemma_first_refused(n, pairs, m - 1);
        if addable(n, pairs, m - 1) && !addable(n, pairs, m) {
            assert(first_refused(n, pairs, m - 1));
        }
    }
}

/// A merged graph is the one that adding the pairs one at a time gives: pair
/// `k` is linked as edge `k` into the graph of the pairs before it, and takes
/// the next index.
pub proof fn merging_is_adding_one_by_one(n: nat, indexed: bool, pairs: Seq<Staged>, k: int)
    requires
        addable(n, pairs, pairs.len() as int),
        0 <= k < pairs.len(),
    ensures
        ({
            let (g, space) = built(n, indexed, pairs.take(k));
            let (h, next) = built(n, indexed, pairs.take(k + 1));
            &&& space.next_id() == EdgeId::at(k as nat)
            &&& h == g.link(EdgeId::at(k as nat), pairs[k].0, pairs[k].1)
            &&& next == space.issue()
            &&& next.live() == space.live() + 1
        }),
{
    let before = pairs.take(k);
    assert(pairs.take(k + 1).drop_last() =~= before);
    assert forall|i: int| 0 <= i < before.len() implies in_range(n, #[trigger] before[i]) by {
        assert(in_range(n, pairs[i]));
    }
    staged_pairs_are_numbered_in_order(n, indexed, before);
}

/// Where `make` does one thing to a buffer, filling does one thing to all of
/// them: two ways in which the chunks may have been filled are the same,
/// whatever threads they were filled on.
pub proof fn filling_has_one_outcome<F: Fn(usize, &mut Vec<Staged>)>(
    make: F,
    before: Seq<Vec<Staged>>,
    one: Seq<Vec<Staged>>,
    other: Seq<Vec<Staged>>,
)
    requires
        before.len() <= usize::MAX,
        one.len() == before.len(),
        other.len() == before.len(),
        forall|k: usize, a: &mut Vec<Staged>, b: &mut Vec<Staged>|
            *a == *b && #[trigger] call_ensures(make, (k, a), ()) && #[trigger] call_ensures(
                make,
                (k, b),
                (),
            ) ==> *final(a) == *final(b),
        forall|k: usize| #[trigger]
            names_chunk(before, k) ==> exists|buf: &mut Vec<Staged>|
                *buf == before[k as int] && *final(buf) == one[k as int]
                    && #[trigger] call_ensures(make, (k, buf), ()),
        forall|k: usize| #[trigger]
            names_chunk(before, k) ==> exists|buf: &mut Vec<Staged>|
                *buf == before[k as int] && *final(buf) == other[k as int]
                    && #[trigger] call_ensures(make, (k, buf), ()),
    ensures
        one == other,
{
    assert forall|k: int| 0 <= k < before.len() implies one[k] == other[k] by {
        assert(names_chunk(before, k as usize));
    }
    assert(one =~= other);
}

} // verus!
