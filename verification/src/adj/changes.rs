//! What each change does to a graph, said of its edges, its vertices and the
//! order of its blocks.

use vstd::prelude::*;

use super::allocator::IdSpace;
use super::block::{BlockView, End};
use super::builder::Staged;
use super::entry::{AdjEntry, EdgeView};
use super::index::EdgeSlot;
use super::topology::Topology;
use crate::ids::{EdgeId, VertexId, MAX_INDEX};

verus! {

/// A graph of isolated vertices has that many vertices and nothing else, and
/// one vertex more is isolated and changes no other.
pub proof fn vertices_come_isolated(n: nat, indexed: bool, g: Topology, v: VertexId, e: EdgeId)
    ensures
        Topology::isolated(n, indexed).blocks.len() == n,
        Topology::isolated(n, indexed).block(v).out.len() == 0,
        Topology::isolated(n, indexed).block(v).inc.len() == 0,
        Topology::isolated(n, indexed).ends_of(e) is None,
        Topology::isolated(n, indexed).indexed == indexed,
        g.add_vertex().blocks.len() == g.blocks.len() + 1,
        v@ == g.blocks.len() ==> g.add_vertex().has_vertex(v) && g.add_vertex().block(v).out.len()
            == 0 && g.add_vertex().block(v).inc.len() == 0,
        v@ != g.blocks.len() ==> g.add_vertex().block(v) == g.block(v),
        g.add_vertex().ends == g.ends,
        g.add_vertex().pairs == g.pairs,
        g.has_vertex(v) <==> v@ < g.blocks.len(),
        g.has_vertex(v) ==> g.block(v) == g.blocks[v@ as int],
        !g.has_vertex(v) ==> g.block(v).out.len() == 0 && g.block(v).inc.len() == 0,
        g.ends.contains_key(e) ==> g.ends_of(e) == Some(g.ends[e]),
        !g.ends.contains_key(e) ==> g.ends_of(e) is None,
{
}

/// Where an entry goes in a block, and where the others go: an out-entry is put
/// last in the out-half, and the in-entry that stood first goes last; an
/// in-entry is put last. Taking an entry out moves the last one of its half to
/// its place; where it was an out-entry, the in-entry that stood last goes
/// first.
pub proof fn how_a_block_is_spliced(b: BlockView, e: AdjEntry, pos: int, j: int)
    ensures
        b.with_out(e).out == b.out.push(e),
        b.with_out(e).inc.len() == b.inc.len(),
        0 <= j < b.inc.len() - 1 ==> b.with_out(e).inc[j] == b.inc[j + 1],
        b.inc.len() > 0 ==> b.with_out(e).inc.last() == b.inc[0],
        b.with_in(e).out == b.out,
        b.with_in(e).inc == b.inc.push(e),
        0 <= pos < b.out.len() ==> {
            let less = b.without(pos, End::Out);
            &&& less.out.len() == b.out.len() - 1
            &&& 0 <= j < b.out.len() - 1 && j != pos ==> less.out[j] == b.out[j]
            &&& pos < b.out.len() - 1 ==> less.out[pos] == b.out.last()
            &&& less.inc.len() == b.inc.len()
            &&& b.inc.len() > 0 ==> less.inc[0] == b.inc.last()
            &&& 0 < j < b.inc.len() ==> less.inc[j] == b.inc[j - 1]
        },
        b.out.len() <= pos < b.out.len() + b.inc.len() ==> {
            let less = b.without(pos, End::In);
            let at = pos - b.out.len();
            &&& less.out == b.out
            &&& less.inc.len() == b.inc.len() - 1
            &&& 0 <= j < b.inc.len() - 1 && j != at ==> less.inc[j] == b.inc[j]
            &&& at < b.inc.len() - 1 ==> less.inc[at] == b.inc.last()
        },
        b.all() == b.out + b.inc,
        b.len() == b.out.len() + b.inc.len(),
        b.entry(pos, End::Out) == (if 0 <= pos < b.out.len() {
            Some(b.out[pos])
        } else {
            None
        }),
        b.entry(pos, End::In) == (if b.out.len() <= pos < b.out.len() + b.inc.len() {
            Some(b.inc[pos - b.out.len()])
        } else {
            None
        }),
{
}

/// Linking an edge adds that edge, between the vertices named, and changes no
/// other: it comes last among the out-entries of its source and last among the
/// in-entries of its target, and last in the bucket of its pair. No other block
/// and no other bucket changes.
pub proof fn linking_adds_one_edge(g: Topology, id: EdgeId, s: VertexId, t: VertexId)
    requires
        g.has_vertex(s),
        g.has_vertex(t),
        forall|p: (VertexId, VertexId)| #[trigger] g.pairs.contains_key(p),
    ensures
        ({
            let h = g.link(id, s, t);
            &&& h.ends_of(id) == Some((s, t))
            &&& forall|e: EdgeId| e != id ==> #[trigger] h.ends_of(e) == g.ends_of(e)
            &&& h.blocks.len() == g.blocks.len()
            &&& h.indexed == g.indexed
            &&& h.block(s).out == g.block(s).out.push(AdjEntry { other: t, idx: id })
            &&& h.block(t).inc.last() == (AdjEntry { other: s, idx: id })
            &&& h.block(t).inc.len() == g.block(t).inc.len() + 1
            &&& forall|u: VertexId| u != s ==> #[trigger] h.block(u).out == g.block(u).out
            &&& forall|u: VertexId|
                u != s && u != t ==> #[trigger] h.block(u).inc == g.block(u).inc
            &&& s != t ==> h.block(t).inc == g.block(t).inc.push(AdjEntry { other: s, idx: id })
            &&& forall|u: VertexId| g.has_vertex(u) && u != t ==> #[trigger]
                h.block(u).inc.to_multiset() == g.block(u).inc.to_multiset()
            &&& h.block(t).inc.to_multiset() == g.block(t).inc.to_multiset().insert(
                AdjEntry { other: s, idx: id },
            )
            &&& forall|p: (VertexId, VertexId)| #[trigger]
                h.pairs[p] == (if g.indexed && p == (s, t) {
                    g.pairs[p].push(id)
                } else {
                    g.pairs[p]
                })
        }),
{
    broadcast use crate::ids::id_is_its_index;
    broadcast use vstd::seq_lib::group_to_multiset_ensures;

    let h = g.link(id, s, t);
    let e = AdjEntry { other: t, idx: id };
    let f = AdjEntry { other: s, idx: id };
    super::block::splices_keep_the_entries(g.block(s), e, 0, End::Out);
    super::block::splices_keep_the_entries(g.block(t), f, 0, End::In);
    let half = g.link_out(id, s, t);
    super::block::splices_keep_the_entries(half[t@ as int], f, 0, End::In);
    assert forall|u: VertexId| u != s implies #[trigger] h.block(u).out == g.block(u).out by {
        assert(u@ != s@);
    }
    assert forall|u: VertexId| u != s && u != t implies #[trigger] h.block(u).inc == g.block(
        u,
    ).inc by {
        assert(u@ != s@ && u@ != t@);
    }
    assert forall|u: VertexId| g.has_vertex(u) && u != t implies #[trigger] h.block(
        u,
    ).inc.to_multiset() == g.block(u).inc.to_multiset() by {
        assert(u@ != t@);
        if u == s {
            assert(h.block(u).inc == g.block(s).with_out(e).inc);
        } else {
            assert(u@ != s@);
        }
    }
}

/// Unlinking an edge takes that edge and no other: its entry leaves the
/// out-half of its source and the in-half of its target, and it leaves the
/// bucket of its pair.
pub proof fn unlinking_takes_one_edge(g: Topology, id: EdgeId)
    requires
        g.wf(),
        g.ends.contains_key(id),
    ensures
        ({
            let (s, t) = g.ends[id];
            let h = g.unlink(id);
            &&& h.ends_of(id) is None
            &&& forall|e: EdgeId| e != id ==> #[trigger] h.ends_of(e) == g.ends_of(e)
            &&& h.blocks.len() == g.blocks.len()
            &&& h.indexed == g.indexed
            &&& h.block(s).out.len() == g.block(s).out.len() - 1
            &&& h.block(t).inc.len() == g.block(t).inc.len() - 1
            &&& forall|u: VertexId| u != s ==> #[trigger] h.block(u).out == g.block(u).out
            &&& forall|u: VertexId|
                u != s && u != t ==> #[trigger] h.block(u).inc == g.block(u).inc
            &&& forall|p: (VertexId, VertexId), e: EdgeId| #[trigger]
                h.pairs[p].contains(e) <==> g.pairs[p].contains(e) && e != id
        }),
{
    broadcast use crate::ids::id_is_its_index;

    let (s, t) = g.ends[id];
    let h = g.unlink(id);
    g.lemma_unlink_counts(id);
    super::splicing::unlinking_keeps_it_well_formed(g, id);
    assert forall|u: VertexId| u != s implies #[trigger] h.block(u).out == g.block(u).out by {
        assert(u@ != s@);
    }
    assert forall|u: VertexId| u != s && u != t implies #[trigger] h.block(u).inc == g.block(
        u,
    ).inc by {
        assert(u@ != s@ && u@ != t@);
    }
    assert forall|p: (VertexId, VertexId), e: EdgeId| #[trigger]
        h.pairs[p].contains(e) <==> g.pairs[p].contains(e) && e != id by {
        assert(h.pairs[p].contains(e) <==> h.indexed && h.ends.contains_key(e) && h.ends[e] == p);
        assert(g.pairs[p].contains(e) <==> g.indexed && g.ends.contains_key(e) && g.ends[e] == p);
    }
}

/// The edges that clearing a vertex goes through: those that leave it, in the
/// order of its out-half, then those that only enter it, in the order of its
/// in-half; each with the end across from the vertex.
pub proof fn which_edges_a_vertex_is_cleared_of(g: Topology, v: VertexId, i: int)
    requires
        g.wf(),
        g.has_vertex(v),
        0 <= i < g.incident_once(v).len(),
    ensures
        g.incident_once(v) == g.block(v).out + g.block(v).inc.filter(|e: AdjEntry| e.other != v),
        crate::graph::across(g.ends_of(g.incident_once(v)[i].idx), v) == Some(
            g.incident_once(v)[i].other,
        ),
        forall|id: EdgeId|
            (exists|k: int|
                0 <= k < g.incident_once(v).len() && (#[trigger] g.incident_once(v)[k]).idx == id)
                <==> (#[trigger] g.ends_of(id) matches Some((s, t)) && (s == v || t == v)),
{
    broadcast use crate::ids::id_is_its_index;

    g.incident_once_is_complete(v);
    super::laws::incidences_are_anchored(g, v);
    let all = g.incident_once(v);
    let ids = super::topology::idents(all);
    let p = |e: AdjEntry| e.other != v;
    let b = g.block(v);
    assert(ids[i] == all[i].idx);
    assert(ids.contains(all[i].idx));
    if i < b.out.len() {
        assert(all[i] == b.out[i]);
    } else {
        let k = i - b.out.len();
        let rest = b.inc.filter(p);
        b.inc.lemma_filter_pred(p, k);
        b.inc.lemma_filter_contains_rev(p, rest[k]);
        let j = choose|j: int| 0 <= j < b.inc.len() && b.inc[j] == rest[k];
        assert(g.ends_of(b.inc[j].idx) == Some((b.inc[j].other, v)));
    }
    assert forall|id: EdgeId|
        (exists|k: int| 0 <= k < all.len() && (#[trigger] all[k]).idx == id) <==> (
        #[trigger] g.ends_of(id) matches Some((s, t)) && (s == v || t == v)) by {
        if exists|k: int| 0 <= k < all.len() && (#[trigger] all[k]).idx == id {
            let k = choose|k: int| 0 <= k < all.len() && (#[trigger] all[k]).idx == id;
            assert(ids[k] == id);
            assert(ids.contains(id));
        }
        if g.ends_of(id) matches Some((s, t)) && (s == v || t == v) {
            assert(g.ends.contains_key(id) && g.touches(id, v));
            assert(ids.contains(id));
            let k = choose|k: int| 0 <= k < ids.len() && ids[k] == id;
            assert(all[k].idx == id);
        }
    }
}

/// Clearing a vertex where a predicate says so takes the edges that it picks,
/// each of which is an edge of the vertex, and no other edge.
pub proof fn clearing_takes_the_picked_edges(g: Topology, v: VertexId, picks: Seq<bool>)
    requires
        g.wf(),
        g.has_vertex(v),
        picks.len() == g.incident_once(v).len(),
    ensures
        ({
            let all = g.incident_once(v);
            let h = g.unlink_all(super::topology::picked(all, picks));
            forall|id: EdgeId| #[trigger]
                h.ends_of(id) == (if exists|i: int|
                    0 <= i < all.len() && (#[trigger] all[i]).idx == id && picks[i] {
                    None
                } else {
                    g.ends_of(id)
                })
        }),
{
    g.incident_once_is_complete(v);
    let all = g.incident_once(v);
    let doomed = super::topology::picked(all, picks);
    super::topology::lemma_picked(all, picks);
    g.unlink_all_forgets(doomed);
    let h = g.unlink_all(doomed);
    assert forall|id: EdgeId| #[trigger] h.ends_of(id) == (if exists|i: int|
        0 <= i < all.len() && (#[trigger] all[i]).idx == id && picks[i] {
        None
    } else {
        g.ends_of(id)
    }) by {
        assert(doomed.contains(id) <==> exists|i: int|
            0 <= i < all.len() && picks[i] && (#[trigger] all[i]).idx == id);
        if g.ends.contains_key(id) && !doomed.contains(id) {
            assert(h.ends[id] == g.ends[id]);
        }
    }
}

/// Renaming a vertex gives the new name to that one and leaves every other, and
/// an edge touches the vertices that are its ends.
pub proof fn renaming_is_of_one_vertex(
    g: Topology,
    id: EdgeId,
    v: VertexId,
    from: VertexId,
    onto: VertexId,
)
    ensures
        super::topology::renamed(from, from, onto) == onto,
        v != from ==> super::topology::renamed(v, from, onto) == v,
        g.touches(id, v) <==> g.ends[id].0 == v || g.ends[id].1 == v,
{
}

/// A new identifier is the one released last, or, where none is free, the first
/// index beyond the space, which then grows by one. Identifiers run out exactly
/// where none is free and the space is as large as it can be.
pub proof fn identifiers_are_reused_before_the_space_grows(s: IdSpace)
    requires
        s.wf(),
    ensures
        s.has_next() <==> s.free.len() > 0 || s.bound <= 0xffff_fffe,
        s.free.len() > 0 ==> s.next_id() == s.free.last() && s.issue().bound == s.bound
            && s.issue().free == s.free.drop_last(),
        s.free.len() == 0 && s.has_next() ==> s.next_id()@ == s.bound && s.issue().bound == s.bound
            + 1 && s.issue().free == s.free,
        s.live() == s.bound - s.free.len(),
        forall|e: EdgeId| #[trigger] s.is_live(e) <==> e@ < s.bound && !s.free.contains(e),
{
    broadcast use crate::ids::id_at;

}

/// Releasing identifiers in order is releasing them one after another.
pub proof fn releasing_all_is_releasing_each(s: IdSpace, ids: Seq<EdgeId>, id: EdgeId)
    ensures
        s.give_all(Seq::empty()) == s,
        s.give_all(ids.push(id)) == s.give_all(ids).give(id),
        s.give(id).free == s.free.push(id),
        s.give(id).bound == s.bound,
{
    assert(s.free + Seq::<EdgeId>::empty() =~= s.free);
    assert(s.free + ids.push(id) =~= (s.free + ids).push(id));
}

/// Compaction keeps the order of the live indices and closes the gaps between
/// them: an index is moved down by as many free ones as stand before it.
pub proof fn compaction_closes_the_gaps(s: IdSpace, i: int)
    requires
        s.wf(),
        0 <= i < s.bound,
    ensures
        s.freed().len() == s.bound,
        s.freed()[i] <==> !s.is_live(EdgeId::at(i as nat)),
        i == 0 && !s.freed()[0] ==> s.compacted(0) == 0,
        i > 0 && !s.freed()[i] && !s.freed()[i - 1] ==> s.compacted(i) == s.compacted(i - 1) + 1,
        i > 0 && s.freed()[i] && s.freed()[i - 1] ==> s.compacted(i) == s.compacted(i - 1) + 1,
{
    broadcast use crate::ids::id_is_its_index;
    broadcast use crate::ids::id_at;

    let f = s.freed();
    let id = EdgeId::at(i as nat);
    if s.free.contains(id) {
        let k = choose|k: int| 0 <= k < s.free.len() && s.free[k] == id;
        assert(s.free[k]@ == i);
    }
    if f[i] {
        let k = choose|k: int| 0 <= k < s.free.len() && (#[trigger] s.free[k])@ == i;
        assert(s.free[k] == id);
    }
    assert(f.take(0) =~= Seq::<bool>::empty());
    if i > 0 {
        crate::adj::tally::lemma_marked_step(f, i - 1);
    }
}

/// A pair's bucket loses the edge taken out of it and no other, and the last
/// one fills its place.
pub proof fn a_bucket_loses_one_edge(bucket: Seq<EdgeId>, id: EdgeId)
    requires
        bucket.no_duplicates(),
        bucket.contains(id),
    ensures
        ({
            let less = super::index::bucket_without(bucket, id);
            &&& less.len() == bucket.len() - 1
            &&& !less.contains(id)
            &&& forall|e: EdgeId| e != id ==> (#[trigger] less.contains(e) <==> bucket.contains(e))
            &&& forall|k: int|
                0 <= k < less.len() ==> #[trigger] less[k] == (if bucket[k] == id {
                    bucket.last()
                } else {
                    bucket[k]
                })
        }),
{
    super::list::lemma_bucket_without(bucket, id);
    let at = bucket.index_of(id);
    assert(bucket[at] == id);
    let less = super::index::bucket_without(bucket, id);
    assert forall|k: int| 0 <= k < less.len() implies #[trigger] less[k] == (if bucket[k] == id {
        bucket.last()
    } else {
        bucket[k]
    }) by {
        if bucket[k] == id {
            assert(k == at);
        }
    }
}

/// A half of an edge is found where its slot says, if the block has an entry of
/// that edge there in that half.
pub proof fn a_half_is_found_where_its_slot_says(
    slots: Seq<EdgeSlot>,
    b: Seq<BlockView>,
    id: EdgeId,
)
    ensures
        super::index::live_in(slots, id) <==> id@ < slots.len() && slots[id@ as int].out_pos
            != 0xffff_ffff,
        super::index::ends_in(slots, id) == (if super::index::live_in(slots, id) {
            Some((slots[id@ as int].src, slots[id@ as int].tgt))
        } else {
            None
        }),
        super::index::located(slots, b, id, End::Out) matches Some((v, pos)) ==> {
            &&& super::index::live_in(slots, id)
            &&& v == slots[id@ as int].src && pos == slots[id@ as int].out_pos
            &&& v@ < b.len() && pos < b[v@ as int].out.len() && b[v@ as int].out[pos as int].idx
                == id
        },
        super::index::located(slots, b, id, End::In) matches Some((v, pos)) ==> {
            &&& super::index::live_in(slots, id)
            &&& v == slots[id@ as int].tgt && pos == slots[id@ as int].in_pos
            &&& v@ < b.len() && b[v@ as int].out.len() <= pos < b[v@ as int].len() && b[v@ as int]
                .inc[pos - b[v@ as int].out.len()].idx == id
        },
        super::index::live_in(slots, id) && slots[id@ as int].src@ < b.len()
            && slots[id@ as int].out_pos < b[slots[id@ as int].src@ as int].out.len()
            && b[slots[id@ as int].src@ as int].out[slots[id@ as int].out_pos as int].idx == id
            ==> super::index::located(slots, b, id, End::Out) is Some,
        super::index::live_in(slots, id) && slots[id@ as int].tgt@ < b.len()
            && b[slots[id@ as int].tgt@ as int].out.len() <= slots[id@ as int].in_pos
            < b[slots[id@ as int].tgt@ as int].len() && b[slots[id@ as int].tgt@ as int].inc[slots[
            id@ as int].in_pos - b[slots[id@ as int].tgt@ as int].out.len()].idx == id
            ==> super::index::located(slots, b, id, End::In) is Some,
{
}

/// An edge turned round has its ends exchanged, and the end across from one of
/// its ends is the other.
pub proof fn an_edge_has_two_ends(e: EdgeView, v: VertexId)
    ensures
        e.flip() == (EdgeView { id: e.id, src: e.tgt, tgt: e.src }),
        e.other_end(e.src) == Some(e.tgt),
        e.other_end(e.tgt) == Some(e.src),
        v != e.src && v != e.tgt ==> e.other_end(v) is None,
{
}

/// The staged pairs are merged chunk after chunk, each in the order it was
/// staged in.
pub proof fn chunks_are_merged_in_order(chunks: Seq<Vec<Staged>>, last: Vec<Staged>)
    ensures
        super::builder::merged(Seq::empty()) == Seq::<Staged>::empty(),
        super::builder::merged(chunks.push(last)) == super::builder::merged(chunks) + last@,
{
    assert(chunks.push(last).drop_last() =~= chunks);
}

/// The pairs can be added as long as both their ends are vertices and there is
/// an index for each, and the first that cannot be is refused for its source,
/// for its target, or for want of an index, in that order. Without pairs the
/// graph has its vertices alone.
pub proof fn which_pairs_can_be_added(n: nat, indexed: bool, pairs: Seq<Staged>, k: int)
    requires
        0 <= k < pairs.len(),
    ensures
        super::builder::addable(n, pairs, k) <==> k <= MAX_INDEX + 1 && forall|i: int|
            0 <= i < k ==> (#[trigger] pairs[i]).0@ < n && pairs[i].1@ < n,
        pairs[k].0@ >= n ==> super::builder::refusal(n, pairs[k])
            == crate::error::GraphError::NoSuchVertex(pairs[k].0),
        pairs[k].0@ < n && pairs[k].1@ >= n ==> super::builder::refusal(n, pairs[k])
            == crate::error::GraphError::NoSuchVertex(pairs[k].1),
        pairs[k].0@ < n && pairs[k].1@ < n ==> super::builder::refusal(n, pairs[k]) == (
        crate::error::GraphError::EdgeIdSpaceExhausted { max: 0xffff_fffe }),
        super::builder::built(n, indexed, Seq::empty()).0 == Topology::isolated(n, indexed),
        super::builder::built(n, indexed, Seq::empty()).1.bound == 0,
{
    if super::builder::addable(n, pairs, k) {
        assert forall|i: int| 0 <= i < k implies (#[trigger] pairs[i]).0@ < n && pairs[i].1@
            < n by {
            assert(super::builder::in_range(n, pairs[i]));
        }
    }
}

/// There is room for an edge wherever the blocks of its ends are not within two
/// entries of the width of a position.
pub proof fn there_is_room_below_the_width(g: Topology, s: VertexId, t: VertexId)
    requires
        g.block(s).len() + 1 < 0xffff_ffff,
        g.block(t).len() + 1 < 0xffff_ffff,
    ensures
        g.has_room(s, t),
{
}

/// The first entry of a run whose other end is `v` is the one that no such entry
/// stands before.
proof fn lemma_first_entry_is_first(run: Seq<AdjEntry>, v: VertexId)
    ensures
        super::topology::first_entry(run, v) matches Some(id) ==> exists|j: int|
            0 <= j < run.len() && (#[trigger] run[j]).idx == id && run[j].other == v && forall|i:
                int|
                0 <= i < j ==> (#[trigger] run[i]).other != v,
        super::topology::first_entry(run, v) is None ==> forall|i: int|
            0 <= i < run.len() ==> (#[trigger] run[i]).other != v,
    decreases run.len(),
{
    if run.len() > 0 {
        if run[0].other == v {
            assert(run[0].idx == super::topology::first_entry(run, v)->0);
        } else {
            let rest = run.drop_first();
            lemma_first_entry_is_first(rest, v);
            if super::topology::first_entry(run, v) is Some {
                let j = choose|j: int|
                    0 <= j < rest.len() && (#[trigger] rest[j]).idx
                        == super::topology::first_entry(rest, v)->0 && rest[j].other == v
                        && forall|i: int| 0 <= i < j ==> (#[trigger] rest[i]).other != v;
                assert forall|i: int| 0 <= i < j + 1 implies (#[trigger] run[i]).other != v by {
                    if i > 0 {
                        assert(rest[i - 1] == run[i]);
                    }
                }
                assert(run[j + 1] == rest[j]);
            } else {
                assert forall|i: int| 0 <= i < run.len() implies (#[trigger] run[i]).other
                    != v by {
                    if i > 0 {
                        assert(rest[i - 1] == run[i]);
                    }
                }
            }
        }
    }
}

/// Of several edges from `s` to `t` a lookup gives the first: of the bucket of
/// the pair where edges are indexed, and otherwise of the out-half of `s` where
/// that is the shorter and of the in-half of `t` where it is not.
pub proof fn a_lookup_gives_the_first_edge(g: Topology, s: VertexId, t: VertexId)
    requires
        g.has_vertex(s),
        g.has_vertex(t),
    ensures
        g.indexed ==> (g.first_between(s, t) is Some <==> g.pairs[(s, t)].len() > 0),
        g.indexed ==> (g.first_between(s, t) matches Some(id) ==> id == g.pairs[(s, t)][0]),
        !g.indexed && g.block(s).out.len() < g.block(t).inc.len() ==> (g.first_between(
            s,
            t,
        ) matches Some(id) ==> exists|j: int|
            0 <= j < g.block(s).out.len() && (#[trigger] g.block(s).out[j]).idx == id && g.block(
                s,
            ).out[j].other == t && forall|i: int|
                0 <= i < j ==> (#[trigger] g.block(s).out[i]).other != t),
        !g.indexed && g.block(s).out.len() >= g.block(t).inc.len() ==> (g.first_between(
            s,
            t,
        ) matches Some(id) ==> exists|j: int|
            0 <= j < g.block(t).inc.len() && (#[trigger] g.block(t).inc[j]).idx == id && g.block(
                t,
            ).inc[j].other == s && forall|i: int|
                0 <= i < j ==> (#[trigger] g.block(t).inc[i]).other != s),
{
    lemma_first_entry_is_first(g.block(s).out, t);
    lemma_first_entry_is_first(g.block(t).inc, s);
}

/// An audit that finds no fault in the pair index has shown that the bucket of
/// every pair that an edge joins holds the edges of that pair and no other.
pub proof fn no_pair_fault_means_the_pairs_agree(
    b: Seq<BlockView>,
    s: Seq<EdgeSlot>,
    pairs: Map<(VertexId, VertexId), Seq<EdgeId>>,
    v: int,
    j: int,
    id: EdgeId,
)
    requires
        super::consistency::agree(b, s),
        b.len() <= MAX_INDEX + 1,
        super::census::pairs_sound(b, s, pairs, b.len() as int, 0),
        0 <= v < b.len(),
        0 <= j < b[v].out.len(),
    ensures
        ({
            let pair = (VertexId::at(v as nat), b[v].out[j].other);
            pairs[pair].contains(id) <==> super::index::ends_in(s, id) == Some(pair)
        }),
        pairs[(VertexId::at(v as nat), b[v].out[j].other)].len() == b[v].out.filter(
            |x: AdjEntry| x.other == b[v].out[j].other,
        ).len(),
{
    broadcast use crate::ids::id_is_its_index;
    broadcast use crate::ids::id_at;
    reveal(super::consistency::agree);

    let e = b[v].out[j];
    let pair = (VertexId::at(v as nat), e.other);
    let bucket = pairs[pair];
    assert(super::census::pair_fault(b, s, pairs, v, j) is None);
    if bucket.contains(id) {
        let k = choose|k: int| 0 <= k < bucket.len() && bucket[k] == id;
        assert(super::index::ends_in(s, bucket[k]) == Some(pair));
    }
    if super::index::ends_in(s, id) == Some(pair) {
        let slot = s[id@ as int];
        assert(super::consistency::has_out(b, slot, id@ as int));
        let i = slot.out_pos as int;
        assert(b[v].out[i].idx == id);
        assert(super::consistency::out_agrees(b, s, v, i, b[v].out[i]));
        assert(super::census::pair_fault(b, s, pairs, v, i) is None);
    }
}

/// A table grows by blank slots to have one for the index named, and keeps the
/// others; noting a relocation changes the position of one half of one edge.
pub proof fn how_the_table_is_kept(s: Seq<EdgeSlot>, i: nat, k: int, m: super::block::Moved)
    ensures
        super::index::grown(s, i).len() == (if i < s.len() {
            s.len()
        } else {
            i + 1
        }),
        0 <= k < s.len() ==> super::index::grown(s, i)[k] == s[k],
        s.len() <= k <= i ==> super::index::grown(s, i)[k] == EdgeSlot::dead(),
        EdgeSlot::dead().out_pos == 0xffff_ffff,
        super::index::relocated(s, None) == s,
        m.id@ < s.len() ==> super::index::relocated(s, Some(m)).len() == s.len(),
        m.id@ < s.len() && 0 <= k < s.len() && k != m.id@ ==> super::index::relocated(s, Some(m))[k] == s[k],
        m.id@ < s.len() ==> ({
            let was = s[m.id@ as int];
            let now = super::index::relocated(s, Some(m))[m.id@ as int];
            &&& now.src == was.src && now.tgt == was.tgt
            &&& m.end == End::Out ==> now.out_pos == m.to && now.in_pos == was.in_pos
            &&& m.end == End::In ==> now.in_pos == m.to && now.out_pos == was.out_pos
        }),
{
}

/// Unlinking a run of edges is unlinking one after another, and so is moving
/// them from one vertex to another, each by unlinking it and linking it again
/// under its identifier. A vertex is removed by unlinking its edges, moving
/// those of the last vertex, and dropping the last block.
pub proof fn changes_are_made_one_edge_at_a_time(
    g: Topology,
    ids: Seq<EdgeId>,
    id: EdgeId,
    v: VertexId,
    from: VertexId,
    onto: VertexId,
)
    ensures
        g.unlink_all(Seq::empty()) == g,
        g.unlink_all(ids.push(id)) == g.unlink_all(ids).unlink(id),
        g.relabel_all(Seq::empty(), from, onto) == g,
        g.relabel_all(ids.push(id), from, onto) == g.relabel_all(ids, from, onto).relabel(
            id,
            from,
            onto,
        ),
        g.relabel(id, from, onto) == g.unlink(id).link(
            id,
            if g.ends[id].0 == from {
                onto
            } else {
                g.ends[id].0
            },
            if g.ends[id].1 == from {
                onto
            } else {
                g.ends[id].1
            },
        ),
        ({
            let last = VertexId::at((g.blocks.len() - 1) as nat);
            let cleared = g.unlink_all(super::topology::idents(g.incident_once(v)));
            let moved = if v == last {
                cleared
            } else {
                cleared.relabel_all(
                    super::topology::idents(cleared.incident_once(last)),
                    last,
                    v,
                )
            };
            &&& g.swap_removed(v).blocks == moved.blocks.drop_last()
            &&& g.swap_removed(v).ends == moved.ends
            &&& g.swap_removed(v).pairs == moved.pairs
        }),
{
    assert(ids.push(id).drop_last() =~= ids);
}

/// The identities of a run of entries are those of the entries, in order, and
/// the ones picked of it are those that are answered for, in order.
pub proof fn picking_keeps_the_order(
    entries: Seq<AdjEntry>,
    picks: Seq<bool>,
    e: AdjEntry,
    pick: bool,
    k: int,
)
    requires
        picks.len() == entries.len(),
    ensures
        super::topology::idents(entries).len() == entries.len(),
        0 <= k < entries.len() ==> super::topology::idents(entries)[k] == entries[k].idx,
        super::topology::picked(Seq::empty(), Seq::empty()) == Seq::<EdgeId>::empty(),
        super::topology::picked(entries.push(e), picks.push(pick)) == (if pick {
            super::topology::picked(entries, picks).push(e.idx)
        } else {
            super::topology::picked(entries, picks)
        }),
{
    super::topology::lemma_picked_push(entries, picks, e, pick);
}

/// A chunk is one of the builder's where its index is below their number.
pub proof fn every_chunk_is_filled(chunks: Seq<Vec<Staged>>, k: usize)
    ensures
        super::builder::names_chunk(chunks, k) <==> k < chunks.len(),
{
}

/// The edges of a pair, read from the blocks: those of the out-entries of its
/// source whose other end is its target, in their order.
pub proof fn the_edges_of_a_pair_are_read_in_order(b: Seq<BlockView>, s: VertexId, t: VertexId)
    ensures
        s@ < b.len() ==> super::index::edges_between(b, s, t) == b[s@ as int].out.filter(
            |e: AdjEntry| e.other == t,
        ).map_values(|e: AdjEntry| e.idx),
        s@ >= b.len() ==> super::index::edges_between(b, s, t).len() == 0,
{
}

} // verus!
