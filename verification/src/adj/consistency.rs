//! The slot table and the adjacency say the same of every edge, and keep
//! saying so through the four half-splices.

use vstd::prelude::*;

use super::block::{BlockView, End};
use super::entry::AdjEntry;
use super::index::EdgeSlot;
use crate::ids::{EdgeId, Raw};

verus! {

/// Out-entry `j` of `v` is what the slot of its edge says.
pub open spec fn out_agrees(
    b: Seq<BlockView>,
    s: Seq<EdgeSlot>,
    v: int,
    j: int,
    e: AdjEntry,
) -> bool {
    &&& e.other@ < b.len()
    &&& e.idx@ < s.len()
    &&& s[e.idx@ as int].is_live()
    &&& s[e.idx@ as int].src@ == v
    &&& s[e.idx@ as int].tgt == e.other
    &&& s[e.idx@ as int].out_pos == j
}

/// The in-entry at position `pos` of `v` is what the slot of its edge says.
pub open spec fn in_agrees(
    b: Seq<BlockView>,
    s: Seq<EdgeSlot>,
    v: int,
    pos: int,
    e: AdjEntry,
) -> bool {
    &&& e.other@ < b.len()
    &&& e.idx@ < s.len()
    &&& s[e.idx@ as int].is_live()
    &&& s[e.idx@ as int].tgt@ == v
    &&& s[e.idx@ as int].src == e.other
    &&& s[e.idx@ as int].in_pos == pos
}

/// The entry that a live slot has in its source's out-half.
pub open spec fn has_out(b: Seq<BlockView>, slot: EdgeSlot, i: int) -> bool {
    &&& slot.out_pos < b[slot.src@ as int].out.len()
    &&& b[slot.src@ as int].out[slot.out_pos as int].idx@ == i
}

/// The entry that a live slot has in its target's in-half.
pub open spec fn has_in(b: Seq<BlockView>, slot: EdgeSlot, i: int) -> bool {
    let t = b[slot.tgt@ as int];
    &&& t.out.len() <= slot.in_pos < t.len()
    &&& t.inc[slot.in_pos - t.out.len()].idx@ == i
}

/// Every entry is named by the matching half of a live slot, at its position;
/// every live slot has both its entries. Edge `id` is halfway: its out-entry is
/// there exactly if `o`, its in-entry exactly if `i`.
#[verifier::opaque]
pub open spec fn agree_but(
    b: Seq<BlockView>,
    s: Seq<EdgeSlot>,
    id: EdgeId,
    o: bool,
    i: bool,
) -> bool {
    &&& forall|v: int, j: int|
        0 <= v < b.len() && 0 <= j < b[v].out.len() ==> out_agrees(
            b,
            s,
            v,
            j,
            #[trigger] b[v].out[j],
        ) && (b[v].out[j].idx == id ==> o)
    &&& forall|v: int, j: int|
        0 <= v < b.len() && 0 <= j < b[v].inc.len() ==> in_agrees(
            b,
            s,
            v,
            b[v].out.len() + j,
            #[trigger] b[v].inc[j],
        ) && (b[v].inc[j].idx == id ==> i)
    &&& forall|k: int|
        0 <= k < s.len() && (#[trigger] s[k]).is_live() ==> {
            &&& s[k].src@ < b.len()
            &&& s[k].tgt@ < b.len()
            &&& (k == id@ && !o) || has_out(b, s[k], k)
            &&& (k == id@ && !i) || has_in(b, s[k], k)
        }
}

/// Every entry is named by the matching half of a live slot, at its position,
/// and every live slot has both its entries.
#[verifier::opaque]
pub open spec fn agree(b: Seq<BlockView>, s: Seq<EdgeSlot>) -> bool {
    &&& forall|v: int, j: int|
        0 <= v < b.len() && 0 <= j < b[v].out.len() ==> out_agrees(
            b,
            s,
            v,
            j,
            #[trigger] b[v].out[j],
        )
    &&& forall|v: int, j: int|
        0 <= v < b.len() && 0 <= j < b[v].inc.len() ==> in_agrees(
            b,
            s,
            v,
            b[v].out.len() + j,
            #[trigger] b[v].inc[j],
        )
    &&& forall|k: int|
        0 <= k < s.len() && (#[trigger] s[k]).is_live() ==> {
            &&& s[k].src@ < b.len()
            &&& s[k].tgt@ < b.len()
            &&& has_out(b, s[k], k)
            &&& has_in(b, s[k], k)
        }
}

/// Appending the out-entry of an edge whose slot expects it there.
pub proof fn lemma_insert_out(b: Seq<BlockView>, s: Seq<EdgeSlot>, id: EdgeId, i: bool)
    requires
        agree_but(b, s, id, false, i),
        id@ < s.len(),
        s[id@ as int].is_live(),
        s[id@ as int].out_pos == b[s[id@ as int].src@ as int].out.len(),
        b[s[id@ as int].src@ as int].len() <= Raw::MAX,
    ensures
        ({
            let slot = s[id@ as int];
            let v = slot.src@ as int;
            let e = AdjEntry { other: slot.tgt, idx: id };
            let m = b[v].moved_by_insert();
            &&& m matches Some(m) ==> super::index::live_in(s, m.id)
            &&& agree_but(
                b.update(v, b[v].with_out(e)),
                super::index::relocated(s, m),
                id,
                true,
                i,
            )
        }),
{
    broadcast use crate::ids::id_is_its_index;
    reveal(agree_but);

    let slot = s[id@ as int];
    let v = slot.src@ as int;
    let e = AdjEntry { other: slot.tgt, idx: id };
    let m = b[v].moved_by_insert();
    let c = b.update(v, b[v].with_out(e));
    let t = super::index::relocated(s, m);
    if b[v].inc.len() > 0 {
        assert(in_agrees(b, s, v, b[v].out.len() as int, b[v].inc[0]));
    }
    assert forall|w: int, j: int| 0 <= w < c.len() && 0 <= j < c[w].out.len() implies out_agrees(
        c,
        t,
        w,
        j,
        #[trigger] c[w].out[j],
    ) by {
        if w == v && j == b[v].out.len() {
        } else {
            assert(c[w].out[j] == b[w].out[j]);
        }
    }
    assert forall|w: int, j: int| 0 <= w < c.len() && 0 <= j < c[w].inc.len() implies in_agrees(
        c,
        t,
        w,
        c[w].out.len() + j,
        #[trigger] c[w].inc[j],
    ) && (c[w].inc[j].idx == id ==> i) by {
        if w == v {
            if j == b[v].inc.len() - 1 {
                assert(c[w].inc[j] == b[v].inc[0]);
            } else {
                assert(c[w].inc[j] == b[v].inc[j + 1]);
                assert(b[v].inc[j + 1].idx != b[v].inc[0].idx);
            }
        } else {
            assert(c[w].inc[j] == b[w].inc[j]);
        }
    }
    assert forall|k: int| 0 <= k < t.len() && (#[trigger] t[k]).is_live() implies {
        &&& t[k].src@ < c.len()
        &&& t[k].tgt@ < c.len()
        &&& has_out(c, t[k], k)
        &&& (k == id@ && !i) || has_in(c, t[k], k)
    } by {
        assert(s[k].is_live());
        if k != id@ || i {
            assert(has_in(b, s[k], k));
            let w = s[k].tgt@ as int;
            let j = s[k].in_pos - b[w].out.len();
            if w == v {
                if j == 0 {
                    assert(c[w].inc[b[v].inc.len() - 1] == b[v].inc[0]);
                } else {
                    assert(b[v].inc[j].idx != b[v].inc[0].idx);
                    assert(c[w].inc[j - 1] == b[v].inc[j]);
                }
            } else {
                assert(b[w].inc[j].idx@ == k);
                if b[v].inc.len() > 0 {
                    assert(k != b[v].inc[0].idx@);
                }
            }
        }
    }
}

/// Appending the in-entry of an edge whose slot expects it there.
pub proof fn lemma_insert_in(b: Seq<BlockView>, s: Seq<EdgeSlot>, id: EdgeId, o: bool)
    requires
        agree_but(b, s, id, o, false),
        id@ < s.len(),
        s[id@ as int].is_live(),
        s[id@ as int].in_pos == b[s[id@ as int].tgt@ as int].len(),
    ensures
        ({
            let slot = s[id@ as int];
            let v = slot.tgt@ as int;
            let e = AdjEntry { other: slot.src, idx: id };
            agree_but(b.update(v, b[v].with_in(e)), s, id, o, true)
        }),
{
    broadcast use crate::ids::id_is_its_index;
    reveal(agree_but);

    let slot = s[id@ as int];
    let v = slot.tgt@ as int;
    let e = AdjEntry { other: slot.src, idx: id };
    let c = b.update(v, b[v].with_in(e));
    assert forall|w: int, j: int| 0 <= w < c.len() && 0 <= j < c[w].out.len() implies out_agrees(
        c,
        s,
        w,
        j,
        #[trigger] c[w].out[j],
    ) && (c[w].out[j].idx == id ==> o) by {
        assert(c[w].out[j] == b[w].out[j]);
    }
    assert forall|w: int, j: int| 0 <= w < c.len() && 0 <= j < c[w].inc.len() implies in_agrees(
        c,
        s,
        w,
        c[w].out.len() + j,
        #[trigger] c[w].inc[j],
    ) by {
        if w == v && j == b[v].inc.len() {
        } else {
            assert(c[w].inc[j] == b[w].inc[j]);
        }
    }
}

/// Removing the out-entry of an edge.
pub proof fn lemma_remove_out(b: Seq<BlockView>, s: Seq<EdgeSlot>, id: EdgeId, i: bool)
    requires
        agree_but(b, s, id, true, i),
        id@ < s.len(),
        s[id@ as int].is_live(),
    ensures
        ({
            let slot = s[id@ as int];
            let v = slot.src@ as int;
            let p = slot.out_pos as int;
            let (m0, m1) = b[v].moved_by_remove(p, End::Out);
            let t = super::index::relocated(s, m0);
            &&& m0 matches Some(m) ==> super::index::live_in(s, m.id)
            &&& m1 matches Some(m) ==> super::index::live_in(t, m.id)
            &&& agree_but(
                b.update(v, b[v].without_out(p)),
                super::index::relocated(t, m1),
                id,
                false,
                i,
            )
        }),
{
    broadcast use crate::ids::id_is_its_index;
    reveal(agree_but);

    let slot = s[id@ as int];
    let v = slot.src@ as int;
    let p = slot.out_pos as int;
    let (m0, m1) = b[v].moved_by_remove(p, End::Out);
    let t0 = super::index::relocated(s, m0);
    let t = super::index::relocated(t0, m1);
    let c = b.update(v, b[v].without_out(p));
    let last = b[v].out.len() - 1;
    let top = b[v].inc.len() - 1;
    assert(b[v].out[p].idx == id);
    assert(out_agrees(b, s, v, last, b[v].out[last]));
    if top >= 0 {
        assert(in_agrees(b, s, v, b[v].out.len() + top, b[v].inc[top]));
    }
    assert(t.len() == s.len());
    assert forall|k: int| 0 <= k < s.len() implies {
        &&& (#[trigger] t[k]).src == s[k].src
        &&& t[k].tgt == s[k].tgt
        &&& t[k].out_pos == (if p != last && k == b[v].out[last].idx@ {
            p
        } else {
            s[k].out_pos as int
        })
        &&& t[k].in_pos == (if top >= 0 && k == b[v].inc[top].idx@ {
            last
        } else {
            s[k].in_pos as int
        })
    } by {}
    assert forall|w: int, j: int| 0 <= w < c.len() && 0 <= j < c[w].out.len() implies out_agrees(
        c,
        t,
        w,
        j,
        #[trigger] c[w].out[j],
    ) && c[w].out[j].idx != id by {
        if w == v {
            if j == p {
                assert(c[w].out[j] == b[v].out[last]);
            } else {
                assert(c[w].out[j] == b[v].out[j]);
                assert(b[v].out[j].idx != b[v].out[last].idx);
            }
        } else {
            assert(c[w].out[j] == b[w].out[j]);
            assert(b[w].out[j].idx != b[v].out[last].idx);
        }
    }
    assert forall|w: int, j: int| 0 <= w < c.len() && 0 <= j < c[w].inc.len() implies in_agrees(
        c,
        t,
        w,
        c[w].out.len() + j,
        #[trigger] c[w].inc[j],
    ) && (c[w].inc[j].idx == id ==> i) by {
        if w == v {
            if j == 0 {
                assert(c[w].inc[j] == b[v].inc[top]);
            } else {
                assert(c[w].inc[j] == b[v].inc[j - 1]);
                assert(b[v].inc[j - 1].idx != b[v].inc[top].idx);
            }
        } else {
            assert(c[w].inc[j] == b[w].inc[j]);
            if top >= 0 {
                assert(b[w].inc[j].idx != b[v].inc[top].idx);
            }
        }
    }
    assert forall|k: int| 0 <= k < t.len() && (#[trigger] t[k]).is_live() implies {
        &&& t[k].src@ < c.len()
        &&& t[k].tgt@ < c.len()
        &&& k == id@ || has_out(c, t[k], k)
        &&& (k == id@ && !i) || has_in(c, t[k], k)
    } by {
        assert(s[k].is_live());
        if k != id@ {
            assert(has_out(b, s[k], k));
            let w = s[k].src@ as int;
            let j = s[k].out_pos as int;
            if w == v {
                if j == last {
                    assert(c[v].out[p] == b[v].out[last]);
                } else {
                    assert(b[v].out[j].idx != b[v].out[last].idx);
                    assert(c[v].out[j] == b[v].out[j]);
                }
            } else {
                assert(b[w].out[j].idx != b[v].out[last].idx);
                assert(c[w].out[j] == b[w].out[j]);
            }
        }
        if k != id@ || i {
            assert(has_in(b, s[k], k));
            let w = s[k].tgt@ as int;
            let j = s[k].in_pos - b[w].out.len();
            if w == v {
                if j == top {
                    assert(c[v].inc[0] == b[v].inc[top]);
                } else {
                    assert(b[v].inc[j].idx != b[v].inc[top].idx);
                    assert(c[v].inc[j + 1] == b[v].inc[j]);
                }
            } else {
                if top >= 0 {
                    assert(b[w].inc[j].idx != b[v].inc[top].idx);
                }
                assert(c[w].inc[j] == b[w].inc[j]);
            }
        }
    }
}

/// Removing the in-entry of an edge.
pub proof fn lemma_remove_in(b: Seq<BlockView>, s: Seq<EdgeSlot>, id: EdgeId, o: bool)
    requires
        agree_but(b, s, id, o, true),
        id@ < s.len(),
        s[id@ as int].is_live(),
    ensures
        ({
            let slot = s[id@ as int];
            let v = slot.tgt@ as int;
            let p = slot.in_pos as int;
            let (m0, m1) = b[v].moved_by_remove(p, End::In);
            &&& m0 matches Some(m) ==> super::index::live_in(s, m.id)
            &&& m1 is None
            &&& agree_but(
                b.update(v, b[v].without_in(p - b[v].out.len())),
                super::index::relocated(s, m0),
                id,
                o,
                false,
            )
        }),
{
    broadcast use crate::ids::id_is_its_index;
    reveal(agree_but);

    let slot = s[id@ as int];
    let v = slot.tgt@ as int;
    let p = slot.in_pos as int;
    let q = p - b[v].out.len();
    let (m0, m1) = b[v].moved_by_remove(p, End::In);
    let t = super::index::relocated(s, m0);
    let c = b.update(v, b[v].without_in(q));
    let top = b[v].inc.len() - 1;
    assert(b[v].inc[q].idx == id);
    assert(in_agrees(b, s, v, b[v].out.len() + top, b[v].inc[top]));
    assert forall|w: int, j: int| 0 <= w < c.len() && 0 <= j < c[w].out.len() implies out_agrees(
        c,
        t,
        w,
        j,
        #[trigger] c[w].out[j],
    ) && (c[w].out[j].idx == id ==> o) by {
        assert(c[w].out[j] == b[w].out[j]);
    }
    assert forall|w: int, j: int| 0 <= w < c.len() && 0 <= j < c[w].inc.len() implies in_agrees(
        c,
        t,
        w,
        c[w].out.len() + j,
        #[trigger] c[w].inc[j],
    ) && c[w].inc[j].idx != id by {
        if w == v {
            if j == q {
                assert(c[w].inc[j] == b[v].inc[top]);
            } else {
                assert(c[w].inc[j] == b[v].inc[j]);
                assert(b[v].inc[j].idx != b[v].inc[top].idx);
            }
        } else {
            assert(c[w].inc[j] == b[w].inc[j]);
            assert(b[w].inc[j].idx != b[v].inc[top].idx);
        }
    }
    assert forall|k: int| 0 <= k < t.len() && (#[trigger] t[k]).is_live() implies {
        &&& t[k].src@ < c.len()
        &&& t[k].tgt@ < c.len()
        &&& (k == id@ && !o) || has_out(c, t[k], k)
        &&& k == id@ || has_in(c, t[k], k)
    } by {
        assert(s[k].is_live());
        if k != id@ {
            assert(has_in(b, s[k], k));
            let w = s[k].tgt@ as int;
            let j = s[k].in_pos - b[w].out.len();
            if w == v {
                if j == top {
                    assert(c[v].inc[q] == b[v].inc[top]);
                } else {
                    assert(b[v].inc[j].idx != b[v].inc[top].idx);
                    assert(c[v].inc[j] == b[v].inc[j]);
                }
            } else {
                assert(b[w].inc[j].idx != b[v].inc[top].idx);
                assert(c[w].inc[j] == b[w].inc[j]);
            }
        }
    }
}

/// What the slot table and the blocks become when edge `id` is unlinked, half by
/// half: where the halves are, that every relocation names a live edge, and that
/// the two agree once the slot is forgotten.
pub proof fn lemma_unlink(b0: Seq<BlockView>, s0: Seq<EdgeSlot>, id: EdgeId)
    requires
        agree(b0, s0),
        super::index::live_in(s0, id),
    ensures
        ({
            let k = id@ as int;
            let (v, w) = (s0[k].src@ as int, s0[k].tgt@ as int);
            let p = s0[k].out_pos as int;
            let (m0, m1) = b0[v].moved_by_remove(p, End::Out);
            let sx = super::index::relocated(s0, m0);
            let s1 = super::index::relocated(sx, m1);
            let b1 = b0.update(v, b0[v].without_out(p));
            let q = s1[k].in_pos as int;
            let (n0, n1) = b1[w].moved_by_remove(q, End::In);
            let s2 = super::index::relocated(s1, n0);
            let b2 = b1.update(w, b1[w].without_in(q - b1[w].out.len()));
            let s3 = s2.update(k, EdgeSlot::dead());
            &&& v < b0.len() && w < b0.len()
            &&& super::index::located(s0, b0, id, End::Out) == Some((s0[k].src, s0[k].out_pos))
            &&& b0[v].holds(p, End::Out)
            &&& super::topology::spot(b0[v].out, id) == p
            &&& m0 matches Some(m) ==> super::index::live_in(s0, m.id)
            &&& m1 matches Some(m) ==> super::index::live_in(sx, m.id)
            &&& super::index::located(s1, b1, id, End::In) == Some((s0[k].tgt, s1[k].in_pos))
            &&& b1[w].holds(q, End::In)
            &&& super::topology::spot(b1[w].inc, id) == q - b1[w].out.len()
            &&& n0 matches Some(m) ==> super::index::live_in(s1, m.id)
            &&& n1 is None
            &&& super::index::live_in(s2, id)
            &&& agree(b2, s3)
            &&& s3.len() == s0.len()
            &&& super::index::ends_in(s3, id) is None
            &&& forall|e: EdgeId|
                e != id ==> #[trigger] super::index::ends_in(s3, e) == super::index::ends_in(s0, e)
        }),
{
    broadcast use crate::ids::id_is_its_index;
    reveal(agree);
    reveal(agree_but);

    let k = id@ as int;
    let (v, w) = (s0[k].src@ as int, s0[k].tgt@ as int);
    let p = s0[k].out_pos as int;
    let (m0, m1) = b0[v].moved_by_remove(p, End::Out);
    let sx = super::index::relocated(s0, m0);
    let s1 = super::index::relocated(sx, m1);
    let b1 = b0.update(v, b0[v].without_out(p));
    let q = s1[k].in_pos as int;
    let (n0, n1) = b1[w].moved_by_remove(q, End::In);
    let s2 = super::index::relocated(s1, n0);
    let b2 = b1.update(w, b1[w].without_in(q - b1[w].out.len()));
    assert(agree_but(b0, s0, id, true, true));
    assert(has_out(b0, s0[k], k));
    lemma_remove_out(b0, s0, id, true);
    lemma_out_spot(b0, s0, id);
    assert(b0[v].all()[p] == b0[v].out[p]);
    assert(agree_but(b1, s1, id, false, true));
    assert(s1[k].is_live() && s1[k].src == s0[k].src && s1[k].tgt == s0[k].tgt);
    assert(has_in(b1, s1[k], k));
    lemma_remove_in(b1, s1, id, false);
    lemma_in_spot(b1, s1, id, false);
    assert(b1[w].all()[q] == b1[w].inc[q - b1[w].out.len()]);
    lemma_forget(b2, s2, id);
}

/// The place of a live edge in its source's out-half is the recorded one.
pub proof fn lemma_out_spot(b: Seq<BlockView>, s: Seq<EdgeSlot>, id: EdgeId)
    requires
        agree_but(b, s, id, true, true),
        super::index::live_in(s, id),
    ensures
        super::topology::spot(b[s[id@ as int].src@ as int].out, id) == s[id@ as int].out_pos,
{
    broadcast use crate::ids::id_is_its_index;
    reveal(agree);
    reveal(agree_but);

    let v = s[id@ as int].src@ as int;
    let p = s[id@ as int].out_pos as int;
    assert(has_out(b, s[id@ as int], id@ as int));
    assert(b[v].out[p].idx == id);
    let q = super::topology::spot(b[v].out, id);
    assert(out_agrees(b, s, v, q, b[v].out[q]));
}

/// The place of an edge in its target's in-half is the recorded one.
pub proof fn lemma_in_spot(b: Seq<BlockView>, s: Seq<EdgeSlot>, id: EdgeId, o: bool)
    requires
        agree_but(b, s, id, o, true),
        super::index::live_in(s, id),
    ensures
        ({
            let tb = b[s[id@ as int].tgt@ as int];
            super::topology::spot(tb.inc, id) == s[id@ as int].in_pos - tb.out.len()
        }),
{
    broadcast use crate::ids::id_is_its_index;
    reveal(agree);
    reveal(agree_but);

    let v = s[id@ as int].tgt@ as int;
    let p = s[id@ as int].in_pos - b[v].out.len();
    assert(has_in(b, s[id@ as int], id@ as int));
    assert(b[v].inc[p].idx == id);
    let q = super::topology::spot(b[v].inc, id);
    assert(in_agrees(b, s, v, b[v].out.len() + q, b[v].inc[q]));
}

/// A slot whose edge has no entry left can be forgotten.
pub proof fn lemma_forget(b: Seq<BlockView>, s: Seq<EdgeSlot>, id: EdgeId)
    requires
        agree_but(b, s, id, false, false),
        id@ < s.len(),
    ensures
        agree(b, s.update(id@ as int, EdgeSlot::dead())),
{
    broadcast use crate::ids::id_is_its_index;
    reveal(agree);
    reveal(agree_but);

    let t = s.update(id@ as int, EdgeSlot::dead());
    assert forall|v: int, j: int| 0 <= v < b.len() && 0 <= j < b[v].out.len() implies
        out_agrees(b, t, v, j, #[trigger] b[v].out[j]) by {
        assert(b[v].out[j].idx@ != id@);
    }
    assert forall|v: int, j: int| 0 <= v < b.len() && 0 <= j < b[v].inc.len() implies
        in_agrees(b, t, v, b[v].out.len() + j, #[trigger] b[v].inc[j]) by {
        assert(b[v].inc[j].idx@ != id@);
    }
}

/// One block more, without entries, changes no agreement.
pub proof fn lemma_one_more(b: Seq<BlockView>, s: Seq<EdgeSlot>)
    requires
        agree(b, s),
    ensures
        agree(b.push(BlockView::empty()), s),
{
    reveal(agree);
    reveal(agree_but);
    let c = b.push(BlockView::empty());
    assert forall|v: int, j: int| 0 <= v < c.len() && 0 <= j < c[v].out.len() implies
        out_agrees(c, s, v, j, #[trigger] c[v].out[j]) by {
        assert(out_agrees(b, s, v, j, b[v].out[j]));
    }
    assert forall|v: int, j: int| 0 <= v < c.len() && 0 <= j < c[v].inc.len() implies
        in_agrees(c, s, v, c[v].out.len() + j, #[trigger] c[v].inc[j]) by {
        assert(in_agrees(b, s, v, b[v].out.len() + j, b[v].inc[j]));
    }
}

/// A table that is told of an edge in advance agrees with blocks that hold
/// neither of its halves.
pub proof fn lemma_preset(b: Seq<BlockView>, s: Seq<EdgeSlot>, id: EdgeId, slot: EdgeSlot)
    requires
        agree(b, s),
        !super::index::live_in(s, id),
        slot.is_live(),
        slot.src@ < b.len(),
        slot.tgt@ < b.len(),
    ensures
        agree_but(
            b,
            super::index::grown(s, id@).update(id@ as int, slot),
            id,
            false,
            false,
        ),
{
    reveal(agree);
    reveal(agree_but);
    let t = super::index::grown(s, id@).update(id@ as int, slot);
    assert forall|v: int, j: int| 0 <= v < b.len() && 0 <= j < b[v].out.len() implies
        out_agrees(b, t, v, j, #[trigger] b[v].out[j]) && b[v].out[j].idx
        != id by {
        assert(out_agrees(b, s, v, j, b[v].out[j]));
    }
    assert forall|v: int, j: int| 0 <= v < b.len() && 0 <= j < b[v].inc.len() implies
        in_agrees(
        b,
        t,
        v,
        b[v].out.len() + j,
        #[trigger] b[v].inc[j],
    ) && b[v].inc[j].idx != id by {
        assert(in_agrees(b, s, v, b[v].out.len() + j, b[v].inc[j]));
    }
}

/// One block less, when no edge touches it, changes no agreement.
pub proof fn lemma_one_less(b: Seq<BlockView>, s: Seq<EdgeSlot>)
    requires
        agree(b, s),
        b.len() > 0,
        forall|k: int|
            0 <= k < s.len() && (#[trigger] s[k]).is_live() ==> s[k].src@ != b.len() - 1
                && s[k].tgt@ != b.len() - 1,
    ensures
        agree(b.drop_last(), s),
{
    reveal(agree);
    let c = b.drop_last();
    assert forall|v: int, j: int| 0 <= v < c.len() && 0 <= j < c[v].out.len() implies out_agrees(
        c,
        s,
        v,
        j,
        #[trigger] c[v].out[j],
    ) by {
        assert(out_agrees(b, s, v, j, b[v].out[j]));
    }
    assert forall|v: int, j: int| 0 <= v < c.len() && 0 <= j < c[v].inc.len() implies in_agrees(
        c,
        s,
        v,
        c[v].out.len() + j,
        #[trigger] c[v].inc[j],
    ) by {
        assert(in_agrees(b, s, v, b[v].out.len() + j, b[v].inc[j]));
    }
}

/// The positions of every block fit the index width.
pub proof fn lemma_block_fits(b: Seq<BlockView>, s: Seq<EdgeSlot>, v: int)
    requires
        agree(b, s),
        0 <= v < b.len(),
    ensures
        b[v].out.len() <= Raw::MAX,
        b[v].len() <= Raw::MAX + 1,
{
    reveal(agree);
    if b[v].out.len() > 0 {
        let j = b[v].out.len() - 1;
        assert(out_agrees(b, s, v, j, b[v].out[j]));
    }
    if b[v].inc.len() > 0 {
        let j = b[v].inc.len() - 1;
        assert(in_agrees(b, s, v, b[v].out.len() + j, b[v].inc[j]));
    }
}

} // verus!
