//! Edge descriptors and what they say of an edge's ends.

use gt_core::adj::{AdjEntry, EdgeRef, Incident};
use gt_core::ids::{EdgeId, VertexId};

fn v(i: usize) -> VertexId {
    VertexId::from_index(i)
}
fn e(i: usize) -> EdgeId {
    EdgeId::from_index(i)
}

#[test]
fn a_descriptor_is_its_identity_and_its_ends() {
    let r = EdgeRef::new(e(4), v(1), v(2));
    assert_eq!((r.id(), r.source(), r.target()), (e(4), v(1), v(2)));
    assert_eq!(EdgeId::from(r), e(4));
    let i = Incident {
        other: v(3),
        edge: e(9),
    };
    assert_eq!(i.id(), e(9));
    assert_eq!(EdgeId::from(i), e(9));
}

#[test]
fn reversing_twice_changes_nothing() {
    let r = EdgeRef::new(e(4), v(1), v(2));
    let back = r.reversed();
    assert_eq!((back.id(), back.source(), back.target()), (e(4), v(2), v(1)));
    let again = back.reversed();
    assert_eq!((again.source(), again.target()), (v(1), v(2)));
}

#[test]
fn the_other_end_is_seen_only_from_an_end() {
    let r = EdgeRef::new(e(0), v(1), v(2));
    assert_eq!(r.opposite(v(1)), Some(v(2)));
    assert_eq!(r.opposite(v(2)), Some(v(1)));
    assert_eq!(r.opposite(v(3)), None);
    let loop_ = EdgeRef::new(e(1), v(5), v(5));
    assert_eq!(loop_.opposite(v(5)), Some(v(5)));

    let seen = r.anchored_at(v(2)).expect("an end");
    assert_eq!((seen.other, seen.edge), (v(1), e(0)));
    assert!(r.anchored_at(v(0)).is_none());
}

#[test]
fn entries_compare_by_both_parts() {
    let a = AdjEntry {
        other: v(1),
        idx: e(2),
    };
    assert_eq!(a, a.clone());
    assert_ne!(a, AdjEntry { other: v(1), idx: e(3) });
    assert_ne!(a, AdjEntry { other: v(0), idx: e(2) });
}
