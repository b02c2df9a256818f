//! Bounds and identifiers.

use gt_core::bound::{Bound, EdgeBound, VertexBound};
use gt_core::ids::{EdgeId, GraphId, VertexId, MAX_INDEX};

#[test]
fn a_bound_is_a_length_plus_the_identity_that_minted_it() {
    let g = GraphId::fresh();
    let b: VertexBound = Bound::new(g, 7);
    assert_eq!(b.len(), 7);
    assert!(!b.is_empty());
    assert_eq!(b.graph(), g);

    let empty: VertexBound = Bound::new(g, 0);
    assert!(empty.is_empty());
    assert_eq!(empty.len(), 0);
}

#[test]
fn two_graphs_of_equal_size_have_unequal_bounds() {
    let a = GraphId::fresh();
    let b = GraphId::fresh();
    assert_ne!(a, b);
    let ba: VertexBound = Bound::new(a, 10);
    let bb: VertexBound = Bound::new(b, 10);
    assert_eq!(ba.len(), bb.len());
    assert_ne!(ba, bb);
    assert_eq!(ba, Bound::new(a, 10));
    assert_ne!(ba, Bound::new(a, 11));
}

#[test]
fn the_two_index_spaces_are_separate_types_over_one_identity() {
    let g = GraphId::fresh();
    let v: VertexBound = Bound::new(g, 4);
    let e: EdgeBound = Bound::new(g, 9);
    assert_eq!(v.graph(), e.graph());
    assert_ne!(v.len(), e.len());
}

#[test]
fn debug_prints_both_numbers() {
    let g = GraphId::fresh();
    let v: VertexBound = Bound::new(g, 4);
    assert_eq!(
        format!("{v:?}"),
        format!("Bound<vertex>(graph #{}, 4)", g.get())
    );
    let e: EdgeBound = Bound::new(g, 4);
    assert_eq!(
        format!("{e:?}"),
        format!("Bound<edge>(graph #{}, 4)", g.get())
    );
}

/// A bound is passed by value and costs the two words it carries.
#[test]
fn a_bound_is_copied_as_two_words() {
    let g = GraphId::fresh();
    let b: VertexBound = Bound::new(g, 3);
    let c = b;
    assert_eq!(b, c);
    assert_eq!(size_of::<VertexBound>(), 2 * size_of::<usize>());
}

#[test]
fn an_identifier_is_its_index_up_to_the_largest() {
    assert_eq!(VertexId::new(MAX_INDEX).expect("in range").index(), MAX_INDEX);
    assert!(VertexId::new(MAX_INDEX + 1).is_none());
    assert!(EdgeId::new(usize::MAX).is_none());
    assert_eq!(EdgeId::from_index(7).raw(), 7);
    assert_eq!(VertexId::from_index(3).label(), "vertex#3");
    assert_eq!(format!("{:?}", VertexId::from_index(3)), "vertex#3");
    assert_eq!(format!("{:#?}", Some(EdgeId::from_index(9))), "Some(\n    edge#9,\n)");
}

#[test]
fn identities_are_distinct_and_not_zero() {
    let ids: Vec<GraphId> = (0..100).map(|_| GraphId::fresh()).collect();
    for (i, a) in ids.iter().enumerate() {
        assert_ne!(a.get(), 0);
        for b in &ids[..i] {
            assert_ne!(a, b);
        }
    }
}
