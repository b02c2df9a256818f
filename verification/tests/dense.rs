//! Vector-backed maps, their views, and the constant maps.

use gt_core::bound::Bound;
use gt_core::error::PropError;
use gt_core::ids::{EdgeTag, GraphId, Id, VertexTag};
use gt_core::prop::{
    ConstI64, Constant, DenseProp, EdgeProp, LvalueProp, One, PropSlice, PropSliceMut, ReadProp,
    Unity, VertexProp, WriteProp,
};

fn two_graphs() -> (GraphId, GraphId) {
    (GraphId::fresh(), GraphId::fresh())
}

#[test]
fn sized_for_grows_to_exactly_the_bound_and_is_idempotent() {
    let g = GraphId::fresh();
    let mut p: VertexProp<i64> = DenseProp::new(g);
    assert_eq!(p.len(), 0);

    {
        let v = p.sized_for(Bound::new(g, 5)).expect("same graph");
        assert_eq!(v.len(), 5);
        assert_eq!(v.as_slice(), &[0i64; 5]);
    }
    assert_eq!(p.len(), 5);

    p.as_mut_slice()[2] = 42;
    let v = p.sized_for(Bound::new(g, 5)).expect("same graph");
    assert_eq!(v.len(), 5);
    assert_eq!(v.as_slice()[2], 42);
    assert_eq!(p.len(), 5);
}

#[test]
fn sized_for_never_shrinks_and_still_hands_back_exactly_the_bound() {
    let g = GraphId::fresh();
    let mut p: VertexProp<i64> = DenseProp::from_vec(g, vec![1, 2, 3, 4, 5, 6, 7]);

    {
        let v = p.sized_for(Bound::new(g, 3)).expect("same graph");
        assert_eq!(v.len(), 3);
        assert_eq!(v.as_slice(), &[1, 2, 3]);
    }
    assert_eq!(p.len(), 7);
    assert_eq!(p.as_slice(), &[1, 2, 3, 4, 5, 6, 7]);

    assert_eq!(p.sized_for(Bound::new(g, 0)).expect("same graph").len(), 0);
    assert_eq!(p.len(), 7);
}

#[test]
fn sized_for_refuses_another_graphs_bound() {
    let (a, b) = two_graphs();
    let mut p: VertexProp<i64> = DenseProp::from_vec(a, vec![0; 4]);

    let err = p.sized_for(Bound::new(b, 4)).unwrap_err();
    assert_eq!(
        err,
        PropError::WrongGraph {
            owner: a.get(),
            expected: b.get(),
        }
    );
    assert_eq!(p.len(), 4);
    assert!(p.sized_for(Bound::new(b, 9)).is_err());
    assert_eq!(p.len(), 4);
}

#[test]
fn the_two_index_spaces_do_not_mix() {
    let g = GraphId::fresh();
    let mut e: EdgeProp<i64> = DenseProp::new(g);
    assert_eq!(e.sized_for(Bound::new(g, 6)).expect("same graph").len(), 6);
}

#[test]
fn sized_for_with_fills_new_slots_and_leaves_existing_ones() {
    let g = GraphId::fresh();
    let mut p: VertexProp<i64> = DenseProp::from_vec(g, vec![10, 11]);

    let mut next = 100;
    {
        let v = p
            .sized_for_with(Bound::new(g, 5), || {
                next += 1;
                next
            })
            .expect("same graph");
        assert_eq!(v.as_slice(), &[10, 11, 101, 102, 103]);
    }

    let mut calls = 0;
    let v = p
        .sized_for_with(Bound::new(g, 5), || {
            calls += 1;
            0
        })
        .expect("same graph");
    assert_eq!(v.len(), 5);
    assert_eq!(calls, 0);
}

#[test]
fn sized_for_with_accepts_a_closure_over_borrowed_context() {
    let g = GraphId::fresh();
    let token = String::from("py");
    let mut p: VertexProp<String> = DenseProp::new(g);
    let v = p
        .sized_for_with(Bound::new(g, 3), || token.clone())
        .expect("same graph");
    assert_eq!(v.as_slice(), &["py", "py", "py"]);
}

#[test]
fn sized_for_is_sized_for_with_over_zero() {
    let g = GraphId::fresh();
    let mut a: VertexProp<i64> = DenseProp::new(g);
    let mut b: VertexProp<i64> = DenseProp::new(g);
    let left = a.sized_for(Bound::new(g, 4)).expect("same graph");
    let right = b
        .sized_for_with(Bound::new(g, 4), i64::default)
        .expect("same graph");
    assert_eq!(left.as_slice(), right.as_slice());
}

#[test]
fn view_on_an_undersized_map_is_an_error_not_a_short_slice() {
    let g = GraphId::fresh();
    let p: VertexProp<i64> = DenseProp::from_vec(g, vec![7, 8, 9]);

    let err = p.view(Bound::new(g, 5)).unwrap_err();
    assert_eq!(err, PropError::Undersized { have: 3, need: 5 });

    assert_eq!(p.view(Bound::new(g, 3)).expect("exact").len(), 3);
    assert_eq!(p.view(Bound::new(g, 2)).expect("longer").len(), 2);
    assert_eq!(
        p.view(Bound::new(g, 2)).expect("longer").as_slice(),
        &[7, 8]
    );
}

#[test]
fn view_refuses_another_graphs_bound_before_it_compares_lengths() {
    let (a, b) = two_graphs();
    let p: VertexProp<i64> = DenseProp::from_vec(a, vec![0; 2]);
    assert_eq!(
        p.view(Bound::new(b, 9)).unwrap_err(),
        PropError::WrongGraph {
            owner: a.get(),
            expected: b.get(),
        }
    );
}

#[test]
fn an_empty_map_satisfies_an_empty_bound() {
    let g = GraphId::fresh();
    let p: VertexProp<i64> = DenseProp::new(g);
    let v = p.view(Bound::new(g, 0)).expect("0 <= 0");
    assert!(v.is_empty());
    assert!(p.is_empty());
}

#[test]
fn sizing_first_makes_the_read_only_view_succeed() {
    let g = GraphId::fresh();
    let bound = Bound::new(g, 6);
    let mut p: VertexProp<i64> = DenseProp::new(g);
    assert!(p.view(bound).is_err());
    assert_eq!(p.sized_for(bound).expect("same graph").len(), 6);
    assert_eq!(p.view(bound).expect("now sized").len(), 6);
}

#[test]
fn writes_through_the_view_reach_the_store() {
    let g = GraphId::fresh();
    let mut p: VertexProp<i64> = DenseProp::new(g);
    {
        let mut v = p.sized_for(Bound::new(g, 4)).expect("same graph");
        v.put(Id::from_index(1), 11);
        *v.at_mut(Id::from_index(3)) += 30;
        assert_eq!(v.as_shared().as_slice(), &[0, 11, 0, 30]);
        let mut r = v.reborrow();
        r.as_mut_slice()[0] = 5;
    }
    assert_eq!(p.as_slice(), &[5, 11, 0, 30]);
    assert_eq!(*p.get_ref(Id::from_index(1)), 11);
}

#[test]
fn soft_reserve_grows_capacity_geometrically_and_never_the_length() {
    let g = GraphId::fresh();
    let mut p: VertexProp<i64> = DenseProp::from_vec(g, vec![0; 8]);

    p.soft_reserve(9);
    assert!(p.as_slice().len() == 8, "soft_reserve must not resize");
    assert!(
        p.capacity() >= 16,
        "capacity {} is below the geometric step",
        p.capacity()
    );

    p.soft_reserve(100);
    assert!(p.capacity() >= 100);
    assert_eq!(p.len(), 8);

    let before = p.capacity();
    p.soft_reserve(8);
    p.soft_reserve(0);
    assert_eq!(p.capacity(), before);
    assert_eq!(p.len(), 8);
}

#[test]
fn soft_reserve_does_not_overflow_on_an_absurd_request() {
    let g = GraphId::fresh();
    let mut p: VertexProp<i64> = DenseProp::new(g);
    p.soft_reserve(0);
    assert_eq!(p.len(), 0);

    let mut q: VertexProp<u8> = DenseProp::from_vec(g, vec![0; 4]);
    q.soft_reserve(4);
    assert_eq!(q.len(), 4);
}

#[test]
fn a_reservation_is_the_request_or_twice_the_length() {
    let g = GraphId::fresh();
    let p: VertexProp<i64> = DenseProp::from_vec(g, vec![0; 8]);
    assert_eq!(p.reservation(0), None);
    assert_eq!(p.reservation(8), None);
    assert_eq!(p.reservation(9), Some(16));
    assert_eq!(p.reservation(16), Some(16));
    assert_eq!(p.reservation(17), Some(17));
    assert_eq!(p.reservation(usize::MAX), Some(usize::MAX));

    let empty: VertexProp<i64> = DenseProp::new(g);
    assert_eq!(empty.reservation(0), None);
    assert_eq!(empty.reservation(1), Some(1));
}

/// A float with a multiplicative identity.
#[derive(Clone, Copy, PartialEq, Debug)]
struct Float(f64);

impl One for Float {
    const ONE: Float = Float(1.0);
}

#[test]
fn unity_is_a_true_zero_sized_type() {
    assert_eq!(size_of::<Unity<Float, VertexTag>>(), 0);
    assert_eq!(size_of::<Unity<i64, EdgeTag>>(), 0);
    assert_eq!(size_of::<ConstI64<3, VertexTag>>(), 0);

    let u: Unity<Float, VertexTag> = Unity::new();
    assert_eq!((*u.get_ref(Id::from_index(9))).0, 1.0);
    assert_eq!(
        (
            <Unity<Float, VertexTag> as ReadProp<VertexTag>>::IS_UNITY,
            <Unity<Float, VertexTag> as ReadProp<VertexTag>>::IS_CONSTANT,
        ),
        (true, true)
    );
    assert_eq!(format!("{u:?}"), "Unity<vertex>");
    assert_eq!(u.label(), "Unity<vertex>");
    let i: Unity<i32, EdgeTag> = Unity::default();
    assert_eq!(i.get(Id::from_index(3)), 1i32);
}

#[test]
fn constants_field_is_public_and_the_unity_fast_path_is_value_directed() {
    let c: Constant<f64, VertexTag> = Constant::new(2.5);
    assert_eq!(c.c, 2.5);
    assert_eq!(*c.get_ref(Id::from_index(0)), 2.5);
    assert_eq!(
        (
            <Constant<f64, VertexTag> as ReadProp<VertexTag>>::IS_CONSTANT,
            <Constant<f64, VertexTag> as ReadProp<VertexTag>>::IS_UNITY,
        ),
        (true, false)
    );

    assert_eq!(
        (
            <ConstI64<1, VertexTag> as ReadProp<VertexTag>>::IS_UNITY,
            <ConstI64<2, VertexTag> as ReadProp<VertexTag>>::IS_UNITY,
        ),
        (true, false)
    );
    assert_eq!(
        *ConstI64::<7, VertexTag>::default().get_ref(Id::from_index(3)),
        7
    );
}

#[test]
fn a_dense_map_claims_neither_fast_path() {
    assert_eq!(
        [
            <VertexProp<f64> as ReadProp<VertexTag>>::IS_UNITY,
            <VertexProp<f64> as ReadProp<VertexTag>>::IS_CONSTANT,
            <PropSlice<'_, f64, VertexTag> as ReadProp<VertexTag>>::IS_UNITY,
            <PropSliceMut<'_, f64, VertexTag> as ReadProp<VertexTag>>::IS_CONSTANT,
        ],
        [false; 4]
    );
}

/// A typed constant carries two's-complement bits, so it can be negative.
#[test]
fn a_typed_constant_can_be_negative() {
    const MINUS_TWO: u64 = u64::MAX - 1;
    let c: ConstI64<MINUS_TWO, VertexTag> = ConstI64::new();
    assert_eq!(c.get(Id::from_index(0)), -2);
    assert_eq!(format!("{c:?}"), "ConstI64<-2, vertex>");
    assert_eq!(ConstI64::<7, EdgeTag>::new().label(), "ConstI64<7, edge>");
}

/// One operation of the sequence the next test replays.
enum Op {
    SizedFor(usize),
    SizedWith(usize, i64),
    View(usize),
    SoftReserve(usize),
    Put(usize, i64),
    Foreign(usize),
}

#[test]
fn a_sequence_of_operations_agrees_with_a_naive_model() {
    let mut state: u64 = 0x9e37_79b9_7f4a_7c15;
    let mut draw = |n: u64| {
        state = state
            .wrapping_mul(6_364_136_223_846_793_005)
            .wrapping_add(1_442_695_040_888_963_407);
        (state >> 33) % n
    };
    for _ in 0..64 {
        let g = GraphId::fresh();
        let other = GraphId::fresh();
        let mut p: VertexProp<i64> = DenseProp::new(g);
        let mut model: Vec<i64> = Vec::new();
        for _ in 0..40 {
            let before = model.len();
            let op = match draw(6) {
                0 => Op::SizedFor(draw(24) as usize),
                1 => Op::SizedWith(draw(24) as usize, draw(18) as i64 - 9),
                2 => Op::View(draw(24) as usize),
                3 => Op::SoftReserve(draw(48) as usize),
                4 => Op::Put(draw(24) as usize, draw(18) as i64 - 9),
                _ => Op::Foreign(draw(24) as usize),
            };
            match op {
                Op::SizedFor(n) => {
                    let v = p.sized_for(Bound::new(g, n)).expect("same graph");
                    assert_eq!(v.len(), n);
                    if model.len() < n {
                        model.resize(n, 0);
                    }
                }
                Op::SizedWith(n, fill) => {
                    let v = p
                        .sized_for_with(Bound::new(g, n), || fill)
                        .expect("same graph");
                    assert_eq!(v.len(), n);
                    if model.len() < n {
                        model.resize(n, fill);
                    }
                }
                Op::View(n) => match p.view(Bound::new(g, n)) {
                    Ok(v) => {
                        assert!(model.len() >= n);
                        assert_eq!(v.len(), n);
                        assert_eq!(v.as_slice(), &model[..n]);
                    }
                    Err(e) => {
                        assert!(model.len() < n);
                        assert_eq!(
                            e,
                            PropError::Undersized {
                                have: model.len(),
                                need: n,
                            }
                        );
                    }
                },
                Op::SoftReserve(n) => {
                    p.soft_reserve(n);
                }
                Op::Put(i, v) => {
                    if i < model.len() {
                        p.put(Id::from_index(i), v);
                        model[i] = v;
                    }
                }
                Op::Foreign(n) => {
                    assert_eq!(
                        p.sized_for(Bound::new(other, n)).unwrap_err(),
                        PropError::WrongGraph {
                            owner: g.get(),
                            expected: other.get(),
                        }
                    );
                    assert!(p.view(Bound::new(other, n)).is_err());
                }
            }
            assert_eq!(p.as_slice(), model.as_slice());
            assert!(p.len() >= before);
        }
    }
}

#[test]
fn a_clone_has_its_own_store() {
    let g = GraphId::fresh();
    let p: VertexProp<i64> = DenseProp::from_vec(g, vec![1, 2]);
    let mut q = p.clone();
    q.put(Id::from_index(0), 9);
    *q.at_mut(Id::from_index(1)) = 8;
    assert_eq!(p.as_slice(), &[1, 2]);
    assert_eq!(q.as_slice(), &[9, 8]);
    assert_eq!(q.graph(), g);
}
