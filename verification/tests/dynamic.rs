//! Erased maps, the dispatch boundary and the identity map.

use gt_core::bound::Bound;
use gt_core::error::PropError;
use gt_core::ids::{EdgeTag, GraphId, Id, IdTag, VertexId, VertexTag, MAX_INDEX};
use gt_core::prop::{
    AnyMap, Constant, DenseProp, Double, DynWrap, IndexProp, KindVisitor, PropValue,
    ReadOnlyAdaptor, ReadProp, ReadWriteAdaptor, Refusing, Scalar, ScalarKernel, ScalarV, Unity,
    ValueKind, WriteOnlyAdaptor, WriteProp,
};

fn v(i: usize) -> VertexId {
    VertexId::new(i).expect("small index")
}

#[test]
fn adaptors_are_transparent() {
    assert_eq!(
        size_of::<ReadWriteAdaptor<DenseProp<i64, VertexTag>>>(),
        size_of::<DenseProp<i64, VertexTag>>()
    );
    assert_eq!(size_of::<ReadOnlyAdaptor<Unity<i64, VertexTag>>>(), 0);
    assert_eq!(size_of::<Refusing<i64>>(), 0);
}

#[test]
fn unity_erases_read_only() {
    let mut w: DynWrap<VertexTag, String> =
        DynWrap::wrap_read_only(Unity::<i64, VertexTag>::new());
    assert_eq!(w.underlying(), ValueKind::I64);
    assert_eq!(w.get(v(3)).unwrap(), "1");
    assert_eq!(w.put(v(3), "5".to_owned()), Err(PropError::NotWritable));
}

#[test]
fn constant_erases_read_only() {
    let w: DynWrap<VertexTag, Double> =
        DynWrap::wrap_read_only(Constant::<i64, VertexTag>::new(7));
    assert_eq!(f64::from_bits(w.get(v(0)).unwrap().0), 7.0);
}

#[test]
fn refusing_refuses_both_directions() {
    let mut w: DynWrap<VertexTag, i64> = DynWrap::new(Box::new(Refusing::<i64>::new()));
    assert_eq!(w.get(v(0)), Err(PropError::NotReadable));
    assert_eq!(w.put(v(0), 1), Err(PropError::NotWritable));
    assert_eq!(w.underlying(), ValueKind::I64);
}

#[test]
fn debug_names_the_underlying_member() {
    let g = GraphId::fresh();
    let w: DynWrap<VertexTag, i64> =
        DynWrap::wrap(DenseProp::<String, VertexTag>::from_vec(g, vec![]));
    let s = format!("{w:?}");
    assert!(s.contains("vertex"), "{s}");
    assert!(s.contains("Str"), "{s}");
    assert_eq!(s, "DynWrap { key: \"vertex\", underlying: Str }");
    assert_eq!(s, w.label());
    assert_eq!(
        format!("{w:#?}"),
        "DynWrap {\n    key: \"vertex\",\n    underlying: Str,\n}"
    );
    assert_eq!(format!("{:?}", Refusing::<i64>::new()), "Refusing");
}

#[test]
fn an_erased_map_converts_on_the_way_in_and_out() {
    let g = GraphId::fresh();
    let mut w: DynWrap<VertexTag, String> =
        DynWrap::wrap(DenseProp::<i16, VertexTag>::from_vec(g, vec![5, 6]));
    assert_eq!(w.get(v(1)), Ok("6".to_string()));
    assert_eq!(w.put(v(1), "-7".to_string()), Ok(()));
    assert_eq!(w.get(v(1)), Ok("-7".to_string()));
    assert_eq!(w.get(v(0)), Ok("5".to_string()));
    let refused = w.put(v(1), "seven".to_string());
    assert_eq!(
        refused,
        Err(PropError::NoConversion {
            from: ValueKind::Str,
            to: ValueKind::I16
        })
    );
    assert_eq!(w.get(v(1)), Ok("-7".to_string()));
    assert_eq!(w.underlying(), ValueKind::I16);
}

#[test]
fn a_write_only_map_refuses_reads() {
    let g = GraphId::fresh();
    let mut w: DynWrap<VertexTag, i64> =
        DynWrap::wrap_write_only(DenseProp::<u8, VertexTag>::from_vec(g, vec![0]));
    assert_eq!(w.get(v(0)), Err(PropError::NotReadable));
    assert_eq!(w.put(v(0), 300), Ok(()));
    assert_eq!(w.underlying(), ValueKind::Bool);
}

#[test]
fn adaptors_give_the_map_back() {
    let g = GraphId::fresh();
    let map = DenseProp::<u8, VertexTag>::from_vec(g, vec![1, 2, 3]);
    let a = WriteOnlyAdaptor::new(map);
    assert_eq!(a.inner().len(), 3);
    let b = ReadOnlyAdaptor::new(a.into_inner());
    let c = ReadWriteAdaptor::new(b.into_inner());
    assert_eq!(c.inner().as_slice(), &[1, 2, 3]);
}

#[test]
fn the_identity_map_reads_back_the_index() {
    let g = GraphId::fresh();
    let p: IndexProp<VertexTag> = IndexProp::new(Bound::new(g, 16));
    for i in [0usize, 1, 2, 15, 4096, MAX_INDEX] {
        let k = Id::<VertexTag>::from_index(i);
        assert_eq!(*p.get_ref(k), i as i64);
        assert_eq!(p.get(k), k.index() as i64);
    }
}

#[test]
fn a_read_outside_the_bound_is_still_the_index() {
    let g = GraphId::fresh();
    let p: IndexProp<VertexTag> = IndexProp::new(Bound::new(g, 2));
    assert_eq!(*p.get_ref(Id::<VertexTag>::from_index(99)), 99);
    assert_eq!(p.bound(), Bound::new(g, 2));
    assert_eq!(p.bound().graph(), g);
}

#[test]
fn the_index_map_carries_nothing_but_its_bound() {
    assert_eq!(
        size_of::<IndexProp<VertexTag>>(),
        size_of::<Bound<VertexTag>>()
    );
    assert_eq!(
        [
            <IndexProp<VertexTag> as ReadProp<VertexTag>>::IS_UNITY,
            <IndexProp<VertexTag> as ReadProp<VertexTag>>::IS_CONSTANT,
        ],
        [false; 2]
    );
}

#[test]
fn both_index_spaces_have_their_own_map() {
    let g = GraphId::fresh();
    let v: IndexProp<VertexTag> = IndexProp::new(Bound::new(g, 4));
    let e: IndexProp<EdgeTag> = IndexProp::new(Bound::new(g, 9));
    assert_eq!(*v.get_ref(Id::<VertexTag>::from_index(3)), 3);
    assert_eq!(*e.get_ref(Id::<EdgeTag>::from_index(3)), 3);
}

/// Writes a zeroth slot and reports the member it ran at.
struct Clear;

impl<K: IdTag> ScalarKernel<K> for Clear {
    type Out = (ValueKind, usize);
    fn call<V: Scalar>(self, map: &mut DenseProp<V, K>) -> Self::Out {
        let last = map.as_slice()[map.len() - 1];
        map.put(Id::from_index(0), last);
        (V::KIND, map.len())
    }
}

#[test]
fn a_kernel_runs_at_the_member_of_its_map() {
    let g = GraphId::fresh();
    let mut shorts = DenseProp::<i16, VertexTag>::from_vec(g, vec![1, 2, 3]);
    {
        let mut any = AnyMap::new(&mut shorts);
        assert_eq!(any.kind(), ValueKind::I16);
        let member = ScalarV::narrow(any.kind()).expect("a scalar");
        assert_eq!(member, ScalarV::I16);
        assert_eq!(member.dispatch(&mut any, Clear), (ValueKind::I16, 3));
    }
    assert_eq!(shorts.as_slice(), &[3, 2, 3]);

    let mut doubles = DenseProp::<Double, VertexTag>::from_vec(g, vec![Double(1), Double(2)]);
    {
        let mut any = AnyMap::new(&mut doubles);
        let member = ScalarV::narrow(any.kind()).expect("a scalar");
        assert_eq!(member.dispatch(&mut any, Clear), (ValueKind::F64, 2));
    }
    assert_eq!(doubles.as_slice()[0].0, 2);
}

#[test]
fn narrowing_refuses_what_the_subset_does_not_list() {
    let e = ScalarV::narrow(ValueKind::Str).unwrap_err();
    assert_eq!(e.axis, "value");
    assert_eq!(e.offered, ValueKind::Str);
    assert_eq!(
        e.accepted,
        &[
            ValueKind::Bool,
            ValueKind::I16,
            ValueKind::I32,
            ValueKind::I64,
            ValueKind::F64
        ]
    );
    for k in ValueKind::ALL {
        assert_eq!(ScalarV::narrow(k).is_ok(), k.is_scalar());
    }
}

#[test]
fn a_map_is_recovered_only_as_its_own_member() {
    let g = GraphId::fresh();
    let mut texts = DenseProp::<String, VertexTag>::from_vec(g, vec!["a".to_string()]);
    {
        let mut any = AnyMap::new(&mut texts);
        assert_eq!(any.kind(), ValueKind::Str);
        assert!(any.downcast::<i64>().is_none());
        assert!(any.downcast::<Vec<String>>().is_none());
        let map = any.downcast::<String>().expect("its own member");
        map.put(Id::from_index(0), "b".to_string());
        assert_eq!(any.downcast::<String>().expect("again").len(), 1);
    }
    assert_eq!(texts.as_slice(), &["b".to_string()]);
}

struct Name;

impl KindVisitor for Name {
    type Out = &'static str;
    fn visit<V: PropValue>(self) -> &'static str {
        V::KIND.name()
    }
}

#[test]
fn a_visitor_runs_at_any_member() {
    assert_eq!(Name.visit::<Vec<i32>>(), "vector<int32_t>");
    assert_eq!(Name.visit::<u8>(), "bool");
}
