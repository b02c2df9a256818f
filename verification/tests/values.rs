//! The value universe: names, kinds, zeros, doubles.

use gt_core::bound::Bound;
use gt_core::ids::{GraphId, Id, VertexTag};
use gt_core::prop::{
    DenseProp, Double, GilFree, LongDouble, PropValue, ReadProp, Scalar, ToF64, ValueKind,
    WriteProp, Zeroed,
};

#[test]
fn every_name_parses_back_to_its_member() {
    for k in ValueKind::ALL {
        assert_eq!(ValueKind::from_name(k.name()), Some(k));
    }
    assert_eq!(ValueKind::ALL.len(), 15);
    assert_eq!(ValueKind::Bool.name(), "bool");
    assert_eq!(ValueKind::F64.name(), "double");
    assert_eq!(ValueKind::VecLongDouble.name(), "vector<long double>");
    assert_eq!(ValueKind::PyObject.name(), "python::object");
}

#[test]
fn names_are_exact() {
    for s in [
        "", "int", "float", "object", "Bool", "bool ", " bool", "vector<int>", "vector<bool",
        "int32", "stringy", "vector<vector<bool>>",
    ] {
        assert_eq!(ValueKind::from_name(s), None, "{s}");
    }
    assert_eq!(ValueKind::from_name("vector<string>"), Some(ValueKind::VecStr));
}

#[test]
fn the_groups_of_members() {
    let scalars: Vec<ValueKind> = ValueKind::ALL.into_iter().filter(|k| k.is_scalar()).collect();
    assert_eq!(
        scalars,
        vec![
            ValueKind::Bool,
            ValueKind::I16,
            ValueKind::I32,
            ValueKind::I64,
            ValueKind::F64
        ]
    );
    assert_eq!(ValueKind::ALL.into_iter().filter(|k| k.is_integer()).count(), 4);
    assert!(ValueKind::LongDouble.is_floating() && ValueKind::F64.is_floating());
    assert!(!ValueKind::I64.is_floating());
    assert_eq!(ValueKind::ALL.into_iter().filter(|k| k.is_vector()).count(), 7);
    assert_eq!(ValueKind::VecStr.elem(), Some(ValueKind::Str));
    assert_eq!(ValueKind::VecLongDouble.elem(), Some(ValueKind::LongDouble));
    assert_eq!(ValueKind::Str.elem(), None);
}

fn kinds<V: PropValue>() -> ValueKind
where
    V::Elem: PropValue,
{
    assert_eq!(
        V::KIND.elem().unwrap_or(V::KIND),
        <V::Elem as PropValue>::KIND
    );
    V::KIND
}

#[test]
fn every_type_is_its_member() {
    assert_eq!(kinds::<u8>(), ValueKind::Bool);
    assert_eq!(kinds::<i16>(), ValueKind::I16);
    assert_eq!(kinds::<i32>(), ValueKind::I32);
    assert_eq!(kinds::<i64>(), ValueKind::I64);
    assert_eq!(kinds::<Double>(), ValueKind::F64);
    assert_eq!(kinds::<LongDouble>(), ValueKind::LongDouble);
    assert_eq!(kinds::<String>(), ValueKind::Str);
    assert_eq!(kinds::<Vec<u8>>(), ValueKind::VecBool);
    assert_eq!(kinds::<Vec<i16>>(), ValueKind::VecI16);
    assert_eq!(kinds::<Vec<i32>>(), ValueKind::VecI32);
    assert_eq!(kinds::<Vec<i64>>(), ValueKind::VecI64);
    assert_eq!(kinds::<Vec<Double>>(), ValueKind::VecF64);
    assert_eq!(kinds::<Vec<LongDouble>>(), ValueKind::VecLongDouble);
    assert_eq!(kinds::<Vec<String>>(), ValueKind::VecStr);
}

fn crosses_threads<T: GilFree>() {}
fn is_scalar<T: Scalar>() {}

#[test]
fn zeros_are_zero() {
    assert_eq!(u8::zero(), 0);
    assert_eq!(i16::zero(), 0);
    assert_eq!(i32::zero(), 0);
    assert_eq!(i64::zero(), 0);
    assert_eq!(Double::zero().0, 0);
    assert_eq!(LongDouble::zero(), LongDouble([0; 16]));
    assert_eq!(LongDouble::default(), LongDouble([0; 16]));
    assert_eq!(String::zero(), "");
    assert_eq!(Vec::<i16>::zero(), Vec::<i16>::new());
    crosses_threads::<Vec<String>>();
    is_scalar::<Double>();
    is_scalar::<u8>();
}

#[test]
fn a_long_double_is_sixteen_bytes() {
    assert_eq!(size_of::<LongDouble>(), 16);
}

#[test]
fn doubles_compare_as_numbers() {
    let samples = [
        0.0f64,
        -0.0,
        1.0,
        -1.0,
        1.5,
        f64::MIN_POSITIVE,
        -f64::MIN_POSITIVE,
        5e-324,
        f64::MAX,
        f64::MIN,
        f64::INFINITY,
        f64::NEG_INFINITY,
        f64::NAN,
        -f64::NAN,
    ];
    for a in samples {
        for b in samples {
            let (x, y) = (Double(a.to_bits()), Double(b.to_bits()));
            assert_eq!(x == y, a == b, "{a} {b}");
            assert_eq!(x.partial_cmp(&y), a.partial_cmp(&b), "{a} {b}");
        }
    }
}

#[test]
fn scalars_widen_to_doubles() {
    assert_eq!(200u8.to_f64().0, 200.0f64.to_bits());
    assert_eq!((-3i16).to_f64().0, (-3.0f64).to_bits());
    assert_eq!(i32::MIN.to_f64().0, (i32::MIN as f64).to_bits());
    assert_eq!(i64::MAX.to_f64().0, (i64::MAX as f64).to_bits());
    assert_eq!(Double(77).to_f64().0, 77);
}

#[test]
fn a_long_double_survives_a_map_unchanged() {
    let g = GraphId::fresh();
    let bytes = LongDouble([9, 8, 7, 6, 5, 4, 3, 2, 1, 0, 1, 2, 3, 4, 5, 6]);
    let mut p: DenseProp<LongDouble, VertexTag> = DenseProp::new(g);
    p.sized_for(Bound::new(g, 2)).expect("same graph");
    p.put(Id::from_index(1), bytes);
    assert_eq!(p.get(Id::from_index(1)), bytes);
    assert_eq!(p.get(Id::from_index(0)), LongDouble::zero());
}
