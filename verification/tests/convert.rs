//! Conversion between members.

use gt_core::error::PropError;
use gt_core::prop::{
    convertible, needs_double_text, AnyValue, ConvertFrom, Double, FromAny, LongDouble, ToAny,
    ValueKind,
};

#[test]
fn convertible_is_reflexive_and_total() {
    for &k in &ValueKind::ALL {
        assert!(convertible(k, k), "{k:?} does not convert to itself");
    }
}

#[test]
fn long_double_is_isolated() {
    for &k in &ValueKind::ALL {
        let opaque = matches!(k, ValueKind::LongDouble | ValueKind::VecLongDouble);
        assert_eq!(
            convertible(ValueKind::LongDouble, k),
            opaque && k == ValueKind::LongDouble
        );
        assert_eq!(
            convertible(k, ValueKind::VecLongDouble),
            opaque && k == ValueKind::VecLongDouble
        );
    }
}

#[test]
fn the_two_groups_do_not_mix() {
    assert!(!convertible(ValueKind::VecI32, ValueKind::Str));
    assert!(!convertible(ValueKind::Str, ValueKind::VecStr));
    assert!(!convertible(ValueKind::F64, ValueKind::VecF64));
    assert!(!convertible(ValueKind::VecF64, ValueKind::I64));
}

#[test]
fn carrier_kind_is_the_normalised_member() {
    assert_eq!(1u8.to_any().kind(), ValueKind::I64);
    assert_eq!(vec![1i16].to_any().kind(), ValueKind::VecI64);
    assert_eq!(Double(1.0f64.to_bits()).to_any().kind(), ValueKind::F64);
}

#[test]
fn convert_from_names_the_true_pair() {
    let e = <Vec<String> as ConvertFrom<u8>>::convert_from(&7).unwrap_err();
    assert_eq!(
        e,
        PropError::NoConversion {
            from: ValueKind::Bool,
            to: ValueKind::VecStr
        }
    );
}

fn text(s: &str) -> String {
    s.to_string()
}

#[test]
fn the_diagonal_is_the_identity() {
    assert_eq!(u8::convert_from(&200u8), Ok(200));
    assert_eq!(i16::convert_from(&-7i16), Ok(-7));
    assert_eq!(i64::convert_from(&i64::MIN), Ok(i64::MIN));
    assert_eq!(String::convert_from(&text("x")), Ok(text("x")));
    let bytes = LongDouble([1, 2, 3, 4, 5, 6, 7, 8, 9, 10, 11, 12, 13, 14, 15, 16]);
    assert_eq!(LongDouble::convert_from(&bytes), Ok(bytes));
    assert_eq!(
        Vec::<LongDouble>::convert_from(&vec![bytes, bytes]),
        Ok(vec![bytes, bytes])
    );
    assert_eq!(Vec::<u8>::convert_from(&vec![1u8, 255]), Ok(vec![1, 255]));
    let nan = Double(f64::NAN.to_bits());
    assert_eq!(Double::convert_from(&nan).unwrap().0, nan.0);
}

#[test]
fn integers_narrow_by_wrapping() {
    assert_eq!(u8::convert_from(&300i64), Ok(44));
    assert_eq!(u8::convert_from(&-1i64), Ok(255));
    assert_eq!(i16::convert_from(&70_000i32), Ok(4464));
    assert_eq!(i16::convert_from(&32_768i32), Ok(-32_768));
    assert_eq!(i32::convert_from(&i64::MAX), Ok(-1));
    assert_eq!(i64::convert_from(&200u8), Ok(200));
    for i in [0i64, 1, -1, 255, 256, -256, 65_535, 65_536, 1 << 31, 1 << 32, i64::MIN, i64::MAX] {
        assert_eq!(u8::convert_from(&i), Ok(i as u8));
        assert_eq!(i16::convert_from(&i), Ok(i as i16));
        assert_eq!(i32::convert_from(&i), Ok(i as i32));
    }
}

#[test]
fn doubles_become_integers_by_truncating_and_saturating() {
    let samples = [
        0.0f64,
        -0.0,
        0.5,
        -0.5,
        0.999_999,
        1.0,
        1.5,
        -1.5,
        2.0,
        255.9,
        256.0,
        -129.7,
        32_767.9,
        32_768.0,
        1e9,
        -1e9,
        2_147_483_648.0,
        4_503_599_627_370_496.0,
        9_007_199_254_740_993.0,
        9.2e18,
        -9.2e18,
        9_223_372_036_854_775_807.0,
        -9_223_372_036_854_775_808.0,
        1e19,
        1e30,
        -1e30,
        1e308,
        5e-324,
        f64::INFINITY,
        f64::NEG_INFINITY,
        f64::NAN,
    ];
    for x in samples {
        let d = Double(x.to_bits());
        assert_eq!(u8::convert_from(&d), Ok(x as u8), "{x}");
        assert_eq!(i16::convert_from(&d), Ok(x as i16), "{x}");
        assert_eq!(i32::convert_from(&d), Ok(x as i32), "{x}");
        assert_eq!(i64::convert_from(&d), Ok(x as i64), "{x}");
    }
    assert_eq!(i16::convert_from(&Double(1e30f64.to_bits())), Ok(i16::MAX));
}

#[test]
fn integers_become_the_nearest_double() {
    let mut samples = vec![0i64, 1, -1, 2, 3, 7, 255, i64::MIN, i64::MAX, i64::MAX - 511];
    for shift in 0..62 {
        let p = 1i64 << shift;
        samples.extend([p, p + 1, p - 1, -p, -p - 1, p + (p >> 1), p + (p >> 1) + 1]);
    }
    for shift in 54..63 {
        let p = 1i64 << (shift - 1);
        let half = 1i64 << (shift - 54);
        samples.extend([p + half, p + half - 1, p + half + 1, p + 3 * half, -(p + half)]);
    }
    for i in samples {
        assert_eq!(
            Double::convert_from(&i).unwrap().0,
            (i as f64).to_bits(),
            "{i}"
        );
    }
    assert_eq!(Double::convert_from(&7u8).unwrap().0, 7.0f64.to_bits());
}

#[test]
fn integers_become_decimal_text() {
    assert_eq!(String::convert_from(&1u8), Ok(text("1")));
    assert_eq!(String::convert_from(&0i16), Ok(text("0")));
    assert_eq!(String::convert_from(&-305i32), Ok(text("-305")));
    assert_eq!(String::convert_from(&i64::MIN), Ok(text("-9223372036854775808")));
    assert_eq!(String::convert_from(&i64::MAX), Ok(text("9223372036854775807")));
}

#[test]
fn text_becomes_an_integer_strictly() {
    for s in [
        "0", "1", "-1", "+5", "-0", "007", "32767", "32768", "-32768", "-32769", "70000", "",
        "-", "+", " 1", "1 ", "1.5", "0x10", "1_000", "abc", "--1", "+-1", "2147483648",
        "9223372036854775807", "9223372036854775808", "-9223372036854775808",
        "-9223372036854775809", "99999999999999999999999999", "12a", "\u{0661}",
    ] {
        let t = text(s);
        let refused = |to| PropError::NoConversion {
            from: ValueKind::Str,
            to,
        };
        assert_eq!(
            i16::convert_from(&t),
            s.parse::<i16>().map_err(|_| refused(ValueKind::I16)),
            "{s}"
        );
        assert_eq!(
            i32::convert_from(&t),
            s.parse::<i32>().map_err(|_| refused(ValueKind::I32)),
            "{s}"
        );
        assert_eq!(
            i64::convert_from(&t),
            s.parse::<i64>().map_err(|_| refused(ValueKind::I64)),
            "{s}"
        );
        assert_eq!(
            u8::convert_from(&t),
            s.parse::<i32>()
                .map(|v| v as u8)
                .map_err(|_| refused(ValueKind::Bool)),
            "{s}"
        );
    }
    assert_eq!(u8::convert_from(&text("300")), Ok(44));
    assert!(u8::convert_from(&text("5000000000")).is_err());
}

#[test]
fn vectors_convert_elementwise_and_all_or_nothing() {
    assert_eq!(
        Vec::<i16>::convert_from(&vec![1i64, 70_000, -1]),
        Ok(vec![1, 4464, -1])
    );
    assert_eq!(
        Vec::<String>::convert_from(&vec![1u8, 20]),
        Ok(vec![text("1"), text("20")])
    );
    assert_eq!(
        Vec::<i32>::convert_from(&vec![text("4"), text("-5")]),
        Ok(vec![4, -5])
    );
    assert_eq!(
        Vec::<i32>::convert_from(&vec![text("4"), text("x"), text("5")]),
        Err(PropError::NoConversion {
            from: ValueKind::VecStr,
            to: ValueKind::VecI32
        })
    );
    assert_eq!(
        Vec::<u8>::convert_from(&vec![Double(2.9f64.to_bits()), Double((-3.0f64).to_bits())]),
        Ok(vec![2, 0])
    );
    let doubles = Vec::<Double>::convert_from(&vec![3i32, -4]).unwrap();
    assert_eq!(
        doubles.iter().map(|d| d.0).collect::<Vec<u64>>(),
        vec![3.0f64.to_bits(), (-4.0f64).to_bits()]
    );
    assert_eq!(Vec::<i64>::convert_from(&Vec::<String>::new()), Ok(vec![]));
    assert_eq!(Vec::<String>::convert_from(&vec![text("a")]), Ok(vec![text("a")]));
    assert_eq!(Vec::<i64>::convert_from(&vec![1u8]), Ok(vec![1]));
    assert_eq!(
        Vec::<Double>::convert_from(&vec![Double(9)]).unwrap()[0].0,
        9
    );
}

#[test]
fn a_direct_recovery_names_the_carrier() {
    assert_eq!(
        i16::from_any(&vec![1u8].to_any()),
        Err(PropError::NoConversion {
            from: ValueKind::VecI64,
            to: ValueKind::I16
        })
    );
    assert_eq!(
        LongDouble::from_any(&AnyValue::Int(3)),
        Err(PropError::NoConversion {
            from: ValueKind::I64,
            to: ValueKind::LongDouble
        })
    );
    assert_eq!(
        Vec::<LongDouble>::from_any(&AnyValue::FloatVec(vec![])),
        Err(PropError::NoConversion {
            from: ValueKind::VecF64,
            to: ValueKind::VecLongDouble
        })
    );
    assert_eq!(i32::from_same(&4), 4);
    assert_eq!(Vec::<String>::from_same(&vec![text("q")]), vec![text("q")]);
}

#[test]
fn only_the_text_of_a_double_is_left_to_the_caller() {
    let mut pairs = Vec::new();
    for a in ValueKind::ALL {
        for b in ValueKind::ALL {
            if needs_double_text(a, b) {
                assert!(convertible(a, b));
                pairs.push((a, b));
            }
        }
    }
    assert_eq!(
        pairs,
        vec![
            (ValueKind::F64, ValueKind::Str),
            (ValueKind::Str, ValueKind::F64),
            (ValueKind::VecF64, ValueKind::VecStr),
            (ValueKind::VecStr, ValueKind::VecF64),
        ]
    );
}

#[test]
fn the_lattice_is_symmetric() {
    for a in ValueKind::ALL {
        for b in ValueKind::ALL {
            assert_eq!(convertible(a, b), convertible(b, a));
        }
    }
    assert!(convertible(ValueKind::PyObject, ValueKind::VecI16));
    assert!(convertible(ValueKind::Str, ValueKind::PyObject));
}

#[test]
fn an_integer_survives_its_text_and_a_small_one_its_double() {
    for i in [0i64, 1, -1, 10, -10, 999, i64::MIN, i64::MAX, 1 << 53, -(1 << 53)] {
        let t = String::convert_from(&i).expect("an integer has a text");
        assert_eq!(i64::convert_from(&t), Ok(i));
        if i.unsigned_abs() <= 1 << 53 {
            let d = Double::convert_from(&i).expect("an integer has a double");
            assert_eq!(i64::convert_from(&d), Ok(i));
        }
    }
    for b in 0..=255u8 {
        let t = String::convert_from(&b).expect("a byte has a text");
        assert_eq!(u8::convert_from(&t), Ok(b));
        assert_eq!(i16::convert_from(&b), Ok(b as i16));
    }
}
