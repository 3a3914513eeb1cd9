use ares::error::AresError;
use ares::eval::procedure::Procedure;
use ares::heap::Heap;
use ares::stdlib::types::{to_bool, to_float, to_int, to_string};
use ares::text::parse_int;
use ares::value::{Env, Float, ForeignFn, ListRef, Value};

fn float(f: f64) -> Value {
    Value::Float(Float { bits: f.to_bits() })
}

fn text(s: &str) -> Value {
    Value::String(s.to_string())
}

fn int_of(r: Result<Value, AresError>) -> i64 {
    match r {
        Ok(Value::Int(i)) => i,
        other => panic!("expected an integer, got {:?}", other),
    }
}

fn bool_of(r: Result<Value, AresError>) -> bool {
    match r {
        Ok(Value::Bool(b)) => b,
        other => panic!("expected a boolean, got {:?}", other),
    }
}

fn bits_of(r: Result<Value, AresError>) -> u64 {
    match r {
        Ok(Value::Float(f)) => f.bits,
        other => panic!("expected a float, got {:?}", other),
    }
}

fn is_arity(r: Result<Value, AresError>, count: usize) -> bool {
    match r {
        Err(AresError::UnexpectedArity { found, expected }) => {
            found == count && expected == "exactly 1"
        }
        _ => false,
    }
}

fn is_illegal(r: Result<Value, AresError>, target: &str) -> bool {
    match r {
        Err(AresError::IllegalConversion { into, .. }) => into == target,
        _ => false,
    }
}

fn lambda() -> Value {
    Value::Lambda(Procedure::new(None, ListRef { index: 0 }, vec![], Env { index: 0 }))
}

fn foreign() -> Value {
    Value::ForeignFn(ForeignFn { name: "car".to_string(), slot: 0 })
}

fn samples() -> Vec<f64> {
    vec![
        0.0,
        -0.0,
        0.5,
        -0.5,
        0.999999,
        1.0,
        -1.0,
        1.5,
        -1.5,
        2.75,
        1e10,
        -1e10,
        123456789.987654321,
        4503599627370496.0,
        4503599627370497.0,
        9007199254740992.0,
        9007199254740993.0,
        9223372036854774784.0,
        9223372036854775807.0,
        9223372036854775808.0,
        -9223372036854775808.0,
        -9223372036854777856.0,
        1e19,
        -1e19,
        1e300,
        -1e300,
        5e-324,
        -5e-324,
        2.2250738585072014e-308,
        f64::MAX,
        f64::MIN,
        f64::INFINITY,
        f64::NEG_INFINITY,
        f64::NAN,
    ]
}

#[test]
fn to_int_of_bool_is_one_or_zero() {
    assert_eq!(int_of(to_int(&vec![Value::Bool(true)])), 1);
    assert_eq!(int_of(to_int(&vec![Value::Bool(false)])), 0);
}

#[test]
fn to_int_keeps_an_integer() {
    for i in [0, 1, -1, 42, i64::MAX, i64::MIN] {
        assert_eq!(int_of(to_int(&vec![Value::Int(i)])), i);
    }
}

#[test]
fn to_int_cuts_a_float_toward_zero() {
    assert_eq!(int_of(to_int(&vec![float(2.75)])), 2);
    assert_eq!(int_of(to_int(&vec![float(-2.75)])), -2);
    assert_eq!(int_of(to_int(&vec![float(0.999)])), 0);
    assert_eq!(int_of(to_int(&vec![float(f64::NAN)])), 0);
    assert_eq!(int_of(to_int(&vec![float(f64::INFINITY)])), i64::MAX);
    assert_eq!(int_of(to_int(&vec![float(f64::NEG_INFINITY)])), i64::MIN);
    assert_eq!(int_of(to_int(&vec![float(1e300)])), i64::MAX);
    assert_eq!(int_of(to_int(&vec![float(-1e300)])), i64::MIN);
}

#[test]
fn to_int_of_float_agrees_with_the_machine() {
    for f in samples() {
        assert_eq!(int_of(to_int(&vec![float(f)])), f as i64, "for {}", f);
    }
    let mut state: u64 = 0x9e3779b97f4a7c15;
    for _ in 0..20000 {
        state = state.wrapping_mul(6364136223846793005).wrapping_add(1442695040888963407);
        let f = f64::from_bits(state);
        assert_eq!(Float { bits: state }.truncate(), f as i64, "for bits {:#x}", state);
    }
}

#[test]
fn to_int_reads_decimal_text() {
    assert_eq!(int_of(to_int(&vec![text("42")])), 42);
    assert_eq!(int_of(to_int(&vec![text("-17")])), -17);
    assert_eq!(int_of(to_int(&vec![text("+5")])), 5);
    assert_eq!(int_of(to_int(&vec![text("-0")])), 0);
    assert_eq!(int_of(to_int(&vec![text("0007")])), 7);
    assert_eq!(int_of(to_int(&vec![text("9223372036854775807")])), i64::MAX);
    assert_eq!(int_of(to_int(&vec![text("-9223372036854775808")])), i64::MIN);
}

#[test]
fn to_int_rejects_text_that_is_no_integer() {
    for bad in [
        "",
        "+",
        "-",
        "abc",
        "12a",
        " 1",
        "1 ",
        "1.5",
        "--1",
        "+-1",
        "9223372036854775808",
        "-9223372036854775809",
        "99999999999999999999999999",
        "١٢",
        "1é",
    ] {
        match to_int(&vec![text(bad)]) {
            Err(AresError::IllegalConversion { value: Value::String(s), into }) => {
                assert_eq!(s, bad);
                assert_eq!(into, "Int");
            }
            other => panic!("expected a conversion error for {:?}, got {:?}", bad, other),
        }
    }
}

#[test]
fn parse_int_agrees_with_the_standard_parser() {
    for s in [
        "", "0", "-0", "+0", "7", "-7", "+7", "007", "-007", "+", "-", "a", "1a", "a1", "1 ",
        " 1", "1_000", "0x10", "9223372036854775807", "9223372036854775808",
        "-9223372036854775808", "-9223372036854775809", "18446744073709551616",
        "000000000000000000000000000000000000012", "+9223372036854775807", "1e3", "٣",
    ] {
        assert_eq!(parse_int(s), s.parse::<i64>().ok(), "for {:?}", s);
    }
}

#[test]
fn to_int_rejects_other_kinds() {
    assert!(is_illegal(to_int(&vec![Value::Ident("x".to_string())]), "Int"));
    assert!(is_illegal(to_int(&vec![Value::List(ListRef { index: 0 })]), "Int"));
    assert!(is_illegal(to_int(&vec![lambda()]), "Int"));
    assert!(is_illegal(to_int(&vec![foreign()]), "Int"));
    match to_int(&vec![Value::Ident("x".to_string())]) {
        Err(AresError::IllegalConversion { value: Value::Ident(name), .. }) => {
            assert_eq!(name, "x")
        }
        other => panic!("unexpected {:?}", other),
    }
}

#[test]
fn to_int_takes_exactly_one_argument() {
    assert!(is_arity(to_int(&vec![]), 0));
    assert!(is_arity(to_int(&vec![Value::Int(1), Value::Int(2)]), 2));
    assert!(is_arity(to_int(&vec![Value::Ident("x".to_string()), Value::Int(2)]), 2));
}

#[test]
fn to_float_widens_an_integer() {
    assert_eq!(bits_of(to_float(&vec![Value::Int(0)], None)), 0.0f64.to_bits());
    assert_eq!(bits_of(to_float(&vec![Value::Int(1)], None)), 1.0f64.to_bits());
    assert_eq!(bits_of(to_float(&vec![Value::Int(-3)], None)), (-3.0f64).to_bits());
    assert_eq!(
        bits_of(to_float(&vec![Value::Int(9007199254740993)], None)),
        9007199254740992.0f64.to_bits()
    );
}

#[test]
fn to_float_of_int_agrees_with_the_machine() {
    let mut cases: Vec<i64> = vec![
        0,
        1,
        -1,
        2,
        3,
        i64::MAX,
        i64::MIN,
        i64::MAX - 1,
        i64::MIN + 1,
        9007199254740991,
        9007199254740992,
        9007199254740993,
        9007199254740994,
        9007199254740995,
        -9007199254740993,
        18014398509481985,
        18014398509481986,
        18014398509481987,
        9223372036854775295,
        9223372036854775296,
        9223372036854774784,
    ];
    let mut state: u64 = 0x2545f4914f6cdd1d;
    for _ in 0..20000 {
        state = state.wrapping_mul(6364136223846793005).wrapping_add(1442695040888963407);
        cases.push(state as i64);
        cases.push((state >> (state % 64)) as i64);
    }
    for i in cases {
        assert_eq!(Float::from_int(i).bits, (i as f64).to_bits(), "for {}", i);
    }
}

#[test]
fn to_float_keeps_a_float() {
    for f in samples() {
        assert_eq!(bits_of(to_float(&vec![float(f)], None)), f.to_bits());
    }
}

#[test]
fn to_float_of_text_is_what_was_read() {
    let read = "2.5".parse::<f64>().ok().map(|f| Float { bits: f.to_bits() });
    assert_eq!(bits_of(to_float(&vec![text("2.5")], read)), 2.5f64.to_bits());
    let unread = "two".parse::<f64>().ok().map(|f| Float { bits: f.to_bits() });
    match to_float(&vec![text("two")], unread) {
        Err(AresError::IllegalConversion { value: Value::String(s), into }) => {
            assert_eq!(s, "two");
            assert_eq!(into, "Float");
        }
        other => panic!("unexpected {:?}", other),
    }
}

#[test]
fn to_float_rejects_a_boolean_and_other_kinds() {
    let some = Some(Float { bits: 1.0f64.to_bits() });
    assert!(is_illegal(to_float(&vec![Value::Bool(true)], None), "Float"));
    assert!(is_illegal(to_float(&vec![Value::Bool(false)], some), "Float"));
    assert!(is_illegal(to_float(&vec![Value::Ident("x".to_string())], some), "Float"));
    assert!(is_illegal(to_float(&vec![Value::List(ListRef { index: 0 })], None), "Float"));
    assert!(is_illegal(to_float(&vec![lambda()], None), "Float"));
    assert!(is_illegal(to_float(&vec![foreign()], None), "Float"));
}

#[test]
fn to_float_takes_exactly_one_argument() {
    assert!(is_arity(to_float(&vec![], None), 0));
    assert!(is_arity(to_float(&vec![Value::Int(1), Value::Int(2), Value::Int(3)], None), 3));
}

#[test]
fn to_bool_of_numbers() {
    assert!(!bool_of(to_bool(&vec![Value::Int(0)])));
    assert!(bool_of(to_bool(&vec![Value::Int(5)])));
    assert!(bool_of(to_bool(&vec![Value::Int(-1)])));
    assert!(bool_of(to_bool(&vec![Value::Int(i64::MIN)])));
    assert!(!bool_of(to_bool(&vec![float(0.0)])));
    assert!(!bool_of(to_bool(&vec![float(-0.0)])));
    assert!(bool_of(to_bool(&vec![float(1.5)])));
    assert!(bool_of(to_bool(&vec![float(5e-324)])));
    assert!(bool_of(to_bool(&vec![float(f64::NAN)])));
    assert!(bool_of(to_bool(&vec![float(f64::INFINITY)])));
    for f in samples() {
        assert_eq!(bool_of(to_bool(&vec![float(f)])), !(f == 0.0), "for {}", f);
    }
}

#[test]
fn to_bool_keeps_a_boolean() {
    assert!(bool_of(to_bool(&vec![Value::Bool(true)])));
    assert!(!bool_of(to_bool(&vec![Value::Bool(false)])));
}

#[test]
fn to_bool_of_text_takes_true_and_false_only() {
    assert!(bool_of(to_bool(&vec![text("true")])));
    assert!(!bool_of(to_bool(&vec![text("false")])));
    for bad in ["yes", "True", "FALSE", " true", "true ", "", "1", "0"] {
        match to_bool(&vec![text(bad)]) {
            Err(AresError::IllegalConversion { value: Value::String(s), into }) => {
                assert_eq!(s, bad);
                assert_eq!(into, "Bool");
            }
            other => panic!("expected a conversion error for {:?}, got {:?}", bad, other),
        }
    }
}

#[test]
fn to_bool_rejects_other_kinds() {
    assert!(is_illegal(to_bool(&vec![Value::Ident("true".to_string())]), "Bool"));
    assert!(is_illegal(to_bool(&vec![Value::List(ListRef { index: 0 })]), "Bool"));
    assert!(is_illegal(to_bool(&vec![lambda()]), "Bool"));
    assert!(is_illegal(to_bool(&vec![foreign()]), "Bool"));
}

#[test]
fn to_bool_takes_exactly_one_argument() {
    assert!(is_arity(to_bool(&vec![]), 0));
    assert!(is_arity(to_bool(&vec![Value::Bool(true), Value::Bool(true)]), 2));
}

#[test]
fn to_string_takes_exactly_one_argument() {
    let heap = Heap::new();
    match to_string(&heap, &vec![]) {
        Err(AresError::UnexpectedArity { found, expected }) => {
            assert_eq!(found, 0);
            assert_eq!(expected, "exactly 1");
        }
        other => panic!("unexpected {:?}", other),
    }
    match to_string(&heap, &vec![Value::Int(1), Value::Int(2)]) {
        Err(AresError::UnexpectedArity { found, expected }) => {
            assert_eq!(found, 2);
            assert_eq!(expected, "exactly 1");
        }
        other => panic!("unexpected {:?}", other),
    }
}
