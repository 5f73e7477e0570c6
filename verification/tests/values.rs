use rlox::memory::Heap;
use rlox::object::Obj;
use rlox::value::equal_numbers;
use rlox::value::is_falsey;
use rlox::value::less_number;
use rlox::value::negate_number;
use rlox::value::print_value;
use rlox::value::Value;

fn samples() -> Vec<f64> {
    vec![
        0.0,
        -0.0,
        1.0,
        -1.0,
        0.1,
        -0.1,
        2.5,
        1e300,
        -1e300,
        f64::MIN_POSITIVE,
        -f64::MIN_POSITIVE,
        5e-324,
        -5e-324,
        f64::MAX,
        f64::MIN,
        f64::INFINITY,
        f64::NEG_INFINITY,
        f64::NAN,
        -f64::NAN,
        f64::from_bits(0x7ff0_0000_0000_0001),
        f64::from_bits(0xffff_ffff_ffff_ffff),
    ]
}

#[test]
fn number_equality_is_that_of_the_floats() {
    for a in samples() {
        for b in samples() {
            assert_eq!(equal_numbers(a.to_bits(), b.to_bits()), a == b, "{} == {}", a, b);
        }
    }
}

#[test]
fn number_order_is_that_of_the_floats() {
    for a in samples() {
        for b in samples() {
            assert_eq!(less_number(a.to_bits(), b.to_bits()), a < b, "{} < {}", a, b);
        }
    }
}

#[test]
fn negation_is_that_of_the_floats() {
    for a in samples() {
        assert_eq!(negate_number(a.to_bits()), (-a).to_bits(), "-{}", a);
    }
    assert_eq!(negate_number(0), 0x8000_0000_0000_0000);
    assert_eq!(negate_number(1.5f64.to_bits()), (-1.5f64).to_bits());
}

#[test]
fn zero_equals_negative_zero_and_nan_equals_nothing() {
    assert!(equal_numbers(0.0f64.to_bits(), (-0.0f64).to_bits()));
    assert!(!less_number((-0.0f64).to_bits(), 0.0f64.to_bits()));
    assert!(!equal_numbers(f64::NAN.to_bits(), f64::NAN.to_bits()));
    assert!(!less_number(f64::NAN.to_bits(), 1.0f64.to_bits()));
    assert!(!less_number(1.0f64.to_bits(), f64::NAN.to_bits()));
}

#[test]
fn only_nil_and_false_are_falsey() {
    let mut heap = Heap::new();
    let empty = heap.manage_str(Vec::new());
    assert!(is_falsey(Value::Nil));
    assert!(is_falsey(Value::Bool(false)));
    assert!(!is_falsey(Value::Bool(true)));
    assert!(!is_falsey(Value::Number(0.0f64.to_bits())));
    assert!(!is_falsey(Value::Number(0)));
    assert!(!is_falsey(Value::Number(f64::NAN.to_bits())));
    assert!(!is_falsey(Value::Object(Obj::LString(empty))));
}

#[test]
fn values_equal_by_variant_and_payload() {
    let mut heap = Heap::new();
    let a = Value::Object(Obj::LString(heap.manage_str(b"a".to_vec())));
    let a2 = Value::Object(Obj::LString(heap.manage(b"a".to_vec())));
    let b = Value::Object(Obj::LString(heap.manage_str(b"b".to_vec())));
    let one = Value::Number(1.0f64.to_bits());
    assert!(Value::Nil.equals(&Value::Nil, &heap));
    assert!(Value::Bool(true).equals(&Value::Bool(true), &heap));
    assert!(!Value::Bool(true).equals(&Value::Bool(false), &heap));
    assert!(one.equals(&Value::Number(1.0f64.to_bits()), &heap));
    assert!(!one.equals(&Value::Number(2.0f64.to_bits()), &heap));
    assert!(!one.equals(&Value::Bool(true), &heap));
    assert!(!Value::Nil.equals(&Value::Bool(false), &heap));
    assert!(!Value::Number(0).equals(&Value::Nil, &heap));
    assert!(a.equals(&a, &heap));
    assert!(a.equals(&a2, &heap));
    assert!(!a.equals(&b, &heap));
    assert!(!a.equals(&one, &heap));
    let nan = Value::Number(f64::NAN.to_bits());
    assert!(!nan.equals(&nan, &heap));
    assert!(Value::Number(0.0f64.to_bits()).equals(&Value::Number((-0.0f64).to_bits()), &heap));
}

#[test]
fn values_print_as_the_language_shows_them() {
    let mut heap = Heap::new();
    let s = Value::Object(Obj::LString(heap.manage_str(b"st r".to_vec())));
    assert_eq!(print_value(&Value::Nil, &heap), Some(b"nil".to_vec()));
    assert_eq!(print_value(&Value::Bool(true), &heap), Some(b"true".to_vec()));
    assert_eq!(print_value(&Value::Bool(false), &heap), Some(b"false".to_vec()));
    assert_eq!(print_value(&s, &heap), Some(b"st r".to_vec()));
    assert_eq!(print_value(&Value::Number(1.0f64.to_bits()), &heap), None);
}
