//! The tagged values and the bit-level double predicates, checked against
//! the host's native doubles.

use rlox::object::copy_string;
use rlox::object::Object;
use rlox::scanner::Scanner;
use rlox::scanner::TokenType;
use rlox::value::double_eq;
use rlox::value::double_gt;
use rlox::value::double_lt;
use rlox::value::is_nan_bits;
use rlox::value::is_zero_bits;
use rlox::value::negated_bits;
use rlox::value::Value;

fn samples() -> Vec<f64> {
    vec![
        0.0,
        -0.0,
        1.0,
        -1.0,
        0.5,
        -0.5,
        1.5e300,
        -1.5e300,
        f64::INFINITY,
        f64::NEG_INFINITY,
        f64::NAN,
        -f64::NAN,
        f64::MIN_POSITIVE,
        5e-324,
        -5e-324,
        f64::MAX,
        f64::MIN,
    ]
}

#[test]
fn nan_and_zero_tests_match_the_host() {
    for &x in &samples() {
        assert_eq!(is_nan_bits(x.to_bits()), x.is_nan(), "{}", x);
        assert_eq!(is_zero_bits(x.to_bits()), x == 0.0 || x == -0.0, "{}", x);
    }
}

#[test]
fn double_comparisons_match_the_host() {
    for &a in &samples() {
        for &b in &samples() {
            assert_eq!(double_eq(a.to_bits(), b.to_bits()), a == b, "{} == {}", a, b);
            assert_eq!(double_lt(a.to_bits(), b.to_bits()), a < b, "{} < {}", a, b);
            assert_eq!(double_gt(a.to_bits(), b.to_bits()), a > b, "{} > {}", a, b);
        }
    }
}

#[test]
fn negation_matches_the_host() {
    for &x in &samples() {
        assert_eq!(negated_bits(x.to_bits()), (-x).to_bits(), "{}", x);
        assert_eq!(negated_bits(negated_bits(x.to_bits())), x.to_bits(), "{}", x);
    }
}

#[test]
fn falsey_values_are_nil_and_false_only() {
    assert!(Value::Nil.is_falsey());
    assert!(Value::Bool(false).is_falsey());
    assert!(!Value::Bool(true).is_falsey());
    assert!(!Value::Double(0.0f64.to_bits()).is_falsey());
    assert!(!Value::Double(1.0f64.to_bits()).is_falsey());
}

#[test]
fn value_equality_is_symmetric_and_total() {
    let values = vec![
        Value::Nil,
        Value::Bool(true),
        Value::Bool(false),
        Value::Double(0.0f64.to_bits()),
        Value::Double((-0.0f64).to_bits()),
        Value::Double(1.0f64.to_bits()),
        Value::Double(f64::NAN.to_bits()),
        Value::Unknown,
    ];
    for &a in &values {
        for &b in &values {
            assert_eq!(a.equal(&b), b.equal(&a), "{:?} vs {:?}", a, b);
        }
    }
}

#[test]
fn is_zero_sees_both_zeroes_and_nothing_else() {
    assert!(Value::Double(0.0f64.to_bits()).is_zero());
    assert!(Value::Double((-0.0f64).to_bits()).is_zero());
    assert!(!Value::Double(1.0f64.to_bits()).is_zero());
    assert!(!Value::Bool(false).is_zero());
    assert!(!Value::Nil.is_zero());
}

#[test]
fn copy_string_strips_the_quotes() {
    let source = b"\"hello\"";
    let mut scanner = Scanner::new(source);
    let tok = scanner.scan_token();
    assert_eq!(tok.kind, TokenType::String);
    let meta = copy_string(&tok, source);
    let Object::Str(bytes) = meta.obj;
    assert_eq!(bytes, b"hello".to_vec());
}

#[test]
fn copy_string_keeps_inner_newlines() {
    let source = b"\"a\nb\"";
    let mut scanner = Scanner::new(source);
    let tok = scanner.scan_token();
    let meta = copy_string(&tok, source);
    let Object::Str(bytes) = meta.obj;
    assert_eq!(bytes, b"a\nb".to_vec());
}
