//! Numeric text: the integer grammar and the floating point grammar.

use configurator::num::{float_text_check, parse_integer_text, parse_number_text};
use configurator::value::{NumberKind, NumberValue};

#[test]
fn integer_simple() {
    assert_eq!(parse_integer_text("0"), Some(0));
    assert_eq!(parse_integer_text("123"), Some(123));
    assert_eq!(parse_integer_text("-9"), Some(-9));
    assert_eq!(parse_integer_text("0042"), Some(42));
}

#[test]
fn integer_rejects_stray_text() {
    assert_eq!(parse_integer_text(""), None);
    assert_eq!(parse_integer_text("-"), None);
    assert_eq!(parse_integer_text("12.5"), None);
    assert_eq!(parse_integer_text("1x"), None);
    assert_eq!(parse_integer_text(" 1"), None);
    assert_eq!(parse_integer_text("--1"), None);
}

#[test]
fn integer_full_range() {
    assert_eq!(
        parse_integer_text("170141183460469231731687303715884105727"),
        Some(i128::MAX)
    );
    assert_eq!(
        parse_integer_text("-170141183460469231731687303715884105728"),
        Some(i128::MIN)
    );
    assert_eq!(parse_integer_text("170141183460469231731687303715884105728"), None);
    assert_eq!(parse_integer_text("-170141183460469231731687303715884105729"), None);
    assert_eq!(
        parse_integer_text("99999999999999999999999999999999999999999999999999"),
        None
    );
}

#[test]
fn float_grammar_accepts() {
    for ok in [
        "12.5", "1e5", ".5", "5.", "0", "-0.25", "+1E+10", "3e-7", "inf", "Infinity", "NaN",
        "-inf", "2.5E10",
    ] {
        assert!(float_text_check(ok), "{ok} should be valid");
        // every accepted text really is a double the standard library takes
        assert!(ok.parse::<f64>().is_ok(), "{ok} should parse");
    }
}

#[test]
fn float_grammar_rejects() {
    for bad in ["", ".", "-", "1e", "e5", "1.2.3", "1e5.5", "one", "0x10", "1_000", " 1"] {
        assert!(!float_text_check(bad), "{bad} should be invalid");
        assert!(bad.parse::<f64>().is_err(), "{bad} should not parse");
    }
}

#[test]
fn parse_number_by_kind() {
    assert_eq!(
        parse_number_text(NumberKind::Integer, "12"),
        Some(NumberValue::Int(12))
    );
    assert_eq!(parse_number_text(NumberKind::Integer, "12.5"), None);
    assert_eq!(
        parse_number_text(NumberKind::Float, "12.5"),
        Some(NumberValue::Float("12.5".to_string()))
    );
    assert_eq!(parse_number_text(NumberKind::Float, "12x"), None);
    // the float text round-trips through machine floating point
    match parse_number_text(NumberKind::Float, "12.5") {
        Some(NumberValue::Float(t)) => assert_eq!(t.parse::<f64>().unwrap(), 12.5),
        other => panic!("unexpected {other:?}"),
    }
}
