//! The type lattice, numeric classification and text utilities.

use nq::text::{chars_string, str_chars, strip_commas, matches_int, matches_real, u8_decimal};
use nq::types::Type;

fn chars(s: &str) -> Vec<char> {
    str_chars(s)
}

#[test]
fn promote_keeps_integers() {
    assert_eq!(Type::Int.promote(&chars("42")), Type::Int);
    assert_eq!(Type::Int.promote(&chars("-7")), Type::Int);
    assert_eq!(Type::Int.promote(&chars("+123456789012345678")), Type::Int);
}

#[test]
fn promote_demotes_to_real() {
    assert_eq!(Type::Int.promote(&chars("2.5")), Type::Real);
    assert_eq!(Type::Int.promote(&chars("-0.125")), Type::Real);
    // nineteen digits no longer pass the integer pattern, but they are no
    // real literal either
    assert_eq!(Type::Int.promote(&chars("1234567890123456789")), Type::Text);
}

#[test]
fn promote_demotes_to_text() {
    assert_eq!(Type::Int.promote(&chars("x")), Type::Text);
    assert_eq!(Type::Real.promote(&chars("x")), Type::Text);
    assert_eq!(Type::Text.promote(&chars("3")), Type::Text);
}

#[test]
fn real_columns_keep_integer_samples() {
    assert_eq!(Type::Real.promote(&chars("3")), Type::Real);
    assert_eq!(Type::Real.promote(&chars("2.5")), Type::Real);
}

#[test]
fn promote_never_raises() {
    let samples = ["1", "2.5", "x", "", "0.0", "-3", "1,000"];
    for t in [Type::Int, Type::Real, Type::Text] {
        for s in samples {
            let strength = |t: Type| match t {
                Type::Int => 2,
                Type::Real => 1,
                Type::Text => 0,
            };
            assert!(strength(t.promote(&chars(s))) <= strength(t));
        }
    }
}

#[test]
fn integer_pattern_is_exact() {
    assert!(matches_int(&chars("0")));
    assert!(matches_int(&chars("-123")));
    assert!(matches_int(&chars("+9")));
    assert!(!matches_int(&chars("")));
    assert!(!matches_int(&chars("-")));
    assert!(!matches_int(&chars("1.5")));
    assert!(!matches_int(&chars("12a")));
    assert!(matches_int(&chars("123456789012345678")));
    assert!(!matches_int(&chars("1234567890123456789")));
}

#[test]
fn real_pattern_is_exact() {
    assert!(matches_real(&chars("1.5")));
    assert!(matches_real(&chars("-0.25")));
    assert!(matches_real(&chars("+10.0")));
    assert!(!matches_real(&chars("1.")));
    assert!(!matches_real(&chars(".5")));
    assert!(!matches_real(&chars("15")));
    assert!(!matches_real(&chars("1.5.2")));
    assert!(!matches_real(&chars("")));
}

#[test]
fn strip_commas_removes_grouping() {
    assert_eq!(chars_string(&strip_commas(&chars("1,234"))), "1234");
    assert_eq!(chars_string(&strip_commas(&chars("1,234,567"))), "1234567");
    assert_eq!(chars_string(&strip_commas(&chars("abc"))), "abc");
    assert_eq!(chars_string(&strip_commas(&chars(",,"))), "");
}

#[test]
fn decimal_rendering() {
    assert_eq!(chars_string(&u8_decimal(0)), "0");
    assert_eq!(chars_string(&u8_decimal(9)), "9");
    assert_eq!(chars_string(&u8_decimal(44)), "44");
    assert_eq!(chars_string(&u8_decimal(255)), "255");
}

#[test]
fn fresh_columns_are_text() {
    let types = Type::new(3);
    assert_eq!(types, vec![Type::Text, Type::Text, Type::Text]);
}
