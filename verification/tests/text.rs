use kwlang::parser::ast::Type;
use kwlang::text::{format_integer, format_natural};
use kwlang::vm::value::Value;

#[test]
fn naturals_are_written_without_leading_zeros() {
    assert_eq!(format_natural(0), "0");
    assert_eq!(format_natural(7), "7");
    assert_eq!(format_natural(10), "10");
    assert_eq!(format_natural(1234567890), "1234567890");
    assert_eq!(format_natural(u64::MAX), "18446744073709551615");
}

#[test]
fn integers_are_written_with_their_sign() {
    assert_eq!(format_integer(0), "0");
    assert_eq!(format_integer(-1), "-1");
    assert_eq!(format_integer(42), "42");
    assert_eq!(format_integer(i64::MIN), "-9223372036854775808");
    assert_eq!(format_integer(i64::MAX), "9223372036854775807");
}

#[test]
fn values_are_displayed_with_their_type() {
    assert_eq!(Value::Int(5).display(), "int(5)");
    assert_eq!(Value::Int(-12).display(), "int(-12)");
    assert_eq!(Value::Bool(true).display(), "bool(true)");
    assert_eq!(Value::Bool(false).display(), "bool(false)");
    assert_eq!(Value::String("some text".into()).display(), "string(some text)");
    assert_eq!(Type::Int.display(), "int");
    assert_eq!(Type::Bool.display(), "bool");
    assert_eq!(Type::String.display(), "string");
}
