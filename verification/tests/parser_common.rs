use sysunit::models::ValueType;
use sysunit::parser::common::{label, value_type, ws};

#[test]
fn test_label() {
    let input = "one";
    let (rest, result) = label(input).unwrap();

    assert_eq!(rest, "");
    assert_eq!(result, "one");

    let input = "  one  ";
    let (rest, result) = label(input).unwrap();

    assert_eq!(rest, "");
    assert_eq!(result, "one");

    let input = "  one-two_three.four  ";
    let (rest, result) = label(input).unwrap();

    assert_eq!(rest, "");
    assert_eq!(result, "one-two_three.four");
}

#[test]
fn test_arg_type() {
    let input = "  int  ";
    let (rest, result) = value_type(input).unwrap();

    assert_eq!(rest, "");
    assert_eq!(result, ValueType::Int);
}

#[test]
fn blanks_at_the_start_are_skipped() {
    assert_eq!(ws("  \t\r\n x y "), "x y ");
    assert_eq!(ws("x"), "x");
    assert_eq!(ws("   "), "");
    assert_eq!(ws(""), "");
}

#[test]
fn labels_are_made_of_letters_digits_and_three_marks() {
    assert_eq!(label("caf\u{e9}_1 rest"), Ok(("rest", "caf\u{e9}_1".to_string())));
    assert_eq!(label("a/b"), Ok(("/b", "a".to_string())));
    assert_eq!(label("a:b"), Ok((":b", "a".to_string())));
    assert!(label("").is_err());
    assert!(label("  ").is_err());
    assert!(label("/a").is_err());
}

#[test]
fn names_of_types() {
    assert_eq!(value_type("string"), Ok(("", ValueType::String)));
    assert_eq!(value_type("bool,"), Ok((",", ValueType::Bool)));
    assert_eq!(value_type(" float x"), Ok(("x", ValueType::Float)));
    assert_eq!(value_type("integer"), Ok(("eger", ValueType::Int)));
    assert!(value_type("str").is_err());
    assert!(value_type("").is_err());
}
