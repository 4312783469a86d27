use sysunit::models::Value;
use sysunit::parser::parse_value;
use sysunit::parser::value::{bool, float, integer, named_value, string, unquoted_string, value};

fn float_approx_equals(value: &Value, f: f32) -> bool {
    match value {
        Value::Float(f2) => (f - f2.parse::<f32>().unwrap()) < 0.0001,
        _ => panic!("Cannot compare non-float value to float"),
    }
}

#[test]
fn test_string() {
    let input = "\"blarp\"";
    match string(input).unwrap() {
        (rest, Value::String(parsed_string)) => {
            assert_eq!(rest, "");
            assert_eq!(parsed_string, "blarp");
        }
        _ => panic!("unexpected Value type"),
    }

    let input = "'blarp hi world !@#'";
    match string(input).unwrap() {
        (rest, Value::String(parsed_string)) => {
            assert_eq!(rest, "");
            assert_eq!(parsed_string, "blarp hi world !@#");
        }
        _ => panic!("unexpected Value type"),
    }
}

#[test]
fn test_float() {
    let input = "123.456";
    match float(input).unwrap() {
        (rest, Value::Float(parsed_float)) => {
            assert_eq!(rest, "");
            assert!(parsed_float.parse::<f32>().unwrap() - 123.456 < 0.0001);
        }
        _ => panic!("unexpected Value type"),
    }

    let input = "123.0";
    let (rest, value) = float(input).unwrap();
    assert_eq!(rest, "");
    assert!(float_approx_equals(&value, 123.0))
}

#[test]
fn test_bool() {
    let input = "true";
    match bool(input).unwrap() {
        (rest, Value::Bool(parsed_bool)) => {
            assert_eq!(rest, "");
            assert!(parsed_bool);
        }
        _ => panic!("unexpected Value type"),
    }

    let input = "false";
    match bool(input).unwrap() {
        (rest, Value::Bool(parsed_bool)) => {
            assert_eq!(rest, "");
            assert!(!parsed_bool);
        }
        _ => panic!("unexpected Value type"),
    }
}

#[test]
fn test_int() {
    let input = "123";
    match integer(input).unwrap() {
        (rest, Value::Int(parsed_int)) => {
            assert_eq!(rest, "");
            assert_eq!(parsed_int, 123);
        }
        _ => panic!("unexpected Value type"),
    }
}

#[test]
fn test_unquoted_string() {
    let input = "hello ";
    match unquoted_string(input).unwrap() {
        (rest, Value::String(parsed_string)) => {
            assert_eq!(rest, " ");
            assert_eq!(parsed_string, "hello");
        }
        _ => panic!("unexpected Value type"),
    }
}

#[test]
fn integers_have_a_sign_and_32_bits() {
    assert!(matches!(integer("-42x").unwrap(), ("x", Value::Int(-42))));
    assert!(matches!(integer("+7").unwrap(), ("", Value::Int(7))));
    assert!(matches!(integer("2147483647").unwrap(), ("", Value::Int(i32::MAX))));
    assert!(matches!(integer("-2147483648").unwrap(), ("", Value::Int(i32::MIN))));
    assert!(matches!(integer("007").unwrap(), ("", Value::Int(7))));
    assert!(integer("2147483648").is_err());
    assert!(integer("-2147483649").is_err());
    assert!(integer("99999999999999999999").is_err());
    assert!(integer("-").is_err());
    assert!(integer("").is_err());
    assert!(integer("x1").is_err());
}

#[test]
fn fractions_need_digits_on_both_sides_of_the_point() {
    assert!(matches!(float("1.5,").unwrap(), (",", Value::Float(f)) if f == "1.5"));
    assert!(float("1.").is_err());
    assert!(float(".5").is_err());
    assert!(float("15").is_err());
    assert!(float("-1.5").is_err());
}

#[test]
fn quoted_strings_end_at_the_same_quote() {
    assert!(matches!(string("'it\"s' x").unwrap(), (" x", Value::String(s)) if s == "it\"s"));
    assert!(string("\"\"").is_err());
    assert!(string("\"open").is_err());
    assert!(string("plain").is_err());
    assert!(string("").is_err());
}

#[test]
fn the_first_form_that_fits_is_the_value() {
    assert!(matches!(value("  \"a b\"  ").unwrap(), ("", Value::String(s)) if s == "a b"));
    assert!(matches!(value("12.5").unwrap(), ("", Value::Float(f)) if f == "12.5"));
    assert!(matches!(value("12").unwrap(), ("", Value::Int(12))));
    assert!(matches!(value("-3 ,").unwrap(), (",", Value::Int(-3))));
    assert!(matches!(value("true").unwrap(), ("", Value::Bool(true))));
    assert!(matches!(value("false,x").unwrap(), (",x", Value::Bool(false))));
    assert!(matches!(value("/tmp/x.png").unwrap(), ("", Value::String(s)) if s == "/tmp/x.png"));
    assert!(matches!(value("99999999999").unwrap(), ("", Value::String(s)) if s == "99999999999"));
    assert!(matches!(value("12abc").unwrap(), ("abc", Value::Int(12))));
    assert!(matches!(value("\"\"").unwrap(), ("", Value::String(s)) if s == "\"\""));
    assert!(value("").is_err());
    assert!(value("  ,").is_err());
}

#[test]
fn named_values_bind_a_label() {
    let (rest, (name, v)) = named_value(" size = 10 , next").unwrap();
    assert_eq!(rest, ", next");
    assert_eq!(name, "size");
    assert!(matches!(v, Value::Int(10)));
    assert!(named_value("size 10").is_err());
    assert!(named_value("=10").is_err());
    assert!(named_value("size=").is_err());
}

#[test]
fn parse_value_reads_the_whole_input() {
    assert!(matches!(parse_value(" 1 ").unwrap(), Value::Int(1)));
    assert!(matches!(parse_value("'yes'").unwrap(), Value::String(s) if s == "yes"));
    assert!(matches!(parse_value("yes").unwrap(), Value::String(s) if s == "yes"));
    assert!(parse_value("a b").is_err());
    assert!(parse_value("").is_err());
}
