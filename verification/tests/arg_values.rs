use sysunit::models::Value;
use sysunit::parser::arg_values::args;
use sysunit::parser::parse_args;

#[test]
fn test_args() {
    let input = "foo =\"bar\", bar=123, blarp=432.34, blip=true";
    let (rest, arg_set) = args(input);

    assert_eq!(rest, "");
    assert_eq!(arg_set.len(), 4);
    assert!(matches!(arg_set.get("foo").unwrap(), Value::String(s) if s == "bar"));
    assert!(matches!(arg_set.get("bar").unwrap(), Value::Int(123)));
    assert!(
        matches!(arg_set.get("blarp").unwrap(), Value::Float(f) if (432.34 - f.parse::<f32>().unwrap()) < 0.0001)
    );
    assert!(matches!(arg_set.get("blip").unwrap(), Value::Bool(true)));
}

#[test]
fn an_empty_list_of_args_reads_nothing() {
    let (rest, arg_set) = args("-> x:int");
    assert_eq!(rest, "-> x:int");
    assert_eq!(arg_set.len(), 0);

    let (rest, arg_set) = args("");
    assert_eq!(rest, "");
    assert!(arg_set.is_empty());
}

#[test]
fn a_comma_that_no_arg_follows_is_left() {
    let (rest, arg_set) = args("a=1, b");
    assert_eq!(rest, ", b");
    assert_eq!(arg_set.len(), 1);
}

#[test]
fn a_later_arg_replaces_an_earlier_one_of_its_name() {
    let (rest, arg_set) = args("a=1,a=2");
    assert_eq!(rest, "");
    assert_eq!(arg_set.len(), 1);
    assert!(matches!(arg_set.get("a").unwrap(), Value::Int(2)));
}

#[test]
fn parse_args_reads_the_whole_input() {
    let arg_set = parse_args("  name=\"x y\", count=3 ").unwrap();
    assert_eq!(arg_set.len(), 2);
    assert!(matches!(arg_set.get("name").unwrap(), Value::String(s) if s == "x y"));
    assert!(parse_args("").unwrap().is_empty());
    assert!(parse_args("a=1 b=2").is_err());
    assert!(parse_args("a=").is_err());
}
