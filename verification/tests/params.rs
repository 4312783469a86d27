use sysunit::error::Error;
use sysunit::models::{Param, ValueType};
use sysunit::parser::params::{param, params};
use sysunit::parser::parse_params;

#[test]
fn test_param() {
    let input = "  !foo: string  ";
    let (rest, result) = param(input).unwrap();

    assert_eq!(rest, "");
    assert_eq!(
        result,
        Param { name: "foo".to_string(), value_type: ValueType::String, required: true }
    );
}

#[test]
fn test_params() {
    let input = "  !foo: string, bar: int, baz: bool  ";
    let (rest, result) = params(input);

    assert_eq!(rest, "");
    assert_eq!(
        result,
        vec![
            Param { name: "foo".to_string(), value_type: ValueType::String, required: true },
            Param { name: "bar".to_string(), value_type: ValueType::Int, required: false },
            Param { name: "baz".to_string(), value_type: ValueType::Bool, required: false }
        ]
    );
}

#[test]
fn params_may_be_none() {
    let (rest, result) = params("");
    assert_eq!(rest, "");
    assert_eq!(result, vec![]);
    assert_eq!(parse_params("").unwrap(), vec![]);
    assert_eq!(parse_params("   ").unwrap(), vec![]);
}

#[test]
fn parse_params_reads_the_whole_input() {
    assert_eq!(
        parse_params("!message:string, !foo_count:int").unwrap(),
        vec![
            Param { name: "message".to_string(), value_type: ValueType::String, required: true },
            Param { name: "foo_count".to_string(), value_type: ValueType::Int, required: true },
        ]
    );
    assert_eq!(
        parse_params("rate:float").unwrap(),
        vec![Param { name: "rate".to_string(), value_type: ValueType::Float, required: false }]
    );
}

#[test]
fn parse_params_says_where_the_input_stops_following_the_grammar() {
    assert_eq!(
        parse_params("foo:string; bar:int"),
        Err(Error::Parse { input: "foo:string; bar:int".to_string(), position: 10 })
    );
    assert_eq!(
        parse_params("  foo"),
        Err(Error::Parse { input: "  foo".to_string(), position: 2 })
    );
    assert_eq!(
        parse_params("foo:int, bar"),
        Err(Error::Parse { input: "foo:int, bar".to_string(), position: 7 })
    );
    assert!(param("foo").is_err());
    assert!(param("foo:whatever").is_err());
}
