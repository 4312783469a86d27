use sysunit::models::{CaptureDefinition, ValueType};
use sysunit::parser::captures::{capture, captures};

#[test]
fn test_capture() {
    let input = "foo:string";
    let (rest, result) = capture(input).unwrap();
    assert_eq!(rest, "");
    assert_eq!(
        result,
        CaptureDefinition {
            name: "foo".to_string(),
            value_type: ValueType::String,
            required: false,
            alias: None,
        }
    );

    let input = "foo:bar:string";
    let (rest, result) = capture(input).unwrap();
    assert_eq!(rest, "");
    assert_eq!(
        result,
        CaptureDefinition {
            name: "foo".to_string(),
            value_type: ValueType::String,
            required: false,
            alias: Some("bar".to_string()),
        }
    );
}

#[test]
fn captures_follow_an_arrow() {
    let (rest, list) = captures("-> size:file_size:int, name : string rest").unwrap();
    assert_eq!(rest, "rest");
    assert_eq!(list.len(), 2);
    assert_eq!(list[0].name, "size");
    assert_eq!(list[0].alias, Some("file_size".to_string()));
    assert_eq!(list[0].value_type, ValueType::Int);
    assert_eq!(list[1].name, "name");
    assert_eq!(list[1].alias, None);
    assert_eq!(list[1].value_type, ValueType::String);
}

#[test]
fn captures_need_the_arrow_and_a_capture() {
    assert!(captures("size:int").is_err());
    assert!(captures("->").is_err());
    assert!(captures("-> size").is_err());
    assert!(captures(" -> size:int").is_err());
    assert!(capture("size:number").is_err());
}
