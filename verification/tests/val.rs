use sysunit::models::{Value, ValueSet, ValueType};

fn string_equals(value: &Value, s: &str) -> bool {
    match value {
        Value::String(s2) => s == s2,
        _ => panic!("Cannot compare non-string value to string"),
    }
}

fn int_equals(value: &Value, i: i32) -> bool {
    match value {
        Value::Int(i2) => i == *i2,
        _ => panic!("Cannot compare non-int value to int"),
    }
}

fn float_approx_equals(value: &Value, f: f32) -> bool {
    match value {
        Value::Float(f2) => (f - f2.parse::<f32>().unwrap()) < 0.0001,
        _ => panic!("Cannot compare non-float value to float"),
    }
}

fn bool_equals(value: &Value, b: bool) -> bool {
    match value {
        Value::Bool(b2) => b == *b2,
        _ => panic!("Cannot compare non-bool value to bool"),
    }
}

#[test]
fn test_value_set() {
    let mut value_set = ValueSet::new();
    value_set.add_value("foo", Value::String("bar".to_string()));
    value_set.add_value("bar", Value::Int(123));
    value_set.add_value("blarp", Value::Float("432.34".to_string()));
    value_set.add_value("blip", Value::Bool(true));

    assert_eq!(value_set.len(), 4);
    assert!(string_equals(value_set.get("foo").unwrap(), "bar"));
    assert!(int_equals(value_set.get("bar").unwrap(), 123));
    assert!(float_approx_equals(value_set.get("blarp").unwrap(), 432.34));
    assert!(bool_equals(value_set.get("blip").unwrap(), true));
}

#[test]
fn value_set_lists_its_bindings_by_name() {
    let mut value_set = ValueSet::new();
    value_set.add_value("foo", Value::String("bar".to_string()));
    value_set.add_value("bar", Value::Int(123));
    value_set.add_value("blarp", Value::Float("432.34".to_string()));
    value_set.add_value("blip", Value::Bool(true));

    let names: Vec<String> = (0..value_set.len()).map(|i| value_set.name_at(i).clone()).collect();
    assert_eq!(names, vec!["bar", "blarp", "blip", "foo"]);
    assert_eq!(value_set.value_at(0).to_string(), "123");
    assert_eq!(value_set.tag(), "bar=123blarp=432.34blip=truefoo=bar");
}

#[test]
fn value_set_replaces_the_value_of_a_name() {
    let mut value_set = ValueSet::new();
    assert!(value_set.is_empty());
    value_set.add_value("a", Value::Int(1));
    value_set.add_value("a", Value::Int(2));
    assert_eq!(value_set.len(), 1);
    assert!(int_equals(value_set.get("a").unwrap(), 2));
    assert!(value_set.contains_key("a"));
    assert!(!value_set.contains_key("b"));
    assert!(value_set.get("b").is_none());
    assert!(!value_set.is_empty());
}

#[test]
fn merge_prefers_the_right_hand_side() {
    let mut left = ValueSet::new();
    left.add_value("a", Value::Int(1));
    left.add_value("b", Value::Int(2));
    let mut right = ValueSet::new();
    right.add_value("b", Value::String("two".to_string()));
    right.add_value("c", Value::Bool(false));

    left.merge(&right);

    assert_eq!(left.len(), 3);
    assert!(int_equals(left.get("a").unwrap(), 1));
    assert!(string_equals(left.get("b").unwrap(), "two"));
    assert!(bool_equals(left.get("c").unwrap(), false));
    assert_eq!(right.len(), 2);
}

#[test]
fn signature_is_the_sha1_of_the_bindings_by_name() {
    let empty = ValueSet::new();
    assert_eq!(empty.get_sig(), "da39a3ee5e6b4b0d3255bfef95601890afd80709");

    let mut one = ValueSet::new();
    one.add_value("foo", Value::String("bar".to_string()));
    assert_eq!(one.get_sig(), "2fb8f40115dd1e695cbe23d4f97ce5b1fb697eee");

    let mut four = ValueSet::new();
    four.add_value("foo", Value::String("bar".to_string()));
    four.add_value("bar", Value::Int(123));
    four.add_value("blarp", Value::Float("432.34".to_string()));
    four.add_value("blip", Value::Bool(true));
    assert_eq!(four.get_sig(), "055b425f97f8b2e2f007a0de08fc801f47df6498");
}

#[test]
fn signature_depends_on_content_alone() {
    let mut forward = ValueSet::new();
    forward.add_value("a", Value::Int(1));
    forward.add_value("b", Value::Int(2));
    let mut backward = ValueSet::new();
    backward.add_value("b", Value::Int(2));
    backward.add_value("a", Value::Int(0));
    backward.add_value("a", Value::Int(1));

    assert_eq!(forward.get_sig(), backward.get_sig());
    assert_eq!(forward.get_sig(), "10cf73d13b980e22c78ecdc13f556962f871d697");
    assert_eq!(forward.clone().get_sig(), forward.get_sig());

    let mut other = ValueSet::new();
    other.add_value("a", Value::Int(1));
    assert_ne!(forward.get_sig(), other.get_sig());
}

#[test]
fn value_types() {
    assert_eq!(Value::String("x".to_string()).get_type(), ValueType::String);
    assert_eq!(Value::Int(-3).get_type(), ValueType::Int);
    assert_eq!(Value::Float("1.5".to_string()).get_type(), ValueType::Float);
    assert_eq!(Value::Bool(false).get_type(), ValueType::Bool);
}

#[test]
fn value_type_names() {
    assert_eq!(ValueType::from_str("string"), Ok(ValueType::String));
    assert_eq!(ValueType::from_str("int"), Ok(ValueType::Int));
    assert_eq!(ValueType::from_str("bool"), Ok(ValueType::Bool));
    assert_eq!(ValueType::from_str("float"), Ok(ValueType::Float));
    assert_eq!(ValueType::from_str("number"), Err("number".to_string()));
    assert_eq!(ValueType::from_str(""), Err("".to_string()));
    assert_eq!(ValueType::String.to_string(), "string");
    assert_eq!(ValueType::Int.to_string(), "int");
    assert_eq!(ValueType::Bool.to_string(), "bool");
    assert_eq!(ValueType::Float.to_string(), "float");
}

#[test]
fn values_display_as_text() {
    assert_eq!(Value::String("hello world".to_string()).to_string(), "hello world");
    assert_eq!(Value::Int(0).to_string(), "0");
    assert_eq!(Value::Int(7).to_string(), "7");
    assert_eq!(Value::Int(1203).to_string(), "1203");
    assert_eq!(Value::Int(-45).to_string(), "-45");
    assert_eq!(Value::Int(i32::MAX).to_string(), "2147483647");
    assert_eq!(Value::Int(i32::MIN).to_string(), "-2147483648");
    assert_eq!(Value::Float("432.34".to_string()).to_string(), "432.34");
    assert_eq!(Value::Bool(true).to_string(), "true");
    assert_eq!(Value::Bool(false).to_string(), "false");
}

#[test]
fn tags_cut_long_strings() {
    assert_eq!(Value::String("abcdefghijkl".to_string()).tag(10), "abcdefghij...");
    assert_eq!(Value::String("abcdefghij".to_string()).tag(10), "abcdefghij");
    assert_eq!(Value::String("abc".to_string()).tag(0), "...");
    assert_eq!(Value::Int(123456).tag(2), "123456");
    assert_eq!(Value::Bool(true).tag(1), "true");

    let mut value_set = ValueSet::new();
    value_set.add_value("path", Value::String("/a/very/long/path".to_string()));
    value_set.add_value("n", Value::Int(5));
    assert_eq!(value_set.tag(), "n=5path=/a/very/lo...");
}

#[test]
fn values_from_plain_text() {
    assert!(bool_equals(&Value::from_string("true"), true));
    assert!(bool_equals(&Value::from_string("false"), false));
    assert!(int_equals(&Value::from_string("123"), 123));
    assert!(int_equals(&Value::from_string("-17"), -17));
    assert!(int_equals(&Value::from_string("+4"), 4));
    assert!(int_equals(&Value::from_string("2147483647"), i32::MAX));
    assert!(int_equals(&Value::from_string("-2147483648"), i32::MIN));
    assert!(float_approx_equals(&Value::from_string("2147483648"), 2147483648.0));
    assert!(float_approx_equals(&Value::from_string("1.5"), 1.5));
    assert!(float_approx_equals(&Value::from_string("-2.25"), -2.25));
    assert!(float_approx_equals(&Value::from_string(".5"), 0.5));
    assert!(float_approx_equals(&Value::from_string("5."), 5.0));
    assert!(float_approx_equals(&Value::from_string("1e3"), 1000.0));
    assert!(float_approx_equals(&Value::from_string("2.5E-1"), 0.25));
    assert_eq!(Value::from_string("inf").get_type(), ValueType::Float);
    assert_eq!(Value::from_string("-Infinity").get_type(), ValueType::Float);
    assert_eq!(Value::from_string("NaN").get_type(), ValueType::Float);
    assert!(string_equals(&Value::from_string("hello"), "hello"));
    assert!(string_equals(&Value::from_string(""), ""));
    assert!(string_equals(&Value::from_string("."), "."));
    assert!(string_equals(&Value::from_string("1e"), "1e"));
    assert!(string_equals(&Value::from_string("1.2.3"), "1.2.3"));
    assert!(string_equals(&Value::from_string("True"), "True"));
    assert!(string_equals(&Value::from_string("12 "), "12 "));
    assert!(string_equals(&Value::from_string("+"), "+"));
    assert!(string_equals(&Value::from_string("infinit"), "infinit"));
}

#[test]
fn fractions_that_the_library_accepts_are_fractions_to_the_standard_library() {
    for text in ["1.5", "-2.25", ".5", "5.", "1e3", "2.5E-1", "inf", "-Infinity", "NaN", "+nan", "7e+2"] {
        assert_eq!(Value::from_string(text).get_type(), ValueType::Float, "{}", text);
        assert!(text.parse::<f32>().is_ok(), "{}", text);
    }
    for text in ["", ".", "1e", "e5", "1.2.3", "--1.0", "1.0e", "in", "nanx", "1 .5", "0x10"] {
        assert_eq!(Value::from_string(text).get_type(), ValueType::String, "{}", text);
        assert!(text.parse::<f32>().is_err(), "{}", text);
    }
}
