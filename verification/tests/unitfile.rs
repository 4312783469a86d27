use sysunit::engine::loader::unitfile::{parse_defs, UnitFile};

#[test]
fn unitfile_test_parse_defs() {
    let text = r#"
          # [ Unit 1 ] 
          echo -n "Hi world!"
          
          # [ Unit 2 ]

          echo "booyeaaah"
        "#;

    let defs = parse_defs(text);
    assert_eq!(defs.len(), 2);
}

#[test]
fn test_parse_defs() {
    let input = r#"
            # [ Unit1 ]
            echo 'unit 1 script'

            # [ Unit2 ]
            echo 'unit 2 script'
        "#;

    let defs = parse_defs(input);

    assert_eq!(defs.len(), 2);
    assert_eq!(defs.get("Unit1").unwrap().trim(), "echo 'unit 1 script'");
    assert_eq!(defs.get("Unit2").unwrap().trim(), "echo 'unit 2 script'");
}

#[test]
fn parse_defs_keeps_each_line_with_its_line_feed() {
    let defs = parse_defs("# [a]\none\ntwo\r\n# [ b ]\nthree");
    assert_eq!(defs.len(), 2);
    assert_eq!(defs.get("a").unwrap(), "one\ntwo\n");
    assert_eq!(defs.get("b").unwrap(), "three\n");
}

#[test]
fn parse_defs_drops_what_stands_before_the_first_header() {
    let defs = parse_defs("echo lost\n# [a]\n");
    assert_eq!(defs.len(), 1);
    assert_eq!(defs.get("a").unwrap(), "");
    assert_eq!(parse_defs("echo nothing\n").len(), 0);
    assert_eq!(parse_defs("").len(), 0);
}

#[test]
fn parse_defs_keeps_the_last_of_two_units_of_one_name() {
    let defs = parse_defs("# [a]\nfirst\n# [a]\nsecond\n");
    assert_eq!(defs.len(), 1);
    assert_eq!(defs.get("a").unwrap(), "second\n");
}

#[test]
fn unit_file_hands_out_scripts_by_name() {
    let file = UnitFile::load("units/all.sysu".to_string(), "# [ one ]\necho 1\n");
    assert_eq!(file.display_path(), "units/all.sysu");
    assert_eq!(file.get("one"), Some("echo 1\n".to_string()));
    assert_eq!(file.get("two"), None);
}
