use sysunit::parser::parse_unitfile_header;
use sysunit::parser::unit_file::header;

#[test]
fn unit_file_test_header() {
    let input = "# [ Unit1 ]";
    let (rest, result) = header(input).unwrap();

    assert_eq!(rest, "");
    assert_eq!(result, "Unit1");

    let input = "  #  [  Blaaaarp ]  ";
    let (rest, result) = header(input).unwrap();

    assert_eq!(rest, "");
    assert_eq!(result, "Blaaaarp");

    let input = "# This is a normal comment";
    let res = header(input);
    assert!(res.is_err());
}

#[test]
fn a_name_may_be_several_words() {
    assert_eq!(parse_unitfile_header("# [ Unit 1 ]").unwrap(), "Unit 1");
    assert_eq!(parse_unitfile_header("#[a.sh]").unwrap(), "a.sh");
    assert_eq!(parse_unitfile_header("# [ one  two three ] ").unwrap(), "one  two three");
}

#[test]
fn what_is_no_header_is_refused() {
    assert!(parse_unitfile_header("").is_err());
    assert!(parse_unitfile_header("echo hi").is_err());
    assert!(parse_unitfile_header("# [ ]").is_err());
    assert!(parse_unitfile_header("# [ a ] b").is_err());
    assert!(parse_unitfile_header("# [ a").is_err());
    assert!(parse_unitfile_header("# [ a! ]").is_err());
    assert!(parse_unitfile_header("[ a ]").is_err());
}
