use sysunit::engine::resolver::CircularDependencyError;
use sysunit::error::{join, Error};
use sysunit::models::emit::Header;
use sysunit::models::ValueType;

#[test]
fn every_error_has_its_message() {
    let cases: Vec<(Error, &str)> = vec![
        (Error::Usage("bad flags".to_string()), "bad flags"),
        (
            Error::NotFound {
                name: "a/b.sh".to_string(),
                search_paths: vec!["/x".to_string(), "/y".to_string()],
            },
            "Could not find script at location: a/b.sh in search paths: /x:/y",
        ),
        (Error::NotAScript("dir".to_string()), "dir is not a unit script"),
        (
            Error::InvalidExtension("/x/a.txt".to_string()),
            "Invalid file extension on file: /x/a.txt",
        ),
        (
            Error::NotInUnitFile { name: "u".to_string(), file: "/x/all.sysu".to_string() },
            "Could not find script: u in unitfile: /x/all.sysu",
        ),
        (
            Error::Parse { input: "a;b".to_string(), position: 1 },
            "Failed to parse: a;b at position 1",
        ),
        (Error::InvalidType("number".to_string()), "Invalid type: number"),
        (
            Error::InvalidStatusCode("x".to_string()),
            "Failed to parse emitted status code string: x",
        ),
        (
            Error::InvalidPresence("maybe".to_string()),
            "Could not parse present message body, expected 'true' or 'false', got: maybe",
        ),
        (Error::UnexpectedEof, "Unexpected EOF parsing output stream"),
        (
            Error::UnexpectedMessage(Header::build("value", Some("x"))),
            "Unexpected message type: value.x",
        ),
        (Error::MissingField(Header::build("value", None)), "value message missing field"),
        (Error::DuplicatePresence, "Multiple presence messages in check operation"),
        (Error::MissingParameter("name".to_string()), "Missing required parameter: name"),
        (
            Error::UnknownParameter("color".to_string()),
            "Parameter color is provided, but not accepted",
        ),
        (
            Error::ArgumentType {
                name: "n".to_string(),
                found: ValueType::String,
                expected: ValueType::Int,
            },
            "Argument n is of type, string not int as expected",
        ),
        (
            Error::MissingCapture {
                unit: "b.sh".to_string(),
                dependency: "a.sh".to_string(),
                capture: "installed".to_string(),
            },
            "Unit b.sh expected its dependency a.sh to emit a value for capture: installed",
        ),
        (
            Error::CaptureType {
                capture: "installed".to_string(),
                dependency: "a.sh".to_string(),
                found: ValueType::Bool,
                expected: ValueType::Float,
            },
            "Capture installed from a.sh is of type bool not float as expected",
        ),
        (Error::MissingFileArgument("src".to_string()), "File dependency missing src argument"),
        (Error::NoAdapter("ftp://h".to_string()), "No adapter found for target: ftp://h"),
        (
            Error::NotLocal("elsewhere".to_string()),
            "The local protocol reaches localhost only, not elsewhere",
        ),
        (Error::NoTransport("ftp".to_string()), "Unsupported transport protocol: ftp"),
        (
            Error::AdapterExit { code: -9, stderr: "killed".to_string() },
            "adapter exited with status code -9 killed",
        ),
        (
            Error::CircularDependency(CircularDependencyError {
                preceeding_nodes: vec!["x".to_string(), "y".to_string(), "z".to_string()],
                node_id: "x".to_string(),
            }),
            "Circular dependency detected: x. stack: x -> y -> z",
        ),
        (Error::OperationFailed(2), "Operation failed on unit.  Status: 2"),
    ];
    for (error, message) in cases {
        assert_eq!(error.to_string(), message);
    }
}

#[test]
fn joining_puts_the_separator_between() {
    assert_eq!(join(&vec![], ", "), "");
    assert_eq!(join(&vec!["a".to_string()], ", "), "a");
    assert_eq!(join(&vec!["a".to_string(), "".to_string(), "c".to_string()], "-"), "a--c");
}
