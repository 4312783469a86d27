use sysunit::engine::shell_executor::message_stream::{
    drain_messages_of_type, get_apply_values, get_check_values, get_deps, get_meta,
    get_remove_values, MessageStream,
};
use sysunit::engine::shell_executor::{args_str, decode, ShellExecutor};
use sysunit::error::Error;
use sysunit::models::emit::{Header, Message};
use sysunit::models::{
    OpCompletion, OpStatus, Operation, Param, StdoutData, Target, Value, ValueSet, ValueType,
};

fn message(name: &str, field: Option<&str>, text: &str) -> Message {
    Message { header: Header::build(name, field), text: text.to_string() }
}

#[test]
fn the_stream_collects_messages_up_to_the_status() {
    let mut stream = MessageStream::new();
    assert_eq!(stream.drain_messages(StdoutData::TextLine("building".to_string())), Ok(None));
    assert_eq!(
        stream.drain_messages(StdoutData::Message(message("value", Some("x"), "1"))),
        Ok(None)
    );
    assert_eq!(
        stream.drain_messages(StdoutData::Message(message("value", Some("y"), "2"))),
        Ok(None)
    );
    assert_eq!(
        stream.drain_messages(StdoutData::Message(message("status", None, "0"))),
        Ok(Some((
            OpStatus::Success,
            vec![message("value", Some("x"), "1"), message("value", Some("y"), "2")]
        )))
    );
    // The stream starts over for the next operation.
    assert_eq!(
        stream.drain_messages(StdoutData::Message(message("status", None, "2"))),
        Ok(Some((OpStatus::Failed(2), vec![])))
    );
    assert_eq!(stream.unexpected_eof(), Error::UnexpectedEof);
}

#[test]
fn a_status_that_is_no_exit_code_is_an_error() {
    let mut stream = MessageStream::new();
    assert_eq!(
        stream.drain_messages(StdoutData::Message(message("dep", None, "a.sh"))),
        Ok(None)
    );
    assert_eq!(
        stream.drain_messages(StdoutData::Message(message("status", None, "ok"))),
        Err(Error::InvalidStatusCode("ok".to_string()))
    );
    assert_eq!(
        stream.drain_messages(StdoutData::Message(message("status", None, "0"))),
        Ok(Some((OpStatus::Success, vec![message("dep", None, "a.sh")])))
    );
}

#[test]
fn messages_of_one_type_pass() {
    let messages = vec![message("dep", None, "a"), message("dep", Some("x"), "b")];
    assert_eq!(
        drain_messages_of_type("dep", OpStatus::Failed(1), messages.clone()),
        Ok((OpStatus::Failed(1), messages))
    );
    assert_eq!(
        drain_messages_of_type(
            "dep",
            OpStatus::Success,
            vec![message("dep", None, "a"), message("value", Some("x"), "b"), message("x", None, "")]
        ),
        Err(Error::UnexpectedMessage(Header::build("value", Some("x"))))
    );
    assert_eq!(drain_messages_of_type("dep", OpStatus::Success, vec![]), Ok((OpStatus::Success, vec![])));
}

#[test]
fn deps_are_read_from_every_message_in_order() {
    let deps = get_deps(
        OpStatus::Success,
        vec![message("dep", None, "a.sh x=1, b.sh"), message("dep", None, "c.sh -> v:int")],
    )
    .unwrap();
    let names: Vec<&str> = deps.iter().map(|dep| dep.name.as_str()).collect();
    assert_eq!(names, vec!["a.sh", "b.sh", "c.sh"]);
    assert_eq!(deps[2].captures.len(), 1);
    assert_eq!(get_deps(OpStatus::Success, vec![]).unwrap().len(), 0);
}

#[test]
fn deps_fail_on_other_messages_then_on_the_status_then_on_the_grammar() {
    assert_eq!(
        get_deps(OpStatus::Failed(1), vec![message("file", None, "x")]).unwrap_err(),
        Error::UnexpectedMessage(Header::build("file", None))
    );
    assert_eq!(
        get_deps(OpStatus::Failed(1), vec![message("dep", None, "!!")]).unwrap_err(),
        Error::OperationFailed(1)
    );
    assert_eq!(
        get_deps(OpStatus::Success, vec![message("dep", None, "a.sh"), message("dep", None, "!!")])
            .unwrap_err(),
        Error::Parse { input: "!!".to_string(), position: 0 }
    );
}

#[test]
fn meta_is_read_field_by_field() {
    let meta = get_meta(
        OpStatus::Success,
        vec![
            message("meta", Some("author"), "me"),
            message("meta", Some("desc"), "does things"),
            message("meta", Some("version"), "1.0"),
            message("meta", Some("params"), "!message:string, foo_count:int"),
            message("meta", Some("author"), "you"),
        ],
    )
    .unwrap();
    assert_eq!(meta.author, Some("you".to_string()));
    assert_eq!(meta.desc, Some("does things".to_string()));
    assert_eq!(meta.version, Some("1.0".to_string()));
    assert_eq!(
        meta.params,
        vec![
            Param { name: "message".to_string(), value_type: ValueType::String, required: true },
            Param { name: "foo_count".to_string(), value_type: ValueType::Int, required: false },
        ]
    );
    let empty = get_meta(OpStatus::Success, vec![message("meta", Some("params"), "")]).unwrap();
    assert!(empty.params.is_empty());
    assert_eq!(get_meta(OpStatus::Success, vec![]).unwrap().author, None);
}

#[test]
fn meta_fails_on_what_it_does_not_know() {
    assert_eq!(
        get_meta(OpStatus::Success, vec![message("meta", None, "x")]).unwrap_err(),
        Error::MissingField(Header::build("meta", None))
    );
    assert_eq!(
        get_meta(OpStatus::Success, vec![message("meta", Some("license"), "x")]).unwrap_err(),
        Error::UnexpectedMessage(Header::build("meta", Some("license")))
    );
    assert_eq!(
        get_meta(OpStatus::Success, vec![message("value", Some("x"), "1")]).unwrap_err(),
        Error::UnexpectedMessage(Header::build("value", Some("x")))
    );
    assert_eq!(
        get_meta(OpStatus::Failed(7), vec![message("meta", Some("author"), "x")]).unwrap_err(),
        Error::OperationFailed(7)
    );
    assert_eq!(
        get_meta(OpStatus::Success, vec![message("meta", Some("params"), "a:b")]).unwrap_err(),
        Error::Parse { input: "a:b".to_string(), position: 0 }
    );
}

#[test]
fn a_check_says_whether_the_unit_is_present() {
    let (present, values) = get_check_values(
        OpStatus::Success,
        vec![
            message("value", Some("version"), "\"1.2\""),
            message("present", None, "true"),
            message("value", Some("count"), "3"),
        ],
    )
    .unwrap();
    assert!(present);
    assert_eq!(values.len(), 2);
    assert!(matches!(values.get("version").unwrap(), Value::String(s) if s == "1.2"));
    assert!(matches!(values.get("count").unwrap(), Value::Int(3)));

    let (present, values) =
        get_check_values(OpStatus::Success, vec![message("present", None, "false")]).unwrap();
    assert!(!present);
    assert!(values.is_empty());

    let (present, _) = get_check_values(OpStatus::Success, vec![]).unwrap();
    assert!(!present);
}

#[test]
fn a_check_fails_on_what_it_does_not_know() {
    assert_eq!(
        get_check_values(
            OpStatus::Success,
            vec![message("present", None, "true"), message("present", None, "true")]
        )
        .unwrap_err(),
        Error::DuplicatePresence
    );
    assert_eq!(
        get_check_values(OpStatus::Success, vec![message("present", None, "yes")]).unwrap_err(),
        Error::InvalidPresence("yes".to_string())
    );
    assert_eq!(
        get_check_values(OpStatus::Success, vec![message("value", None, "1")]).unwrap_err(),
        Error::MissingField(Header::build("value", None))
    );
    assert_eq!(
        get_check_values(OpStatus::Success, vec![message("value", None, "")]).unwrap_err(),
        Error::Parse { input: "".to_string(), position: 0 }
    );
    assert_eq!(
        get_check_values(OpStatus::Success, vec![message("dep", None, "a")]).unwrap_err(),
        Error::UnexpectedMessage(Header::build("dep", None))
    );
    assert_eq!(
        get_check_values(OpStatus::Failed(1), vec![message("dep", None, "a")]).unwrap_err(),
        Error::OperationFailed(1)
    );
}

#[test]
fn apply_and_remove_give_the_emitted_values() {
    let values =
        get_apply_values(OpStatus::Success, vec![message("value", Some("installed"), "\"yes\"")])
            .unwrap();
    assert!(matches!(values.get("installed").unwrap(), Value::String(s) if s == "yes"));
    let values = get_remove_values(
        OpStatus::Success,
        vec![message("value", Some("n"), "1"), message("value", Some("n"), "2")],
    )
    .unwrap();
    assert_eq!(values.len(), 1);
    assert!(matches!(values.get("n").unwrap(), Value::Int(2)));
    assert!(get_apply_values(OpStatus::Success, vec![]).unwrap().is_empty());
}

#[test]
fn apply_fails_on_the_messages_before_the_status() {
    assert_eq!(
        get_apply_values(OpStatus::Failed(2), vec![message("value", Some("x"), "\"1\"")])
            .unwrap_err(),
        Error::OperationFailed(2)
    );
    assert_eq!(
        get_apply_values(OpStatus::Failed(2), vec![message("value", None, "1")]).unwrap_err(),
        Error::MissingField(Header::build("value", None))
    );
    assert_eq!(
        get_remove_values(OpStatus::Failed(2), vec![message("present", None, "true")]).unwrap_err(),
        Error::UnexpectedMessage(Header::build("present", None))
    );
    assert_eq!(
        get_remove_values(OpStatus::Success, vec![message("value", Some("x"), "a b")]).unwrap_err(),
        Error::Parse { input: "a b".to_string(), position: 2 }
    );
}

#[test]
fn messages_are_decoded_as_the_operation_requires() {
    assert!(matches!(
        decode(Operation::Check, OpStatus::Success, vec![message("present", None, "true")]),
        Ok(OpCompletion::Check(OpStatus::Success, true, _))
    ));
    assert!(matches!(
        decode(Operation::Apply, OpStatus::Success, vec![message("value", Some("a"), "1")]),
        Ok(OpCompletion::Apply(OpStatus::Success, values)) if values.len() == 1
    ));
    assert!(matches!(
        decode(Operation::Remove, OpStatus::Success, vec![]),
        Ok(OpCompletion::Remove(OpStatus::Success, values)) if values.is_empty()
    ));
    assert!(matches!(
        decode(Operation::Deps, OpStatus::Success, vec![message("dep", None, "a.sh")]),
        Ok(OpCompletion::Deps(OpStatus::Success, deps)) if deps.units.len() == 1 && deps.files.is_empty()
    ));
    assert!(matches!(
        decode(Operation::Meta, OpStatus::Success, vec![message("meta", Some("desc"), "d")]),
        Ok(OpCompletion::Meta(OpStatus::Success, meta)) if meta.desc == Some("d".to_string())
    ));
    assert_eq!(
        decode(Operation::Apply, OpStatus::Failed(2), vec![message("value", Some("x"), "\"1\"")])
            .unwrap_err(),
        Error::OperationFailed(2)
    );
    assert_eq!(
        decode(Operation::Apply, OpStatus::Success, vec![message("present", None, "true")])
            .unwrap_err(),
        Error::UnexpectedMessage(Header::build("present", None))
    );
}

#[test]
fn an_operation_is_written_to_the_shell_as_a_subshell() {
    let mut args = ValueSet::new();
    args.add_value("name", Value::String("x y".to_string()));
    args.add_value("count", Value::Int(3));
    let target = Target::new("local", None, "localhost");

    let plain = ShellExecutor::init(&target, false);
    assert_eq!(
        plain.run_op(Operation::Apply, "apply() { :; }", &args),
        "(\nset -e -u\n\napply() { :; }\ncount=\"3\"\nname=\"x y\"\n\napply\n)\n _emit status $? \n"
    );
    let debug = ShellExecutor::init(&target, true);
    assert_eq!(
        debug.run_op(Operation::Meta, "", &ValueSet::new()),
        "(\nset -e -u -x\n\n\n\nmeta\n)\n _emit status $? \n"
    );
    assert_eq!(args_str(&args), "count=\"3\"\nname=\"x y\"\n");
    assert_eq!(args_str(&ValueSet::new()), "");
}

#[test]
fn an_executor_that_exits_with_a_code_has_failed() {
    let target = Target::new("local", None, "localhost");
    assert_eq!(ShellExecutor::init(&target, false).finalize(0, "noise"), Ok(()));
    assert_eq!(
        ShellExecutor::init(&target, false).finalize(127, "sh: not found"),
        Err(Error::AdapterExit { code: 127, stderr: "sh: not found".to_string() })
    );
    assert_eq!(
        ShellExecutor::init(&target, false).finalize(-1, ""),
        Err(Error::AdapterExit { code: -1, stderr: "".to_string() })
    );
}
