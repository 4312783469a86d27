use sysunit::engine::resolver::ResolvableNode;
use sysunit::error::Error;
use sysunit::models::dep::{Dependencies, FileDependency};
use sysunit::models::emit::Header;
use sysunit::models::{Meta, OpCompletion, OpStatus, Operation, Target, Unit, Value, ValueSet};

#[test]
fn headers_display_with_their_field() {
    assert_eq!(Header::build("meta", Some("params")).to_string(), "meta.params");
    assert_eq!(Header::build("status", None).to_string(), "status");
    assert_eq!(Header::build("a", None).name, "a");
    assert_eq!(Header::build("a", Some("b")).field, Some("b".to_string()));
}

#[test]
fn empty_meta_declares_nothing() {
    let meta = Meta::empty();
    assert_eq!(meta.author, None);
    assert_eq!(meta.desc, None);
    assert_eq!(meta.version, None);
    assert!(meta.params.is_empty());
    assert_eq!(meta.clone(), meta);
}

#[test]
fn operations_have_names() {
    assert_eq!(Operation::from_str("check"), Ok(Operation::Check));
    assert_eq!(Operation::from_str("apply"), Ok(Operation::Apply));
    assert_eq!(Operation::from_str("remove"), Ok(Operation::Remove));
    assert_eq!(Operation::from_str("deps"), Err(()));
    assert_eq!(Operation::from_str("meta"), Err(()));
    assert_eq!(Operation::from_str(""), Err(()));
    assert_eq!(Operation::Check.to_string(), "check");
    assert_eq!(Operation::Apply.to_string(), "apply");
    assert_eq!(Operation::Remove.to_string(), "remove");
    assert_eq!(Operation::Deps.to_string(), "deps");
    assert_eq!(Operation::Meta.to_string(), "meta");
}

#[test]
fn a_status_is_read_from_an_exit_code() {
    assert_eq!(OpStatus::from_code("0"), Ok(OpStatus::Success));
    assert_eq!(OpStatus::from_code("000"), Ok(OpStatus::Success));
    assert_eq!(OpStatus::from_code("+0"), Ok(OpStatus::Success));
    assert_eq!(OpStatus::from_code("1"), Ok(OpStatus::Failed(1)));
    assert_eq!(OpStatus::from_code("2"), Ok(OpStatus::Failed(2)));
    assert_eq!(OpStatus::from_code("255"), Ok(OpStatus::Failed(255)));
    assert_eq!(OpStatus::from_code("+17"), Ok(OpStatus::Failed(17)));
    for bad in ["", "+", "-1", "256", "1 ", " 1", "0x1", "one", "1.0", "99999999999999999999"] {
        assert_eq!(OpStatus::from_code(bad), Err(Error::InvalidStatusCode(bad.to_string())));
    }
}

#[test]
fn a_failed_status_is_an_error() {
    assert_eq!(OpStatus::Success.expect_ok(), Ok(()));
    assert_eq!(OpStatus::Failed(2).expect_ok(), Err(Error::OperationFailed(2)));
    assert_eq!(OpCompletion::Apply(OpStatus::Success, ValueSet::new()).expect_ok(), Ok(()));
    assert_eq!(
        OpCompletion::Check(OpStatus::Failed(3), false, ValueSet::new()).expect_ok(),
        Err(Error::OperationFailed(3))
    );
    assert_eq!(
        OpCompletion::Remove(OpStatus::Failed(4), ValueSet::new()).expect_ok(),
        Err(Error::OperationFailed(4))
    );
    assert_eq!(OpCompletion::Deps(OpStatus::Success, Dependencies::new()).expect_ok(), Ok(()));
    assert_eq!(
        OpCompletion::Meta(OpStatus::Failed(9), Meta::empty()).expect_ok(),
        Err(Error::OperationFailed(9))
    );
}

#[test]
fn the_identity_of_a_unit_is_its_name_and_the_signature_of_its_args() {
    let unit = Unit::new("a.sh".to_string(), ValueSet::new(), None);
    assert_eq!(unit.get_id(), "a.sh-da39a3ee5e6b4b0d3255bfef95601890afd80709");
    assert_eq!(unit.to_string(), unit.get_id());
    assert_eq!(ResolvableNode::get_id(&unit), unit.get_id());

    let mut args = ValueSet::new();
    args.add_value("name", Value::String("x".to_string()));
    let with_args = Unit::new("a.sh".to_string(), args, Some(Target::new("ssh", None, "host")));
    assert_eq!(with_args.get_id(), "a.sh-373dad662fcd9ae0bf0075cdcd1bbdf911cb06c8");
    assert_eq!(with_args.tag(), "a.sh(name=x)");
    assert!(!unit.same(&with_args));
    assert!(with_args.same(&with_args.clone()));
    assert_eq!(with_args.clone().target, Some(Target::new("ssh", None, "host")));
}

#[test]
fn units_with_the_same_identity_are_the_same_whatever_the_order_of_their_args() {
    let mut forward = ValueSet::new();
    forward.add_value("a", Value::Int(1));
    forward.add_value("b", Value::Int(2));
    let mut backward = ValueSet::new();
    backward.add_value("b", Value::Int(2));
    backward.add_value("a", Value::Int(1));
    let one = Unit::new("u".to_string(), forward, None);
    let other = Unit::new("u".to_string(), backward, Some(Target::new("local", None, "localhost")));
    assert!(one.same(&other));
    assert_eq!(one.get_id(), "u-10cf73d13b980e22c78ecdc13f556962f871d697");
}

#[test]
fn file_dependencies_come_from_src_and_dest() {
    let mut args = ValueSet::new();
    args.add_value("src", Value::String("./a".to_string()));
    args.add_value("dest", Value::Int(7));
    assert_eq!(
        FileDependency::from_args(args),
        Ok(FileDependency { src: "./a".to_string(), dest: "7".to_string() })
    );

    let mut no_dest = ValueSet::new();
    no_dest.add_value("src", Value::String("./a".to_string()));
    assert_eq!(
        FileDependency::from_args(no_dest),
        Err(Error::MissingFileArgument("dest".to_string()))
    );
    assert_eq!(
        FileDependency::from_args(ValueSet::new()),
        Err(Error::MissingFileArgument("src".to_string()))
    );
}

#[test]
fn no_dependencies() {
    let deps = Dependencies::new();
    assert!(deps.units.is_empty());
    assert!(deps.files.is_empty());
    assert!(deps.clone().units.is_empty());
}
