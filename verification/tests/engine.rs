use sysunit::cli::{parse_adapter, parse_argument, split_search_paths, Verbosity};
use sysunit::engine::executor_pool::{first_failure, ExecutorPool};
use sysunit::engine::loader::{split, Load, Loader, Probe};
use sysunit::engine::runner::{
    accept_meta, build_args_for, dependency_unit, dependency_units, get_captures, load_step,
    prepare_check, Executions, LoadStep,
};
use sysunit::engine::shell_executor::adapter::{adapters_from, build_command, get_adapter, Adapters};
use sysunit::engine::transport::transport_command;
use sysunit::engine::unit_execution::UnitExecution;
use sysunit::engine::{Engine, Opts};
use sysunit::error::Error;
use sysunit::events::{finalization_event, Event, OpEvent, OpEventHandler};
use sysunit::models::dep::{CaptureDefinition, Dependencies, Dependency, FileDependency};
use sysunit::models::{Meta, Operation, Param, Target, Unit, Value, ValueSet, ValueType};
use sysunit::util::random_str;

fn args(pairs: &[(&str, Value)]) -> ValueSet {
    let mut set = ValueSet::new();
    for (name, value) in pairs {
        set.add_value(name, value.clone());
    }
    set
}

fn meta(params: &[(&str, ValueType, bool)]) -> Meta {
    let mut meta = Meta::empty();
    for (name, value_type, required) in params {
        meta.params.push(Param {
            name: name.to_string(),
            value_type: *value_type,
            required: *required,
        });
    }
    meta
}

fn unit(name: &str, set: ValueSet) -> Unit {
    Unit::new(name.to_string(), set, Some(Target::new("local", None, "localhost")))
}

#[test]
fn arguments_that_fit_the_parameters_are_accepted() {
    let declared = meta(&[
        ("name", ValueType::String, true),
        ("count", ValueType::Int, false),
        ("rate", ValueType::Float, false),
    ]);
    let given = args(&[("name", Value::String("x".to_string())), ("count", Value::Int(1))]);
    let accepted = build_args_for(&unit("u", given), &declared).unwrap();
    assert_eq!(accepted.len(), 2);
    assert!(matches!(accepted.get("count").unwrap(), Value::Int(1)));

    assert!(build_args_for(&unit("u", ValueSet::new()), &Meta::empty()).unwrap().is_empty());
    assert!(build_args_for(&unit("u", ValueSet::new()), &meta(&[("o", ValueType::Bool, false)]))
        .is_ok());
}

#[test]
fn a_required_parameter_needs_an_argument() {
    let declared = meta(&[("name", ValueType::String, true)]);
    let error = build_args_for(&unit("u", ValueSet::new()), &declared).unwrap_err();
    assert_eq!(error, Error::MissingParameter("name".to_string()));
    assert_eq!(error.to_string(), "Missing required parameter: name");

    let declared = meta(&[("a", ValueType::Int, false), ("b", ValueType::Int, true), ("c", ValueType::Int, true)]);
    assert_eq!(
        build_args_for(&unit("u", args(&[("zzz", Value::Int(1))])), &declared).unwrap_err(),
        Error::MissingParameter("b".to_string())
    );
}

#[test]
fn an_argument_needs_a_parameter_of_its_type() {
    let declared = meta(&[("name", ValueType::String, false), ("count", ValueType::Int, false)]);
    assert_eq!(
        build_args_for(&unit("u", args(&[("color", Value::Int(1))])), &declared).unwrap_err(),
        Error::UnknownParameter("color".to_string())
    );
    assert_eq!(
        build_args_for(&unit("u", args(&[("count", Value::String("1".to_string()))])), &declared)
            .unwrap_err(),
        Error::ArgumentType {
            name: "count".to_string(),
            found: ValueType::String,
            expected: ValueType::Int
        }
    );
    // The first argument by name that does not fit is reported.
    assert_eq!(
        build_args_for(
            &unit("u", args(&[("zebra", Value::Int(1)), ("count", Value::Bool(true))])),
            &declared
        )
        .unwrap_err(),
        Error::ArgumentType {
            name: "count".to_string(),
            found: ValueType::Bool,
            expected: ValueType::Int
        }
    );
    // Of two parameters of one name the first counts.
    let twice = meta(&[("n", ValueType::Int, false), ("n", ValueType::String, false)]);
    assert!(build_args_for(&unit("u", args(&[("n", Value::Int(1))])), &twice).is_ok());
    assert!(build_args_for(&unit("u", args(&[("n", Value::String("1".to_string()))])), &twice)
        .is_err());
}

fn dependency(name: &str, captures: Vec<CaptureDefinition>, target: Option<Target>) -> Dependency {
    Dependency { name: name.to_string(), args: ValueSet::new(), captures, target }
}

fn capture(name: &str, value_type: ValueType, alias: Option<&str>) -> CaptureDefinition {
    CaptureDefinition {
        name: name.to_string(),
        value_type,
        required: false,
        alias: alias.map(|a| a.to_string()),
    }
}

#[test]
fn a_dependency_runs_on_its_own_target_or_on_that_of_its_dependent() {
    let parent = Unit::new("b.sh".to_string(), ValueSet::new(), Some(Target::new("ssh", None, "h")));
    let inherits = dependency_unit(&parent, &dependency("a.sh", vec![], None));
    assert_eq!(inherits.name, "a.sh");
    assert_eq!(inherits.target, Some(Target::new("ssh", None, "h")));
    let own = dependency_unit(
        &parent,
        &dependency("a.sh", vec![], Some(Target::new("podman", None, "box"))),
    );
    assert_eq!(own.target, Some(Target::new("podman", None, "box")));

    let deps = Dependencies {
        units: vec![dependency("x.sh", vec![], None), dependency("y.sh", vec![], None)],
        files: vec![],
    };
    let units = dependency_units(&parent, &deps);
    assert_eq!(units.len(), 2);
    assert_eq!(units[0].name, "x.sh");
    assert_eq!(units[1].name, "y.sh");
}

#[test]
fn captures_take_the_values_that_dependencies_emitted() {
    let parent = unit("b.sh", ValueSet::new());
    let deps = Dependencies {
        units: vec![dependency(
            "a.sh",
            vec![
                capture("installed", ValueType::Int, None),
                capture("path", ValueType::String, Some("a_path")),
            ],
            None,
        )],
        files: vec![],
    };
    let mut executions = Executions::new();
    let mut execution = UnitExecution::new("script".to_string());
    execution.apply(&args(&[
        ("installed", Value::Int(1)),
        ("path", Value::String("/opt/a".to_string())),
        ("extra", Value::Bool(true)),
    ]));
    assert!(!executions.has_all(&parent, &deps));
    assert!(executions.insert(unit("a.sh", ValueSet::new()), execution).is_none());
    assert!(executions.has_all(&parent, &deps));

    let captured = get_captures(&parent, &deps, &executions).unwrap();
    assert_eq!(captured.len(), 2);
    assert!(matches!(captured.get("installed").unwrap(), Value::Int(1)));
    assert!(matches!(captured.get("a_path").unwrap(), Value::String(s) if s == "/opt/a"));
    assert!(captured.get("path").is_none());

    let none = Dependencies { units: vec![], files: vec![] };
    assert!(get_captures(&parent, &none, &executions).unwrap().is_empty());
}

#[test]
fn a_capture_that_cannot_be_made_is_an_error() {
    let parent = unit("b.sh", ValueSet::new());
    let mut executions = Executions::new();
    let mut execution = UnitExecution::new("script".to_string());
    execution.apply(&args(&[("installed", Value::String("yes".to_string()))]));
    executions.insert(unit("a.sh", ValueSet::new()), execution);

    let missing = Dependencies {
        units: vec![dependency("a.sh", vec![capture("version", ValueType::Int, None)], None)],
        files: vec![],
    };
    assert_eq!(
        get_captures(&parent, &missing, &executions).unwrap_err(),
        Error::MissingCapture {
            unit: "b.sh".to_string(),
            dependency: "a.sh".to_string(),
            capture: "version".to_string()
        }
    );
    let mistyped = Dependencies {
        units: vec![dependency("a.sh", vec![capture("installed", ValueType::Int, None)], None)],
        files: vec![],
    };
    assert_eq!(
        get_captures(&parent, &mistyped, &executions).unwrap_err(),
        Error::CaptureType {
            capture: "installed".to_string(),
            dependency: "a.sh".to_string(),
            found: ValueType::String,
            expected: ValueType::Int
        }
    );
}

#[test]
fn a_unit_is_loaded_meta_first() {
    let mut execution = UnitExecution::new("script".to_string());
    assert_eq!(load_step(&execution), LoadStep::Meta);

    let given = unit("u", args(&[("name", Value::String("x".to_string()))]));
    let declared = meta(&[("name", ValueType::String, true)]);
    assert_eq!(accept_meta(&given, &mut execution, declared), Ok(()));
    assert_eq!(load_step(&execution), LoadStep::Deps);
    assert!(matches!(execution.args().get("name").unwrap(), Value::String(s) if s == "x"));

    execution.store_deps(Dependencies::new());
    assert_eq!(load_step(&execution), LoadStep::Loaded);
}

#[test]
fn arguments_that_do_not_fit_the_meta_data_are_not_set() {
    let mut execution = UnitExecution::new("script".to_string());
    let given = unit("u", args(&[("color", Value::Int(1))]));
    assert_eq!(
        accept_meta(&given, &mut execution, meta(&[("name", ValueType::String, true)])),
        Err(Error::MissingParameter("name".to_string()))
    );
    assert!(execution.get_meta().is_some());
    assert!(execution.args().is_empty());
    assert_eq!(load_step(&execution), LoadStep::Deps);
}

#[test]
fn captured_values_become_arguments_before_the_check() {
    let parent = unit("b.sh", ValueSet::new());
    let deps = Dependencies {
        units: vec![dependency("a.sh", vec![capture("installed", ValueType::Int, None)], None)],
        files: vec![],
    };
    let mut executions = Executions::new();
    let mut dependency_execution = UnitExecution::new("script".to_string());
    dependency_execution.apply(&args(&[("installed", Value::Int(1))]));
    executions.insert(unit("a.sh", ValueSet::new()), dependency_execution);

    let mut execution = UnitExecution::new("script".to_string());
    execution.set_args(&args(&[("installed", Value::Int(0)), ("other", Value::Bool(true))]));
    assert_eq!(prepare_check(&parent, &deps, &mut execution, &executions), Ok(()));
    assert_eq!(execution.args().len(), 2);
    assert!(matches!(execution.args().get("installed").unwrap(), Value::Int(1)));

    let failing = Dependencies {
        units: vec![dependency("a.sh", vec![capture("version", ValueType::Int, None)], None)],
        files: vec![],
    };
    assert!(prepare_check(&parent, &failing, &mut execution, &executions).is_err());
    assert_eq!(execution.args().len(), 2);
}

#[test]
fn an_execution_can_be_taken_out_and_put_back() {
    let mut executions = Executions::new();
    let here = unit("a.sh", ValueSet::new());
    let other = unit("b.sh", ValueSet::new());
    executions.insert(here.clone(), UnitExecution::new("one".to_string()));
    executions.insert(other.clone(), UnitExecution::new("two".to_string()));
    let mut taken = executions.remove(&here).unwrap();
    assert!(!executions.contains(&here));
    assert!(executions.contains(&other));
    assert!(executions.remove(&here).is_none());
    taken.apply(&args(&[("x", Value::Int(1))]));
    executions.insert(here.clone(), taken);
    assert_eq!(executions.get(&here).unwrap().emit_data().len(), 1);
    assert_eq!(executions.get(&other).unwrap().script(), "two");
}

#[test]
fn executions_are_kept_by_unit_and_target() {
    let mut executions = Executions::new();
    let here = unit("a.sh", ValueSet::new());
    let there = Unit::new("a.sh".to_string(), ValueSet::new(), Some(Target::new("ssh", None, "h")));
    assert!(executions.get(&here).is_none());
    assert!(executions.insert(here.clone(), UnitExecution::new("one".to_string())).is_none());
    assert!(executions.insert(there.clone(), UnitExecution::new("two".to_string())).is_none());
    assert_eq!(executions.get(&here).unwrap().script(), "one");
    assert_eq!(executions.get(&there).unwrap().script(), "two");
    let before = executions.insert(here.clone(), UnitExecution::new("three".to_string()));
    assert_eq!(before.unwrap().script(), "one");
    assert_eq!(executions.get(&here).unwrap().script(), "three");
    assert_eq!(executions.get(&there).unwrap().script(), "two");
    assert!(executions.contains(&there));
    assert!(!executions.contains(&unit("b.sh", ValueSet::new())));
}

#[test]
fn meta_and_deps_are_stored_once() {
    let mut execution = UnitExecution::new("script".to_string());
    assert!(execution.get_meta().is_none());
    assert!(execution.get_deps().is_none());

    let mut first = Meta::empty();
    first.author = Some("first".to_string());
    assert_eq!(execution.store_meta(first).author, Some("first".to_string()));
    let mut second = Meta::empty();
    second.author = Some("second".to_string());
    assert_eq!(execution.store_meta(second).author, Some("first".to_string()));

    execution.set_args(&args(&[("a", Value::Int(1))]));
    execution.check(true, &args(&[("v", Value::Int(1))]));
    execution.apply(&ValueSet::new());
    execution.remove(&ValueSet::new());
    assert_eq!(execution.get_meta().unwrap().author, Some("first".to_string()));

    execution.store_deps(Dependencies {
        units: vec![dependency("a.sh", vec![], None)],
        files: vec![],
    });
    execution.store_deps(Dependencies::new());
    assert_eq!(execution.get_deps().unwrap().units.len(), 1);
}

#[test]
fn an_execution_collects_args_and_emitted_values() {
    let mut execution = UnitExecution::new("script".to_string());
    assert_eq!(execution.script(), "script");
    assert!(execution.args().is_empty());
    execution.set_args(&args(&[("a", Value::Int(1)), ("b", Value::Int(2))]));
    execution.set_args(&args(&[("b", Value::Int(3))]));
    assert_eq!(execution.args().len(), 2);
    assert!(matches!(execution.args().get("b").unwrap(), Value::Int(3)));

    assert!(execution.check(true, &args(&[("x", Value::Int(1))])));
    assert!(!execution.check(false, &ValueSet::new()));
    execution.apply(&args(&[("x", Value::Int(2)), ("y", Value::Int(3))]));
    execution.remove(&args(&[("z", Value::Int(4))]));
    assert_eq!(execution.emit_data().len(), 3);
    assert!(matches!(execution.emit_data().get("x").unwrap(), Value::Int(2)));
}

#[test]
fn the_pool_keeps_one_executor_for_each_target() {
    let mut pool: ExecutorPool<&str> = ExecutorPool::new();
    let here = Target::new("local", None, "localhost");
    let there = Target::new("ssh", Some("ops"), "db");
    assert!(pool.get_executor(&here).is_none());
    assert_eq!(pool.add_executor(here.clone(), "first"), None);
    assert_eq!(pool.add_executor(there.clone(), "second"), None);
    assert_eq!(pool.add_executor(here.clone(), "third"), Some("third"));
    assert_eq!(pool.len(), 2);
    assert_eq!(pool.get_executor(&here), Some(&"first"));
    assert_eq!(pool.get_executor(&Target::new("local", None, "localhost")), Some(&"first"));
    assert_eq!(pool.get_executor(&there), Some(&"second"));
    assert_eq!(pool.get_executor(&Target::new("ssh", None, "db")), None);

    let all = pool.finalize();
    assert_eq!(all, vec![(here.clone(), "first"), (there, "second")]);
    assert_eq!(pool.len(), 0);
    assert!(pool.get_executor(&here).is_none());
}

#[test]
fn the_first_failure_of_ending_the_executors_is_returned() {
    assert_eq!(first_failure::<Error>(vec![]), Ok(()));
    assert_eq!(first_failure::<Error>(vec![Ok(()), Ok(())]), Ok(()));
    assert_eq!(
        first_failure(vec![
            Ok(()),
            Err(Error::AdapterExit { code: 1, stderr: "a".to_string() }),
            Err(Error::AdapterExit { code: 2, stderr: "b".to_string() }),
        ]),
        Err(Error::AdapterExit { code: 1, stderr: "a".to_string() })
    );
}

fn adapters(pairs: &[(&str, &str)]) -> Adapters {
    adapters_from(pairs.iter().map(|(proto, command)| (proto.to_string(), command.to_string())).collect())
}

#[test]
fn adapters_are_chosen_by_protocol() {
    let none = adapters(&[]);
    let command = get_adapter(&none, &Target::new("ssh", Some("ops"), "db")).unwrap();
    assert_eq!(command.cmd, "ssh");
    assert_eq!(command.args, vec!["ops@db"]);
    assert_eq!(command.env.len(), 0);

    let command = get_adapter(&none, &Target::new("ssh", None, "db")).unwrap();
    assert_eq!(command.args, vec!["db"]);

    let command = get_adapter(&none, &Target::new("local", None, "localhost")).unwrap();
    assert_eq!(command.cmd, "/bin/sh");
    assert!(command.args.is_empty());

    let command = get_adapter(&none, &Target::new("podman", None, "box")).unwrap();
    assert_eq!(command.cmd, "podman");
    assert_eq!(command.args, vec!["exec", "-i", "box", "/bin/sh"]);

    let command = get_adapter(&none, &Target::new("podman", Some("root"), "box")).unwrap();
    assert_eq!(command.args, vec!["exec", "-i", "--user", "root", "box", "/bin/sh"]);
}

#[test]
fn a_registered_adapter_comes_first() {
    let registered = adapters(&[("ssh", "/usr/local/bin/myssh"), ("k8s", "kexec")]);
    let command = get_adapter(&registered, &Target::new("ssh", Some("ops"), "db")).unwrap();
    assert_eq!(command.cmd, "/usr/local/bin/myssh");
    assert_eq!(command.args, vec!["ops@db"]);
    let command = get_adapter(&registered, &Target::new("k8s", None, "pod")).unwrap();
    assert_eq!(command.cmd, "kexec");
    assert_eq!(command.args, vec!["pod"]);
}

#[test]
fn targets_without_an_adapter_are_refused() {
    let none = adapters(&[]);
    assert_eq!(
        get_adapter(&none, &Target::new("local", None, "elsewhere")).err(),
        Some(Error::NotLocal("elsewhere".to_string()))
    );
    assert_eq!(
        get_adapter(&none, &Target::new("ftp", Some("u"), "h")).err(),
        Some(Error::NoAdapter("ftp://u@h".to_string()))
    );
}

#[test]
fn a_unit_without_a_target_runs_in_a_local_shell() {
    let none = adapters(&[]);
    let command =
        build_command(&Unit::new("u".to_string(), ValueSet::new(), None), &none).unwrap();
    assert_eq!(command.cmd, "/bin/sh");
    assert_eq!(command.args, vec!["-e", "-x", "-u"]);
    let command = build_command(&unit("u", ValueSet::new()), &none).unwrap();
    assert_eq!(command.cmd, "/bin/sh");
    assert!(command.args.is_empty());
}

#[test]
fn files_are_carried_by_the_command_of_the_protocol() {
    let file = FileDependency { src: "./a".to_string(), dest: "/tmp/a".to_string() };
    let command = transport_command(&file, &Target::new("local", None, "localhost")).unwrap();
    assert_eq!(command.cmd, "cp");
    assert_eq!(command.args, vec!["./a", "/tmp/a"]);
    let command = transport_command(&file, &Target::new("podman", None, "box")).unwrap();
    assert_eq!(command.cmd, "podman");
    assert_eq!(command.args, vec!["cp", "./a", "box:/tmp/a"]);
    let command = transport_command(&file, &Target::new("ssh", Some("ops"), "db")).unwrap();
    assert_eq!(command.cmd, "scp");
    assert_eq!(command.args, vec!["./a", "db:/tmp/a"]);
    assert_eq!(
        transport_command(&file, &Target::new("ftp", None, "h")).err(),
        Some(Error::NoTransport("ftp".to_string()))
    );
}

fn opts(operation: Operation, remove_deps: bool) -> Opts {
    Opts {
        remove_deps,
        search_paths: vec![],
        operation,
        unit: unit("root", ValueSet::new()),
        adapters: adapters(&[]),
        debug: false,
    }
}

#[test]
fn the_engine_dispatches_by_operation() {
    let check = Engine::new(opts(Operation::Check, false)).ok().unwrap();
    assert!(!check.run_with_dependencies());
    assert_eq!(check.run_unit(true), None);
    assert_eq!(check.run_unit(false), None);

    let apply = Engine::new(opts(Operation::Apply, false)).ok().unwrap();
    assert!(apply.run_with_dependencies());
    assert_eq!(apply.run_unit(false), Some(Operation::Apply));
    assert_eq!(apply.run_unit(true), None);

    let remove = Engine::new(opts(Operation::Remove, false)).ok().unwrap();
    assert!(!remove.run_with_dependencies());
    assert_eq!(remove.run_unit(true), Some(Operation::Remove));
    assert_eq!(remove.run_unit(false), None);

    let remove_all = Engine::new(opts(Operation::Remove, true)).ok().unwrap();
    assert!(remove_all.run_with_dependencies());
    assert_eq!(remove_all.opts().operation, Operation::Remove);
}

#[test]
fn dependencies_are_removed_with_remove_alone() {
    for operation in [Operation::Check, Operation::Apply] {
        assert_eq!(
            Engine::new(opts(operation, true)).err(),
            Some(Error::Usage(
                "--remove-deps can only be used with the 'remove' operation".to_string()
            ))
        );
    }
}

#[test]
fn events_of_an_operation_carry_its_unit() {
    let handler = OpEventHandler::new(unit("a.sh", ValueSet::new()), Operation::Apply);
    match handler.handle(OpEvent::Started) {
        Event::Op(unit, op, OpEvent::Started) => {
            assert_eq!(unit.name, "a.sh");
            assert_eq!(op, Operation::Apply);
        }
        other => panic!("{:?}", other),
    }
    match handler.handle(OpEvent::Error("failed".to_string())) {
        Event::Op(_, _, OpEvent::Error(message)) => assert_eq!(message, "failed"),
        other => panic!("{:?}", other),
    }
    assert!(matches!(finalization_event(Ok(())), Event::EngineSuccess));
    assert!(matches!(
        finalization_event(Err("boom".to_string())),
        Event::Error(message) if message == "boom"
    ));
}

#[test]
fn at_most_one_verbosity_flag_may_be_set() {
    assert_eq!(Verbosity::from_flags(false, false, false), Ok(Verbosity::Default));
    assert_eq!(Verbosity::from_flags(true, false, false), Ok(Verbosity::Debug));
    assert_eq!(Verbosity::from_flags(false, true, false), Ok(Verbosity::Verbose));
    assert_eq!(Verbosity::from_flags(false, false, true), Ok(Verbosity::Quiet));
    for (debug, verbose, quiet) in
        [(true, true, false), (true, false, true), (false, true, true), (true, true, true)]
    {
        assert_eq!(
            Verbosity::from_flags(debug, verbose, quiet),
            Err(Error::Usage(
                "Only one of --debug, --verbose, or --quiet can be used at a time".to_string()
            ))
        );
    }
}

#[test]
fn arguments_on_the_command_line_are_key_and_value() {
    let (key, value) = parse_argument("name=web").unwrap();
    assert_eq!(key, "name");
    assert!(matches!(value, Value::String(s) if s == "web"));
    assert!(matches!(parse_argument("n=12").unwrap(), (k, Value::Int(12)) if k == "n"));
    assert!(matches!(parse_argument("on=true").unwrap(), (_, Value::Bool(true))));
    assert!(matches!(parse_argument("off=false").unwrap(), (_, Value::Bool(false))));
    assert!(matches!(parse_argument("r=1.5").unwrap(), (_, Value::Float(f)) if f == "1.5"));
    assert!(matches!(parse_argument("e=").unwrap(), (_, Value::String(s)) if s.is_empty()));
    assert!(matches!(parse_argument("=v").unwrap(), (k, Value::String(_)) if k.is_empty()));
    for bad in ["", "name", "a=b=c", "=="] {
        assert_eq!(
            parse_argument(bad),
            Err(Error::Usage("Arguments must be in the form of KEY=VALUE".to_string()))
        );
    }
}

#[test]
fn adapters_on_the_command_line_are_protocol_and_command() {
    assert_eq!(parse_adapter("ssh=/usr/bin/ssh"), Ok(("ssh".to_string(), "/usr/bin/ssh".to_string())));
    assert_eq!(parse_adapter("k8s=kubectl a=b"), Ok(("k8s".to_string(), "kubectl a=b".to_string())));
    assert_eq!(
        parse_adapter("ssh"),
        Err(Error::Usage("Adapters must be in the form of PROTOCOL=COMMAND".to_string()))
    );
    let twice = adapters(&[("ssh", "one"), ("ssh", "two")]);
    assert_eq!(twice.len(), 1);
    assert_eq!(get_adapter(&twice, &Target::new("ssh", None, "h")).unwrap().cmd, "two");
}

#[test]
fn search_paths_are_separated_by_colons() {
    assert_eq!(split_search_paths("/a:/b/c:."), vec!["/a", "/b/c", "."]);
    assert_eq!(split_search_paths("/only"), vec!["/only"]);
    assert_eq!(split_search_paths(""), vec![""]);
    assert_eq!(split_search_paths("/a::/b:"), vec!["/a", "", "/b", ""]);
}

#[test]
fn random_strings_are_alphanumeric() {
    for len in [0, 1, 16, 200] {
        let s = random_str(len);
        assert_eq!(s.chars().count(), len);
        assert!(s.chars().all(|c| c.is_ascii_alphanumeric()));
    }
    assert_ne!(random_str(32), random_str(32));
}

fn probe_until_loaded(loader: &mut Loader, name: &str, files: &[(&str, Probe)]) -> Load {
    let mut rounds = 0;
    loop {
        match loader.load(name) {
            Load::Probe(path) => {
                let mut probe = Probe::Missing;
                for (known, what) in files {
                    if *known == path {
                        probe = match what {
                            Probe::Missing => Probe::Missing,
                            Probe::Directory => Probe::Directory,
                            Probe::File(content) => Probe::File(content.clone()),
                        };
                    }
                }
                if let Err(error) = loader.record(path, probe) {
                    return Load::Failed(error);
                }
            }
            done => return done,
        }
        rounds += 1;
        assert!(rounds < 100);
    }
}

#[test]
fn names_of_units_are_split_into_components() {
    assert_eq!(split("a/b/c.sh"), vec!["a", "b", "c.sh"]);
    assert_eq!(split("a.sh"), vec!["a.sh"]);
    assert_eq!(split("/a//b/"), vec!["a", "b"]);
    assert_eq!(split(""), Vec::<String>::new());
}

#[test]
fn scripts_are_found_under_the_first_search_path_that_has_them() {
    let files = [
        ("/one/pkg", Probe::Directory),
        ("/two/pkg", Probe::Directory),
        ("/two/pkg/nginx.sh", Probe::File("echo nginx".to_string())),
        ("/two/a.sh", Probe::File("echo a".to_string())),
    ];
    let mut loader = Loader::from_search_paths(vec!["/one".to_string(), "/two".to_string()]);
    assert!(matches!(loader.load("a.sh"), Load::Probe(path) if path == "/one/a.sh"));
    assert!(matches!(
        probe_until_loaded(&mut loader, "pkg/nginx.sh", &files),
        Load::Script(script) if script == "echo nginx"
    ));
    assert!(matches!(
        probe_until_loaded(&mut loader, "a.sh", &files),
        Load::Script(script) if script == "echo a"
    ));
    // What was learned is kept: the script is found again without a probe.
    assert!(matches!(loader.load("pkg/nginx.sh"), Load::Script(script) if script == "echo nginx"));
    assert!(matches!(loader.load("a.sh"), Load::Script(script) if script == "echo a"));
}

#[test]
fn unit_files_hold_scripts_by_name() {
    let files = [
        ("/units/all.sysu", Probe::File("# [ web ]\necho web\n# [ db ]\necho db\n".to_string())),
    ];
    let mut loader = Loader::from_search_paths(vec!["/units".to_string()]);
    assert!(matches!(
        probe_until_loaded(&mut loader, "all.sysu/db", &files),
        Load::Script(script) if script == "echo db\n"
    ));
    assert!(matches!(loader.load("all.sysu/web"), Load::Script(script) if script == "echo web\n"));
    assert!(matches!(
        loader.load("all.sysu/cache"),
        Load::Failed(Error::NotInUnitFile { name, file }) if name == "cache" && file == "/units/all.sysu"
    ));
    assert!(matches!(loader.load("all.sysu"), Load::Failed(Error::NotAScript(name)) if name == "all.sysu"));
    assert!(matches!(
        loader.load("all.sysu/web/deeper"),
        Load::Failed(Error::NotAScript(name)) if name == "all.sysu/web/deeper"
    ));
}

#[test]
fn what_is_no_script_is_not_loaded() {
    let files = [
        ("/units/dir", Probe::Directory),
        ("/units/notes.txt", Probe::File("text".to_string())),
    ];
    let mut loader = Loader::from_search_paths(vec!["/units".to_string(), "/more".to_string()]);
    assert!(matches!(
        probe_until_loaded(&mut loader, "missing.sh", &files),
        Load::Failed(Error::NotFound { name, search_paths })
            if name == "missing.sh" && search_paths == vec!["/units", "/more"]
    ));
    assert!(matches!(
        probe_until_loaded(&mut loader, "dir", &files),
        Load::Failed(Error::NotAScript(name)) if name == "dir"
    ));
    assert!(matches!(
        probe_until_loaded(&mut loader, "notes.txt", &files),
        Load::Failed(Error::InvalidExtension(path)) if path == "/units/notes.txt"
    ));
    assert!(matches!(
        probe_until_loaded(&mut loader, "", &files),
        Load::Failed(Error::NotAScript(name)) if name.is_empty()
    ));
    let nowhere = Loader::from_search_paths(vec![]);
    assert!(matches!(nowhere.load("a.sh"), Load::Failed(Error::NotFound { .. })));
}
