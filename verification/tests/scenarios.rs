use sysunit::engine::resolver::Resolver;
use sysunit::engine::runner::{
    accept_meta, dependency_units, load_step, prepare_check, Executions, LoadStep,
};
use sysunit::engine::shell_executor::adapter::adapters_from;
use sysunit::engine::shell_executor::decode;
use sysunit::engine::shell_executor::message_stream::MessageStream;
use sysunit::engine::shell_executor::stdout_data::{Produced, StdoutDataProducer};
use sysunit::engine::unit_execution::UnitExecution;
use sysunit::engine::{Engine, Opts};
use sysunit::error::Error;
use sysunit::events::{finalization_event, Event};
use sysunit::models::{OpCompletion, Operation, Target, Unit, Value, ValueSet};

/// What a unit writes for each of its operations.
struct Script {
    meta: &'static str,
    deps: &'static str,
    check: &'static str,
    apply: &'static str,
}

const A: Script = Script {
    meta: "\x01meta.params\x02\x03\n\x01status\x020\x03\n",
    deps: "\x01status\x020\x03\n",
    check: "checking\n\x01present\x02false\x03\n\x01status\x020\x03\n",
    apply: "installing\n\x01value.installed\x02\"yes\"\x03\n\x01status\x020\x03\n",
};

/// Reads the output of one operation, as it arrives in chunks of seven
/// bytes, and decodes it.
fn run(op: Operation, output: &str) -> Result<OpCompletion, Error> {
    let mut producer = StdoutDataProducer::new();
    let mut stream = MessageStream::new();
    let bytes = output.as_bytes();
    let mut read = 0;
    loop {
        match producer.next() {
            Produced::Data(data) => {
                if let Some((status, messages)) = stream.drain_messages(data)? {
                    return decode(op, status, messages);
                }
            }
            Produced::NeedMore => {
                if read == bytes.len() {
                    return Err(stream.unexpected_eof());
                }
                let end = (read + 7).min(bytes.len());
                producer.push(std::str::from_utf8(&bytes[read..end]).unwrap());
                read = end;
            }
            Produced::Malformed(error) => return Err(error),
        }
    }
}

fn unit(name: &str) -> Unit {
    Unit::new(name.to_string(), ValueSet::new(), Some(Target::new("local", None, "localhost")))
}

fn engine(operation: Operation) -> Engine {
    Engine::new(Opts {
        remove_deps: false,
        search_paths: vec![],
        operation,
        unit: unit("a.sh"),
        adapters: adapters_from(vec![]),
        debug: false,
    })
    .ok()
    .unwrap()
}

/// Loads a unit: its meta data first, then its dependencies.
fn load(unit: &Unit, script: &Script) -> Result<UnitExecution, Error> {
    let mut execution = UnitExecution::new("script".to_string());
    let mut steps = Vec::new();
    loop {
        let step = load_step(&execution);
        steps.push(step);
        match step {
            LoadStep::Meta => match run(Operation::Meta, script.meta)? {
                OpCompletion::Meta(_, meta) => accept_meta(unit, &mut execution, meta)?,
                other => panic!("{:?}", other),
            },
            LoadStep::Deps => match run(Operation::Deps, script.deps)? {
                OpCompletion::Deps(_, deps) => execution.store_deps(deps),
                other => panic!("{:?}", other),
            },
            LoadStep::Loaded => break,
        }
    }
    assert_eq!(steps, vec![LoadStep::Meta, LoadStep::Deps, LoadStep::Loaded]);
    Ok(execution)
}

#[test]
fn a_unit_that_is_not_present_is_applied() {
    let a = unit("a.sh");
    let plan = engine(Operation::Apply);
    assert!(plan.run_with_dependencies());

    let mut execution = load(&a, &A).unwrap();
    assert!(execution.get_deps().unwrap().units.is_empty());

    let present = match run(Operation::Check, A.check).unwrap() {
        OpCompletion::Check(_, present, values) => execution.check(present, &values),
        other => panic!("{:?}", other),
    };
    assert!(!present);
    assert_eq!(plan.run_unit(present), Some(Operation::Apply));

    match run(Operation::Apply, A.apply).unwrap() {
        OpCompletion::Apply(_, values) => execution.apply(&values),
        other => panic!("{:?}", other),
    }
    assert!(
        matches!(execution.emit_data().get("installed").unwrap(), Value::String(s) if s == "yes")
    );
    assert!(matches!(finalization_event(Ok(())), Event::EngineSuccess));
}

#[test]
fn a_unit_that_is_present_is_not_applied() {
    let plan = engine(Operation::Apply);
    let check = "\x01present\x02true\x03\n\x01status\x020\x03\n";
    match run(Operation::Check, check).unwrap() {
        OpCompletion::Check(_, present, _) => {
            assert!(present);
            assert_eq!(plan.run_unit(present), None);
        }
        other => panic!("{:?}", other),
    }
}

#[test]
fn a_dependent_captures_what_its_dependency_emitted() {
    let b_script = Script {
        meta: "\x01status\x020\x03\n",
        deps: "\x01dep\x02a.sh -> installed:int\x03\n\x01status\x020\x03\n",
        check: "\x01status\x020\x03\n",
        apply: "\x01status\x020\x03\n",
    };
    let a = unit("a.sh");
    let b = unit("b.sh");
    let mut executions = Executions::new();

    // The dependencies of b are asked for first, and those of a when the
    // resolver comes to it.
    let mut resolver = Resolver::new(b.clone());
    let mut asked = Vec::new();
    while resolver.next() {
        let node = resolver.node().unwrap().clone();
        asked.push(node.name.clone());
        let script = if node.name == "a.sh" { &A } else { &b_script };
        let execution = load(&node, script).unwrap();
        let dependencies = dependency_units(&node, execution.get_deps().unwrap());
        executions.insert(node, execution);
        resolver = resolver.supply(dependencies).ok().unwrap();
    }
    assert_eq!(asked, vec!["b.sh", "a.sh"]);
    let order: Vec<String> =
        resolver.into_ordered().iter().map(|unit| unit.name.clone()).collect();
    assert_eq!(order, vec!["a.sh", "b.sh"]);

    // a is applied and emits a value.
    let mut a_execution = executions.remove(&a).unwrap();
    let a_apply = "\x01value.installed\x021\x03\n\x01status\x020\x03\n";
    match run(Operation::Apply, a_apply).unwrap() {
        OpCompletion::Apply(_, values) => a_execution.apply(&values),
        other => panic!("{:?}", other),
    }
    executions.insert(a.clone(), a_execution);

    // Before the check of b its captures become arguments.
    let mut b_execution = executions.remove(&b).unwrap();
    let deps = b_execution.get_deps().unwrap().clone();
    assert!(executions.has_all(&b, &deps));
    prepare_check(&b, &deps, &mut b_execution, &executions).unwrap();
    assert_eq!(b_execution.args().len(), 1);
    assert!(matches!(b_execution.args().get("installed").unwrap(), Value::Int(1)));
}

#[test]
fn a_missing_required_argument_stops_the_unit_before_its_check() {
    let script = Script {
        meta: "\x01meta.params\x02!name:string\x03\n\x01status\x020\x03\n",
        deps: "\x01status\x020\x03\n",
        check: "\x01status\x020\x03\n",
        apply: "\x01status\x020\x03\n",
    };
    let error = load(&unit("u.sh"), &script).err().unwrap();
    assert_eq!(error, Error::MissingParameter("name".to_string()));
    assert_eq!(error.to_string(), "Missing required parameter: name");
    assert!(matches!(
        finalization_event(Err(error.to_string())),
        Event::Error(message) if message == "Missing required parameter: name"
    ));
}

#[test]
fn a_status_other_than_zero_fails_the_operation() {
    let apply = "\x01value.x\x02\"1\"\x03\n\x01status\x022\x03\n";
    let error = run(Operation::Apply, apply).unwrap_err();
    assert_eq!(error, Error::OperationFailed(2));
    assert!(matches!(finalization_event(Err(error.to_string())), Event::Error(_)));
}

#[test]
fn output_that_ends_before_the_status_is_an_error() {
    assert_eq!(run(Operation::Check, "half a line").unwrap_err(), Error::UnexpectedEof);
    assert_eq!(run(Operation::Check, "\x01present\x02true\x03\n").unwrap_err(), Error::UnexpectedEof);
    assert_eq!(run(Operation::Check, "").unwrap_err(), Error::UnexpectedEof);
}
