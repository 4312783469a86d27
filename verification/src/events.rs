//! Events are emitted to observers so the stages of engine and unit
//! execution can be reported to the command line, logging and telemetry.

use crate::models::operation::Operation;
use crate::models::stdout_data::StdoutData;
use crate::models::unit::Unit;
use crate::models::{opt_view, OpCompletion};
use vstd::prelude::*;

verus! {

/// Events that can be emitted by the engine
#[derive(Debug, Clone)]
pub enum Event {
    Resolving,
    Resolved(Vec<Unit>),
    Op(Unit, Operation, OpEvent),
    Debug(String),
    EngineSuccess,
    Error(String),
}

/// Events emitted while an operation is being executed on a unit
#[derive(Debug, Clone)]
pub enum OpEvent {
    Started,
    Output(StdoutData),
    Complete(OpCompletion),
    Error(String),
}

/// Reports events pertaining to the execution of one operation of one unit:
/// it binds the unit and the operation, so that call sites can post what
/// happens without repeating them.
#[derive(Debug)]
pub struct OpEventHandler {
    unit: Unit,
    op: Operation,
}

/// Whether two units have the same name, arguments and target.
pub open spec fn same_unit(a: Unit, b: Unit) -> bool {
    a.name@ == b.name@ && a.args@ == b.args@ && opt_view(a.target) == opt_view(b.target)
}

impl OpEventHandler {
    /// The unit that the handler reports on.
    pub closed spec fn unit(&self) -> Unit {
        self.unit
    }

    /// The operation that the handler reports on.
    pub closed spec fn op(&self) -> Operation {
        self.op
    }

    /// A handler for the operation `op` of `unit`.
    pub fn new(unit: Unit, op: Operation) -> (handler: Self)
        ensures
            handler.unit() == unit,
            handler.op() == op,
    {
        OpEventHandler { unit, op }
    }

    /// The event of the engine that reports `event` of the operation.
    pub fn handle(&self, event: OpEvent) -> (r: Event)
        ensures
            r matches Event::Op(unit, op, inner) && same_unit(unit, self.unit()) && op
                == self.op() && inner == event,
    {
        Event::Op(self.unit.clone(), self.op, event)
    }
}

/// The event with which the engine ends: success, or the error that stopped
/// it, as a message.
pub fn finalization_event(result: Result<(), String>) -> (event: Event)
    ensures
        match result {
            Ok(_) => event is EngineSuccess,
            Err(message) => event matches Event::Error(m) && m == message,
        },
{
    match result {
        Ok(_) => Event::EngineSuccess,
        Err(message) => Event::Error(message),
    }
}

} // verus!
