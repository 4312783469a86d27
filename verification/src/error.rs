//! What can go wrong, by kind.

use crate::models::emit::Header;
use crate::models::seq_view;
use crate::models::val::ValueType;
use crate::text::{decimal, push_decimal, push_signed_decimal, signed_decimal};
use vstd::prelude::*;
use vstd::string::StringExecFns;

verus! {

/// Dependencies that lead back to a node on which they depend: the node
/// that closes the cycle, and the nodes that were put in order before it was
/// met.
#[derive(Debug, PartialEq, Eq)]
pub struct CircularDependencyError {
    pub preceeding_nodes: Vec<String>,
    pub node_id: String,
}

/// The texts of `items`, each but the first after `separator`.
pub open spec fn joined(items: Seq<Seq<char>>, separator: Seq<char>) -> Seq<char>
    decreases items.len(),
{
    if items.len() == 0 {
        Seq::<char>::empty()
    } else if items.len() == 1 {
        items[0]
    } else {
        joined(items.drop_last(), separator) + separator + items.last()
    }
}

/// Joins `items` with `separator` between them.
pub fn join(items: &Vec<String>, separator: &str) -> (r: String)
    ensures
        r@ == joined(seq_view(items@), separator@),
{
    let ghost all = seq_view(items@);
    let mut r = String::new();
    let mut i: usize = 0;
    assert(all.take(0) =~= Seq::<Seq<char>>::empty());
    while i < items.len()
        invariant
            i <= items@.len(),
            all == seq_view(items@),
            r@ == joined(all.take(i as int), separator@),
        decreases items@.len() - i,
    {
        if i > 0 {
            r.append(separator);
        }
        r.append(items[i].as_str());
        proof {
            let longer = all.take(i + 1);
            assert(longer.drop_last() =~= all.take(i as int));
            assert(longer.last() == items@[i as int]@);
            if i == 0 {
                assert(r@ =~= longer[0]);
            }
        }
        i = i + 1;
    }
    assert(all.take(items@.len() as int) =~= all);
    r
}

impl CircularDependencyError {
    /// The message of the error.
    pub open spec fn text(self) -> Seq<char> {
        "Circular dependency detected: "@ + self.node_id@ + ". stack: "@ + joined(
            seq_view(self.preceeding_nodes@),
            " -> "@,
        )
    }

    /// The message of the error: the node that closes the cycle, and the
    /// nodes before it.
    pub fn to_string(&self) -> (s: String)
        ensures
            s@ == self.text(),
    {
        let mut s = String::from_str("Circular dependency detected: ");
        s.append(self.node_id.as_str());
        s.append(". stack: ");
        let stack = join(&self.preceeding_nodes, " -> ");
        s.append(stack.as_str());
        s
    }
}

/// The errors of the engine.
#[derive(Debug, PartialEq, Eq)]
pub enum Error {
    /// A command line that asks for what cannot be had together, or leaves
    /// out what is needed.
    Usage(String),
    /// No script was found for a unit's name; the search paths are listed.
    NotFound { name: String, search_paths: Vec<String> },
    /// A name led to something that is not a script.
    NotAScript(String),
    /// A file that is neither a script nor a unit file.
    InvalidExtension(String),
    /// A unit file does not define the unit asked of it.
    NotInUnitFile { name: String, file: String },
    /// Text that does not follow its grammar. `position` counts the
    /// characters of `input` before the place where it stops following it.
    Parse { input: String, position: usize },
    /// A word that names no type of value.
    InvalidType(String),
    /// The body of a status message that is no exit code.
    InvalidStatusCode(String),
    /// The body of a presence message that is neither `true` nor `false`.
    InvalidPresence(String),
    /// The output of a unit ended in the middle of an operation.
    UnexpectedEof,
    /// A message whose header the operation at hand does not allow.
    UnexpectedMessage(Header),
    /// A message that needs a field in its header and has none.
    MissingField(Header),
    /// A second presence message in one check.
    DuplicatePresence,
    /// A required parameter without an argument.
    MissingParameter(String),
    /// An argument for which no parameter is declared.
    UnknownParameter(String),
    /// An argument whose value is not of the type that its parameter declares.
    ArgumentType { name: String, found: ValueType, expected: ValueType },
    /// A dependency did not emit a value that a capture asks for.
    MissingCapture { unit: String, dependency: String, capture: String },
    /// A dependency emitted a value of another type than the capture declares.
    CaptureType { capture: String, dependency: String, found: ValueType, expected: ValueType },
    /// A file dependency without its `src` or `dest` argument; the field
    /// names the one that is missing.
    MissingFileArgument(String),
    /// No adapter is known for the protocol of a target; the field is the
    /// target as displayed.
    NoAdapter(String),
    /// The `local` protocol was asked for a host other than `localhost`.
    NotLocal(String),
    /// No command is known that carries files to a target of this protocol.
    NoTransport(String),
    /// The process of an adapter ended with a code other than 0.
    AdapterExit { code: i32, stderr: String },
    /// Dependencies that lead back to a unit on which they depend.
    CircularDependency(CircularDependencyError),
    /// An operation of a unit ended with a status other than 0.
    OperationFailed(u8),
}


impl Error {
    /// The message of the error.
    pub open spec fn text(self) -> Seq<char> {
        match self {
            Error::Usage(message) => message@,
            Error::NotFound { name, search_paths } => "Could not find script at location: "@
                + name@ + " in search paths: "@ + joined(seq_view(search_paths@), ":"@),
            Error::NotAScript(name) => name@ + " is not a unit script"@,
            Error::InvalidExtension(path) => "Invalid file extension on file: "@ + path@,
            Error::NotInUnitFile { name, file } => "Could not find script: "@ + name@
                + " in unitfile: "@ + file@,
            Error::Parse { input, position } => "Failed to parse: "@ + input@ + " at position "@
                + decimal(position as nat),
            Error::InvalidType(name) => "Invalid type: "@ + name@,
            Error::InvalidStatusCode(text) => "Failed to parse emitted status code string: "@
                + text@,
            Error::InvalidPresence(text) =>
                "Could not parse present message body, expected 'true' or 'false', got: "@
                + text@,
            Error::UnexpectedEof => "Unexpected EOF parsing output stream"@,
            Error::UnexpectedMessage(header) => "Unexpected message type: "@ + header@.text(),
            Error::MissingField(header) => header@.name + " message missing field"@,
            Error::DuplicatePresence => "Multiple presence messages in check operation"@,
            Error::MissingParameter(name) => "Missing required parameter: "@ + name@,
            Error::UnknownParameter(name) => "Parameter "@ + name@
                + " is provided, but not accepted"@,
            Error::ArgumentType { name, found, expected } => "Argument "@ + name@
                + " is of type, "@ + found.name() + " not "@ + expected.name()
                + " as expected"@,
            Error::MissingCapture { unit, dependency, capture } => "Unit "@ + unit@
                + " expected its dependency "@ + dependency@
                + " to emit a value for capture: "@ + capture@,
            Error::CaptureType { capture, dependency, found, expected } => "Capture "@
                + capture@ + " from "@ + dependency@ + " is of type "@ + found.name()
                + " not "@ + expected.name() + " as expected"@,
            Error::MissingFileArgument(which) => "File dependency missing "@ + which@
                + " argument"@,
            Error::NoAdapter(target) => "No adapter found for target: "@ + target@,
            Error::NotLocal(host) => "The local protocol reaches localhost only, not "@ + host@,
            Error::NoTransport(proto) => "Unsupported transport protocol: "@ + proto@,
            Error::AdapterExit { code, stderr } => "adapter exited with status code "@
                + signed_decimal(code as int) + " "@ + stderr@,
            Error::CircularDependency(cycle) => cycle.text(),
            Error::OperationFailed(code) => "Operation failed on unit.  Status: "@ + decimal(
                code as nat,
            ),
        }
    }

    /// The message of the error, for display.
    pub fn to_string(&self) -> (s: String)
        ensures
            s@ == self.text(),
    {
        match self {
            Error::Usage(message) => message.clone(),
            Error::NotFound { name, search_paths } => {
                let mut s = String::from_str("Could not find script at location: ");
                s.append(name.as_str());
                s.append(" in search paths: ");
                let paths = join(search_paths, ":");
                s.append(paths.as_str());
                s
            },
            Error::NotAScript(name) => {
                let mut s = name.clone();
                s.append(" is not a unit script");
                s
            },
            Error::InvalidExtension(path) => {
                let mut s = String::from_str("Invalid file extension on file: ");
                s.append(path.as_str());
                s
            },
            Error::NotInUnitFile { name, file } => {
                let mut s = String::from_str("Could not find script: ");
                s.append(name.as_str());
                s.append(" in unitfile: ");
                s.append(file.as_str());
                s
            },
            Error::Parse { input, position } => {
                let mut s = String::from_str("Failed to parse: ");
                s.append(input.as_str());
                s.append(" at position ");
                push_decimal(&mut s, *position as u64);
                s
            },
            Error::InvalidType(name) => {
                let mut s = String::from_str("Invalid type: ");
                s.append(name.as_str());
                s
            },
            Error::InvalidStatusCode(text) => {
                let mut s = String::from_str("Failed to parse emitted status code string: ");
                s.append(text.as_str());
                s
            },
            Error::InvalidPresence(text) => {
                let mut s = String::from_str(
                    "Could not parse present message body, expected 'true' or 'false', got: ",
                );
                s.append(text.as_str());
                s
            },
            Error::UnexpectedEof => String::from_str("Unexpected EOF parsing output stream"),
            Error::UnexpectedMessage(header) => {
                let mut s = String::from_str("Unexpected message type: ");
                let shown = header.to_string();
                s.append(shown.as_str());
                s
            },
            Error::MissingField(header) => {
                let mut s = header.name.clone();
                s.append(" message missing field");
                s
            },
            Error::DuplicatePresence => String::from_str(
                "Multiple presence messages in check operation",
            ),
            Error::MissingParameter(name) => {
                let mut s = String::from_str("Missing required parameter: ");
                s.append(name.as_str());
                s
            },
            Error::UnknownParameter(name) => {
                let mut s = String::from_str("Parameter ");
                s.append(name.as_str());
                s.append(" is provided, but not accepted");
                s
            },
            Error::ArgumentType { name, found, expected } => {
                let mut s = String::from_str("Argument ");
                s.append(name.as_str());
                s.append(" is of type, ");
                let f = found.to_string();
                s.append(f.as_str());
                s.append(" not ");
                let x = expected.to_string();
                s.append(x.as_str());
                s.append(" as expected");
                s
            },
            Error::MissingCapture { unit, dependency, capture } => {
                let mut s = String::from_str("Unit ");
                s.append(unit.as_str());
                s.append(" expected its dependency ");
                s.append(dependency.as_str());
                s.append(" to emit a value for capture: ");
                s.append(capture.as_str());
                s
            },
            Error::CaptureType { capture, dependency, found, expected } => {
                let mut s = String::from_str("Capture ");
                s.append(capture.as_str());
                s.append(" from ");
                s.append(dependency.as_str());
                s.append(" is of type ");
                let f = found.to_string();
                s.append(f.as_str());
                s.append(" not ");
                let x = expected.to_string();
                s.append(x.as_str());
                s.append(" as expected");
                s
            },
            Error::MissingFileArgument(which) => {
                let mut s = String::from_str("File dependency missing ");
                s.append(which.as_str());
                s.append(" argument");
                s
            },
            Error::NoAdapter(target) => {
                let mut s = String::from_str("No adapter found for target: ");
                s.append(target.as_str());
                s
            },
            Error::NotLocal(host) => {
                let mut s = String::from_str("The local protocol reaches localhost only, not ");
                s.append(host.as_str());
                s
            },
            Error::NoTransport(proto) => {
                let mut s = String::from_str("Unsupported transport protocol: ");
                s.append(proto.as_str());
                s
            },
            Error::AdapterExit { code, stderr } => {
                let mut s = String::from_str("adapter exited with status code ");
                push_signed_decimal(&mut s, *code);
                s.append(" ");
                s.append(stderr.as_str());
                s
            },
            Error::CircularDependency(cycle) => cycle.to_string(),
            Error::OperationFailed(code) => {
                let mut s = String::from_str("Operation failed on unit.  Status: ");
                push_decimal(&mut s, *code as u64);
                s
            },
        }
    }
}

} // verus!
