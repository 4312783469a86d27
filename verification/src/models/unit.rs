//! Represents a unit of change to the system.
//!
//! Units are identified uniquely by their name and arguments.

use super::opt_view;
use crate::engine::resolver::ResolvableNode;
use super::target::{clone_target, Target};
use super::val::{listing, signature, tag_text, ValueSet, ValueView};
use vstd::prelude::*;
use vstd::string::StringExecFns;

verus! {

/// A Unit represents a single unit of change to be applied to the system. It
/// is identified by its name and arguments. Many unit values may exist with
/// the same identity; they resolve to the same execution, so each unit is only
/// run once.
#[derive(Debug)]
pub struct Unit {
    pub name: String,
    /// The arguments provided for the unit's invocation
    pub args: ValueSet,
    pub target: Option<Target>,
}

/// The identity of a unit with this name and these arguments: the name, `-`
/// and the signature of the arguments.
pub open spec fn unit_id(name: Seq<char>, args: Map<Seq<char>, ValueView>) -> Seq<char> {
    name + "-"@ + signature(args)
}

/// The display tag of a unit: `name(args)`, the arguments in their tag form.
pub open spec fn unit_tag(name: Seq<char>, args: Map<Seq<char>, ValueView>) -> Seq<char> {
    name + "("@ + tag_text(listing(args)) + ")"@
}

impl Unit {
    pub fn new(name: String, args: ValueSet, target: Option<Target>) -> (u: Unit)
        ensures
            u.name == name,
            u.args == args,
            u.target == target,
    {
        Unit { name, args, target }
    }

    /// The identity of the unit.
    pub open spec fn id(&self) -> Seq<char> {
        unit_id(self.name@, self.args@)
    }

    /// The identity of the unit: its name, `-` and the signature of its
    /// arguments.
    pub fn get_id(&self) -> (id: String)
        ensures
            id@ == self.id(),
    {
        let mut id = self.name.clone();
        id.append("-");
        let sig = self.args.get_sig();
        id.append(sig.as_str());
        id
    }

    /// Renders the unit in the form of `unit-name(arg1=val1arg2=val2)`, long
    /// values cut short.
    pub fn tag(&self) -> (tag: String)
        ensures
            tag@ == unit_tag(self.name@, self.args@),
    {
        let mut tag = self.name.clone();
        tag.append("(");
        let args = self.args.tag();
        tag.append(args.as_str());
        tag.append(")");
        tag
    }

    /// The display form of the unit, which is its identity.
    pub fn to_string(&self) -> (s: String)
        ensures
            s@ == self.id(),
    {
        self.get_id()
    }

    /// Whether two units denote the same execution: whether their identities
    /// agree.
    pub fn same(&self, other: &Unit) -> (r: bool)
        ensures
            r == (self.id() == other.id()),
    {
        self.get_id() == other.get_id()
    }
}

impl Clone for Unit {
    fn clone(&self) -> (r: Self)
        ensures
            r.name@ == self.name@,
            r.args@ == self.args@,
            opt_view(r.target) == opt_view(self.target),
            r.id() == self.id(),
    {
        Unit { name: self.name.clone(), args: self.args.clone(), target: clone_target(&self.target) }
    }
}

impl ResolvableNode for Unit {
    fn get_id(&self) -> (id: String)
        ensures
            id@ == self.id(),
    {
        Unit::get_id(self)
    }
}

/// Definitions represent the combination of name and script from which units
/// are instantiated. Single-file units are loaded directly from the file
/// system, but unit files need a mapping of names to script.
#[derive(Debug)]
pub struct UnitDefinition {
    pub name: String,
    pub script: String,
}

} // verus!
