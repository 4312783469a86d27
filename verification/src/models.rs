//! Data models for the entities that the engine deals with.

pub mod dep;
pub mod emit;
pub mod meta;
pub mod operation;
pub mod params;
pub mod stdout_data;
pub mod target;
pub mod unit;
pub mod val;
pub mod version;

pub use dep::{CaptureDefinition, Dependencies, Dependency, FileDependency};
pub use emit::Message as EmitMessage;
pub use meta::Meta;
pub use operation::{CheckPresence, OpCompletion, OpStatus, Operation};
pub use params::Param;
pub use stdout_data::StdoutData;
pub use target::Target;
pub use unit::Unit;
pub use val::{Value, ValueSet, ValueType};

use vstd::prelude::*;

verus! {

/// The view of what an optional value holds, if it holds one.
pub open spec fn opt_view<T: View>(o: Option<T>) -> Option<T::V> {
    match o {
        Some(x) => Some(x@),
        None => None,
    }
}

/// The views of the items of a sequence, in order.
pub open spec fn seq_view<T: View>(s: Seq<T>) -> Seq<T::V> {
    s.map_values(|x: T| x@)
}

/// A copy of an optional string.
pub fn clone_opt(o: &Option<String>) -> (r: Option<String>)
    ensures
        opt_view(r) == opt_view(*o),
{
    match o {
        Some(s) => Some(s.clone()),
        None => None,
    }
}

/// An owned copy of an optional piece of text.
pub fn own_opt(o: Option<&str>) -> (r: Option<String>)
    ensures
        opt_view(r) == match o {
            Some(s) => Some(s@),
            None => None,
        },
{
    match o {
        Some(s) => Some(s.to_owned()),
        None => None,
    }
}

} // verus!
