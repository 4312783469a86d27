//! Parameters are the specifications for arguments that units can receive.

use super::val::ValueType;
use vstd::prelude::*;

verus! {

/// A parameter that a unit declares: its name, the type of value it takes, and
/// whether an argument for it must be given.
#[derive(Debug, PartialEq, Eq)]
pub struct Param {
    pub name: String,
    pub value_type: ValueType,
    pub required: bool,
}

/// What a [`Param`] holds, as mathematics.
pub ghost struct ParamView {
    pub name: Seq<char>,
    pub value_type: ValueType,
    pub required: bool,
}

impl View for Param {
    type V = ParamView;

    open spec fn view(&self) -> ParamView {
        ParamView { name: self.name@, value_type: self.value_type, required: self.required }
    }
}

impl Clone for Param {
    fn clone(&self) -> (r: Self)
        ensures
            r@ == self@,
    {
        Param { name: self.name.clone(), value_type: self.value_type, required: self.required }
    }
}

} // verus!
