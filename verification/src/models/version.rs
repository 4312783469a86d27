//! Versions of units, and the specifications that dependencies may make of them.

use vstd::prelude::*;

verus! {

#[derive(Eq, PartialEq, Debug, Clone, Copy, Structural)]
pub enum Comparator {
    GreaterThan,
    GreaterThanOrEqual,
    LessThan,
    LessThanOrEqual,
    Equal,
}

#[derive(Eq, PartialEq, Debug, Clone, Copy)]
pub struct Version {
    pub major: u32,
    pub minor: Option<u32>,
    pub patch: Option<u32>,
}

#[derive(Eq, PartialEq, Debug, Clone, Copy)]
pub struct VersionSpecification {
    pub comparator: Option<Comparator>,
    pub version: Version,
}

} // verus!
