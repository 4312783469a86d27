//! Representation of what a unit depends on.

use super::target::{clone_target, Target, TargetView};
use super::val::{ValueSet, ValueType, ValueView};
use super::{clone_opt, opt_view, seq_view};
use crate::error::Error;
use vstd::prelude::*;
use vstd::string::StringExecFns;

verus! {

/// The units and the files that a unit depends on.
#[derive(Debug)]
pub struct Dependencies {
    pub units: Vec<Dependency>,
    pub files: Vec<FileDependency>,
}

/// When one unit depends on another, its name, args and captures must be
/// tracked.
#[derive(Debug)]
pub struct Dependency {
    pub name: String,
    pub args: ValueSet,
    pub captures: Vec<CaptureDefinition>,
    pub target: Option<Target>,
}

/// An emitted value which the dependent unit captures from a dependency,
/// under the name of its alias if it has one.
#[derive(Debug, PartialEq, Eq)]
pub struct CaptureDefinition {
    pub name: String,
    pub value_type: ValueType,
    pub required: bool,
    pub alias: Option<String>,
}

/// A file that a unit depends on.
#[derive(Debug, PartialEq, Eq)]
pub struct FileDependency {
    pub src: String,
    pub dest: String,
}

/// What a [`CaptureDefinition`] holds, as mathematics.
pub ghost struct CaptureView {
    pub name: Seq<char>,
    pub value_type: ValueType,
    pub required: bool,
    pub alias: Option<Seq<char>>,
}

impl CaptureView {
    /// The name under which the captured value reaches the dependent unit.
    pub open spec fn bound_name(self) -> Seq<char> {
        match self.alias {
            Some(alias) => alias,
            None => self.name,
        }
    }
}

/// What a [`Dependency`] holds, as mathematics.
pub ghost struct DependencyView {
    pub name: Seq<char>,
    pub args: Map<Seq<char>, ValueView>,
    pub captures: Seq<CaptureView>,
    pub target: Option<TargetView>,
}

/// What a [`FileDependency`] holds, as mathematics.
pub ghost struct FileDependencyView {
    pub src: Seq<char>,
    pub dest: Seq<char>,
}

/// What a [`Dependencies`] holds, as mathematics.
pub ghost struct DependenciesView {
    pub units: Seq<DependencyView>,
    pub files: Seq<FileDependencyView>,
}

impl View for CaptureDefinition {
    type V = CaptureView;

    open spec fn view(&self) -> CaptureView {
        CaptureView {
            name: self.name@,
            value_type: self.value_type,
            required: self.required,
            alias: opt_view(self.alias),
        }
    }
}

impl View for Dependency {
    type V = DependencyView;

    open spec fn view(&self) -> DependencyView {
        DependencyView {
            name: self.name@,
            args: self.args@,
            captures: seq_view(self.captures@),
            target: opt_view(self.target),
        }
    }
}

impl View for FileDependency {
    type V = FileDependencyView;

    open spec fn view(&self) -> FileDependencyView {
        FileDependencyView { src: self.src@, dest: self.dest@ }
    }
}

impl View for Dependencies {
    type V = DependenciesView;

    open spec fn view(&self) -> DependenciesView {
        DependenciesView { units: seq_view(self.units@), files: seq_view(self.files@) }
    }
}

impl Clone for CaptureDefinition {
    fn clone(&self) -> (r: Self)
        ensures
            r@ == self@,
    {
        CaptureDefinition {
            name: self.name.clone(),
            value_type: self.value_type,
            required: self.required,
            alias: clone_opt(&self.alias),
        }
    }
}

impl Clone for FileDependency {
    fn clone(&self) -> (r: Self)
        ensures
            r@ == self@,
    {
        FileDependency { src: self.src.clone(), dest: self.dest.clone() }
    }
}

/// A copy of a list of captures.
pub fn clone_captures(captures: &Vec<CaptureDefinition>) -> (r: Vec<CaptureDefinition>)
    ensures
        seq_view(r@) == seq_view(captures@),
{
    let mut r: Vec<CaptureDefinition> = Vec::new();
    let mut i: usize = 0;
    while i < captures.len()
        invariant
            i <= captures@.len(),
            r@.len() == i,
            forall|j: int| 0 <= j < i ==> (#[trigger] r@[j])@ == captures@[j]@,
        decreases captures@.len() - i,
    {
        r.push(captures[i].clone());
        i = i + 1;
    }
    assert(seq_view(r@) =~= seq_view(captures@));
    r
}

impl Clone for Dependency {
    fn clone(&self) -> (r: Self)
        ensures
            r@ == self@,
    {
        Dependency {
            name: self.name.clone(),
            args: self.args.clone(),
            captures: clone_captures(&self.captures),
            target: clone_target(&self.target),
        }
    }
}

impl Clone for Dependencies {
    fn clone(&self) -> (r: Self)
        ensures
            r@ == self@,
    {
        let mut units: Vec<Dependency> = Vec::new();
        let mut i: usize = 0;
        while i < self.units.len()
            invariant
                i <= self.units@.len(),
                units@.len() == i,
                forall|j: int| 0 <= j < i ==> (#[trigger] units@[j])@ == self.units@[j]@,
            decreases self.units@.len() - i,
        {
            units.push(self.units[i].clone());
            i = i + 1;
        }
        let mut files: Vec<FileDependency> = Vec::new();
        let mut k: usize = 0;
        while k < self.files.len()
            invariant
                k <= self.files@.len(),
                files@.len() == k,
                forall|j: int| 0 <= j < k ==> (#[trigger] files@[j])@ == self.files@[j]@,
            decreases self.files@.len() - k,
        {
            files.push(self.files[k].clone());
            k = k + 1;
        }
        assert(seq_view(units@) =~= seq_view(self.units@));
        assert(seq_view(files@) =~= seq_view(self.files@));
        Dependencies { units, files }
    }
}

impl Dependencies {
    /// No dependencies at all.
    pub fn new() -> (d: Dependencies)
        ensures
            d@.units == Seq::<DependencyView>::empty(),
            d@.files == Seq::<FileDependencyView>::empty(),
    {
        let d = Dependencies { units: Vec::new(), files: Vec::new() };
        assert(seq_view(d.units@) =~= Seq::<DependencyView>::empty());
        assert(seq_view(d.files@) =~= Seq::<FileDependencyView>::empty());
        d
    }
}

impl FileDependency {
    /// The file dependency that the arguments `src` and `dest` describe, each
    /// by its display text. Whichever is missing is named in the error, `src`
    /// first.
    pub fn from_args(args: ValueSet) -> (r: Result<FileDependency, Error>)
        ensures
            match r {
                Ok(file) => args@.contains_key("src"@) && args@.contains_key("dest"@) && file@ == (
                FileDependencyView { src: args@["src"@].text(), dest: args@["dest"@].text() }),
                Err(e) => {
                    &&& e matches Error::MissingFileArgument(which)
                    &&& if !args@.contains_key("src"@) {
                        which@ == "src"@
                    } else {
                        !args@.contains_key("dest"@) && which@ == "dest"@
                    }
                },
            },
    {
        let src = match args.get("src") {
            Some(value) => value.to_string(),
            None => {
                return Err(Error::MissingFileArgument(String::from_str("src")));
            },
        };
        let dest = match args.get("dest") {
            Some(value) => value.to_string(),
            None => {
                return Err(Error::MissingFileArgument(String::from_str("dest")));
            },
        };
        Ok(FileDependency { src, dest })
    }
}

} // verus!
