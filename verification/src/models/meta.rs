//! Contains the meta data emitted from a unit.

use super::params::{Param, ParamView};
use super::{clone_opt, opt_view, seq_view};
use vstd::prelude::*;

verus! {

#[derive(Debug, PartialEq, Eq)]
pub struct Meta {
    pub author: Option<String>,
    pub desc: Option<String>,
    pub version: Option<String>,
    pub params: Vec<Param>,
}

/// What a [`Meta`] holds, as mathematics.
pub ghost struct MetaView {
    pub author: Option<Seq<char>>,
    pub desc: Option<Seq<char>>,
    pub version: Option<Seq<char>>,
    pub params: Seq<ParamView>,
}

impl MetaView {
    /// Meta data that says nothing and declares no parameter.
    pub open spec fn empty() -> MetaView {
        MetaView { author: None, desc: None, version: None, params: Seq::empty() }
    }
}

impl View for Meta {
    type V = MetaView;

    open spec fn view(&self) -> MetaView {
        MetaView {
            author: opt_view(self.author),
            desc: opt_view(self.desc),
            version: opt_view(self.version),
            params: seq_view(self.params@),
        }
    }
}

/// A copy of a list of parameters.
pub fn clone_params(params: &Vec<Param>) -> (r: Vec<Param>)
    ensures
        seq_view(r@) == seq_view(params@),
{
    let mut r: Vec<Param> = Vec::new();
    let mut i: usize = 0;
    while i < params.len()
        invariant
            i <= params@.len(),
            r@.len() == i,
            forall|j: int| 0 <= j < i ==> (#[trigger] r@[j])@ == params@[j]@,
        decreases params@.len() - i,
    {
        r.push(params[i].clone());
        i = i + 1;
    }
    assert(seq_view(r@) =~= seq_view(params@));
    r
}

impl Clone for Meta {
    fn clone(&self) -> (r: Self)
        ensures
            r@ == self@,
    {
        Meta {
            author: clone_opt(&self.author),
            desc: clone_opt(&self.desc),
            version: clone_opt(&self.version),
            params: clone_params(&self.params),
        }
    }
}

impl Meta {
    pub fn empty() -> (m: Meta)
        ensures
            m@ == MetaView::empty(),
    {
        let m = Meta { author: None, desc: None, version: None, params: Vec::new() };
        assert(seq_view(m.params@) =~= Seq::<ParamView>::empty());
        m
    }
}

} // verus!
