//! Where a unit is to be executed.

use super::{clone_opt, opt_view, own_opt};
use vstd::prelude::*;
use vstd::string::StringExecFns;

verus! {

/// A destination for script execution: a protocol, a host and, optionally, a
/// user on that host.
#[derive(Debug, PartialEq, Eq)]
pub struct Target {
    pub proto: String,
    pub user: Option<String>,
    pub host: String,
}

/// What a [`Target`] holds, as mathematics.
pub ghost struct TargetView {
    pub proto: Seq<char>,
    pub user: Option<Seq<char>>,
    pub host: Seq<char>,
}

impl TargetView {
    /// `user@host`, or the host alone where there is no user.
    pub open spec fn user_host(self) -> Seq<char> {
        match self.user {
            Some(user) => user + "@"@ + self.host,
            None => self.host,
        }
    }

    /// The display form, `proto://[user@]host`.
    pub open spec fn text(self) -> Seq<char> {
        self.proto + "://"@ + self.user_host()
    }
}

impl View for Target {
    type V = TargetView;

    open spec fn view(&self) -> TargetView {
        TargetView { proto: self.proto@, user: opt_view(self.user), host: self.host@ }
    }
}

impl Clone for Target {
    fn clone(&self) -> (r: Self)
        ensures
            r@ == self@,
    {
        Target { proto: self.proto.clone(), user: clone_opt(&self.user), host: self.host.clone() }
    }
}

impl Target {
    pub fn new(proto: &str, user: Option<&str>, host: &str) -> (t: Self)
        ensures
            t@ == (TargetView {
                proto: proto@,
                user: match user {
                    Some(u) => Some(u@),
                    None => None,
                },
                host: host@,
            }),
    {
        Target { proto: proto.to_owned(), user: own_opt(user), host: host.to_owned() }
    }

    /// `user@host`, or the host alone where there is no user.
    pub fn user_host_string(&self) -> (s: String)
        ensures
            s@ == self@.user_host(),
    {
        match &self.user {
            Some(user) => {
                let mut s = user.clone();
                s.append("@");
                s.append(self.host.as_str());
                s
            },
            None => self.host.clone(),
        }
    }

    /// The display form, `proto://[user@]host`.
    pub fn to_string(&self) -> (s: String)
        ensures
            s@ == self@.text(),
    {
        let mut s = self.proto.clone();
        s.append("://");
        let rest = self.user_host_string();
        s.append(rest.as_str());
        s
    }

    /// Whether two targets are the same: protocol, user and host all agree.
    pub fn same(&self, other: &Target) -> (r: bool)
        ensures
            r == (self@ == other@),
    {
        let users = match (&self.user, &other.user) {
            (Some(a), Some(b)) => *a == *b,
            (None, None) => true,
            _ => false,
        };
        self.proto == other.proto && users && self.host == other.host
    }
}

/// Whether two optional targets are the same.
pub fn same_target(a: &Option<Target>, b: &Option<Target>) -> (r: bool)
    ensures
        r == (opt_view(*a) == opt_view(*b)),
{
    match (a, b) {
        (Some(x), Some(y)) => x.same(y),
        (None, None) => true,
        _ => false,
    }
}

/// A copy of an optional target.
pub fn clone_target(t: &Option<Target>) -> (r: Option<Target>)
    ensures
        opt_view(r) == opt_view(*t),
{
    match t {
        Some(x) => Some(x.clone()),
        None => None,
    }
}

} // verus!
