//! Parses targets: `proto://[user@]host`.

use super::common::{is_parse_error, label_at, label_from, outcome, parse_error};
use crate::error::Error;
use crate::models::target::{Target, TargetView};
use crate::text::{char_at, has_char, has_tag, tag_at, CharClass, Text};
use vstd::prelude::*;

verus! {

/// A protocol at `i`: a label and `://`.
pub open spec fn proto_at(s: Seq<char>, i: int) -> Option<(int, Seq<char>)> {
    match label_at(s, i, CharClass::Label) {
        Some((next, name)) => if has_tag(s, next, "://"@) {
            Some((next + 3, name))
        } else {
            None
        },
        None => None,
    }
}

/// A user at `i`: a label and `@`.
pub open spec fn user_at(s: Seq<char>, i: int) -> Option<(int, Seq<char>)> {
    match label_at(s, i, CharClass::Label) {
        Some((next, name)) => if has_char(s, next, '@') {
            Some((next + 1, name))
        } else {
            None
        },
        None => None,
    }
}

/// A target at `i`: a protocol, a user where one is given, and a host.
pub open spec fn target_at(s: Seq<char>, i: int) -> Option<(int, TargetView)> {
    match proto_at(s, i) {
        Some((after_proto, proto)) => {
            let (host_from, user) = match user_at(s, after_proto) {
                Some((after_user, user)) => (after_user, Some(user)),
                None => (after_proto, None),
            };
            match label_at(s, host_from, CharClass::Label) {
                Some((next, host)) => Some((next, TargetView { proto, user, host })),
                None => None,
            }
        },
        None => None,
    }
}

/// Reads a protocol at position `i`.
pub fn proto_from(t: &Text, i: usize) -> (r: Option<(usize, String)>)
    requires
        i <= t@.len(),
    ensures
        match r {
            Some((next, name)) => proto_at(t@, i as int) == Some((next as int, name@)) && i < next
                <= t@.len(),
            None => proto_at(t@, i as int) is None,
        },
{
    proof {
        reveal_strlit("://");
        assert("://"@.len() == 3);
    }
    let n = t.len();
    match label_from(t, i, CharClass::Label) {
        Some((next, name)) => if tag_at(t, next, "://") {
            Some((next + 3, name))
        } else {
            None
        },
        None => None,
    }
}

/// Reads a user at position `i`.
pub fn user_from(t: &Text, i: usize) -> (r: Option<(usize, String)>)
    requires
        i <= t@.len(),
    ensures
        match r {
            Some((next, name)) => user_at(t@, i as int) == Some((next as int, name@)) && i < next
                <= t@.len(),
            None => user_at(t@, i as int) is None,
        },
{
    let n = t.len();
    match label_from(t, i, CharClass::Label) {
        Some((next, name)) => if char_at(t, next, '@') {
            Some((next + 1, name))
        } else {
            None
        },
        None => None,
    }
}

/// Reads a target at position `i`.
pub fn target_from(t: &Text, i: usize) -> (r: Option<(usize, Target)>)
    requires
        i <= t@.len(),
    ensures
        match r {
            Some((next, target)) => target_at(t@, i as int) == Some((next as int, target@)) && i
                < next <= t@.len(),
            None => target_at(t@, i as int) is None,
        },
{
    match proto_from(t, i) {
        Some((after_proto, proto)) => {
            let (host_from, user) = match user_from(t, after_proto) {
                Some((after_user, user)) => (after_user, Some(user)),
                None => (after_proto, None),
            };
            match label_from(t, host_from, CharClass::Label) {
                Some((next, host)) => Some((next, Target { proto, user, host })),
                None => None,
            }
        },
        None => None,
    }
}

/// A target.
pub fn target(input: &str) -> (r: Result<(&str, Target), Error>)
    ensures
        match r {
            Ok((rest, target)) => outcome(input@, target_at(input@, 0)) == Some((rest@, target@)),
            Err(e) => target_at(input@, 0) is None && is_parse_error(e, input@, 0),
        },
{
    let t = Text::new(input);
    match target_from(&t, 0) {
        Some((next, target)) => Ok((t.rest(next), target)),
        None => Err(parse_error(input, 0)),
    }
}

} // verus!
