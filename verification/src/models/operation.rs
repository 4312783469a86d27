//! The operations that apply to a unit, and how they end.

use super::dep::Dependencies;
use super::meta::Meta;
use super::val::ValueSet;
use crate::error::Error;
use crate::text::{all_digits, lemma_span, number, read_number, same_text, scan, CharClass, Text};
use vstd::prelude::*;
use vstd::string::StringExecFns;

verus! {

#[derive(Clone, Copy, Debug, PartialEq, Eq, Hash, Structural)]
pub enum Operation {
    Check,
    Apply,
    Remove,
    Deps,
    Meta,
}

impl Operation {
    /// The operation that a word on the command line asks for: `check`,
    /// `apply` or `remove`.
    pub open spec fn named(s: Seq<char>) -> Option<Operation> {
        if s == "check"@ {
            Some(Operation::Check)
        } else if s == "apply"@ {
            Some(Operation::Apply)
        } else if s == "remove"@ {
            Some(Operation::Remove)
        } else {
            None
        }
    }

    /// The name of the operation, which is also the name of the shell function
    /// that carries it out.
    pub open spec fn name(self) -> Seq<char> {
        match self {
            Operation::Check => "check"@,
            Operation::Apply => "apply"@,
            Operation::Remove => "remove"@,
            Operation::Deps => "deps"@,
            Operation::Meta => "meta"@,
        }
    }

    pub fn from_str(input: &str) -> (r: Result<Operation, ()>)
        ensures
            r == match Self::named(input@) {
                Some(op) => Ok::<Operation, ()>(op),
                None => Err(()),
            },
    {
        if same_text(input, "check") {
            Ok(Operation::Check)
        } else if same_text(input, "apply") {
            Ok(Operation::Apply)
        } else if same_text(input, "remove") {
            Ok(Operation::Remove)
        } else {
            Err(())
        }
    }

    pub fn to_string(&self) -> (s: String)
        ensures
            s@ == self.name(),
    {
        match self {
            Operation::Check => String::from_str("check"),
            Operation::Apply => String::from_str("apply"),
            Operation::Remove => String::from_str("remove"),
            Operation::Deps => String::from_str("deps"),
            Operation::Meta => String::from_str("meta"),
        }
    }
}

/// How an operation ended: well, or with the exit code of its failure.
#[derive(Debug, Clone, Copy, PartialEq, Eq, Structural)]
pub enum OpStatus {
    Success,
    Failed(u8),
}

/// The exit code that the body of a status message spells: decimal digits
/// after an optional `+`, no more than 255.
pub open spec fn exit_code(s: Seq<char>) -> Option<u8> {
    let digits = if s.len() > 0 && s[0] == '+' {
        s.drop_first()
    } else {
        s
    };
    if digits.len() > 0 && all_digits(digits) && number(digits) <= 255 {
        Some(number(digits) as u8)
    } else {
        None
    }
}

impl OpStatus {
    /// The status that an exit code stands for.
    pub open spec fn of(code: u8) -> OpStatus {
        if code == 0 {
            OpStatus::Success
        } else {
            OpStatus::Failed(code)
        }
    }

    /// Reads the body of a status message.
    pub fn from_code(code_str: &str) -> (r: Result<OpStatus, Error>)
        ensures
            match r {
                Ok(status) => exit_code(code_str@) matches Some(code) && status == Self::of(code),
                Err(e) => {
                    &&& exit_code(code_str@) is None
                    &&& e matches Error::InvalidStatusCode(s)
                    &&& s@ == code_str@
                },
            },
    {
        let t = Text::new(code_str);
        let n = t.len();
        let start: usize = if n > 0 && t.at(0) == '+' {
            1
        } else {
            0
        };
        let end = scan(&t, start, CharClass::Digit);
        proof {
            lemma_span(t@, start as int, CharClass::Digit);
            if start == 1 {
                assert(t@.drop_first() =~= t@.subrange(1, n as int));
            } else {
                assert(t@ =~= t@.subrange(0, n as int));
            }
        }
        let ghost digits = t@.subrange(start as int, n as int);
        if start == n || end != n {
            proof {
                if end != n {
                    assert(!CharClass::Digit.has(t@[end as int]));
                    assert(digits[end - start] == t@[end as int]);
                }
            }
            return Err(Error::InvalidStatusCode(String::from_str(code_str)));
        }
        assert(all_digits(digits)) by {
            assert forall|k: int| 0 <= k < digits.len() implies crate::text::is_digit(
                #[trigger] digits[k],
            ) by {
                assert(CharClass::Digit.has(t@[start + k]));
            }
        }
        match read_number(&t, start, n, 255) {
            Some(code) => if code == 0 {
                Ok(OpStatus::Success)
            } else {
                Ok(OpStatus::Failed(code as u8))
            },
            None => Err(Error::InvalidStatusCode(String::from_str(code_str))),
        }
    }

    /// Lets a good status pass and turns a failure into an error.
    pub fn expect_ok(&self) -> (r: Result<(), Error>)
        ensures
            match *self {
                OpStatus::Success => r is Ok,
                OpStatus::Failed(code) => r == Err::<(), Error>(Error::OperationFailed(code)),
            },
    {
        match self {
            OpStatus::Success => Ok(()),
            OpStatus::Failed(code) => Err(Error::OperationFailed(*code)),
        }
    }
}

/// Whether a check found the unit's change to be in place.
pub type CheckPresence = bool;

/// What an operation came to: its status, and what it found or emitted.
#[derive(Debug, Clone)]
pub enum OpCompletion {
    Check(OpStatus, CheckPresence, ValueSet),
    Apply(OpStatus, ValueSet),
    Remove(OpStatus, ValueSet),
    Deps(OpStatus, Dependencies),
    Meta(OpStatus, Meta),
}

impl OpCompletion {
    /// The status that the completion carries.
    pub open spec fn status(self) -> OpStatus {
        match self {
            OpCompletion::Check(status, _, _) => status,
            OpCompletion::Apply(status, _) => status,
            OpCompletion::Remove(status, _) => status,
            OpCompletion::Deps(status, _) => status,
            OpCompletion::Meta(status, _) => status,
        }
    }

    /// Lets a completion with a good status pass and turns a failure into an
    /// error.
    pub fn expect_ok(&self) -> (r: Result<(), Error>)
        ensures
            match self.status() {
                OpStatus::Success => r is Ok,
                OpStatus::Failed(code) => r == Err::<(), Error>(Error::OperationFailed(code)),
            },
    {
        match self {
            OpCompletion::Check(status, _, _) => status.expect_ok(),
            OpCompletion::Apply(status, _) => status.expect_ok(),
            OpCompletion::Remove(status, _) => status.expect_ok(),
            OpCompletion::Deps(status, _) => status.expect_ok(),
            OpCompletion::Meta(status, _) => status.expect_ok(),
        }
    }
}

} // verus!
