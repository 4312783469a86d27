//! Emit protocol data structures.

use super::{clone_opt, opt_view, own_opt};
use vstd::prelude::*;
use vstd::string::StringExecFns;

verus! {

/// A message that a unit emits: a header that says what it is, and its text.
#[derive(Debug, PartialEq, Eq)]
pub struct Message {
    pub header: Header,
    pub text: String,
}

/// Headers describe the data of a message. They have a name, and an optional
/// field that says more about the data.
#[derive(Debug, PartialEq, Eq)]
pub struct Header {
    pub name: String,
    pub field: Option<String>,
}

/// What a [`Header`] holds, as mathematics.
pub ghost struct HeaderView {
    pub name: Seq<char>,
    pub field: Option<Seq<char>>,
}

impl HeaderView {
    /// The display form: `name.field`, or the name alone.
    pub open spec fn text(self) -> Seq<char> {
        match self.field {
            Some(field) => self.name + "."@ + field,
            None => self.name,
        }
    }
}

/// What a [`Message`] holds, as mathematics.
pub ghost struct MessageView {
    pub header: HeaderView,
    pub text: Seq<char>,
}

impl View for Header {
    type V = HeaderView;

    open spec fn view(&self) -> HeaderView {
        HeaderView { name: self.name@, field: opt_view(self.field) }
    }
}

impl View for Message {
    type V = MessageView;

    open spec fn view(&self) -> MessageView {
        MessageView { header: self.header@, text: self.text@ }
    }
}

impl Clone for Header {
    fn clone(&self) -> (r: Self)
        ensures
            r@ == self@,
    {
        Header { name: self.name.clone(), field: clone_opt(&self.field) }
    }
}

impl Clone for Message {
    fn clone(&self) -> (r: Self)
        ensures
            r@ == self@,
    {
        Message { header: self.header.clone(), text: self.text.clone() }
    }
}

impl Header {
    pub fn build(name: &str, field: Option<&str>) -> (h: Self)
        ensures
            h@ == (HeaderView {
                name: name@,
                field: match field {
                    Some(f) => Some(f@),
                    None => None,
                },
            }),
    {
        Header { name: name.to_owned(), field: own_opt(field) }
    }

    /// The display form: `name.field`, or the name alone.
    pub fn to_string(&self) -> (s: String)
        ensures
            s@ == self@.text(),
    {
        match &self.field {
            Some(field) => {
                let mut s = self.name.clone();
                s.append(".");
                s.append(field.as_str());
                s
            },
            None => self.name.clone(),
        }
    }
}

} // verus!
