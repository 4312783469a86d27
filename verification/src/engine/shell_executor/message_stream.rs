//! Reads the messages that an operation of a unit emits.
//!
//! While an operation runs, the unit emits messages among its output, and
//! ends with a status message. What the messages mean depends on the
//! operation.

use crate::error::Error;
use crate::models::dep::{Dependency, DependencyView};
use crate::models::emit::{HeaderView, Message, MessageView};
use crate::models::meta::{Meta, MetaView};
use crate::models::operation::{exit_code, OpStatus};
use crate::models::stdout_data::{StdoutData, StdoutDataView};
use crate::models::val::{ValueSet, ValueView};
use crate::models::seq_view;
use crate::parser::common::is_parse_error;
use crate::parser::{
    parse_deps, parse_params, parse_value, parsed_deps, parsed_params, parsed_value,
};
use crate::text::same_text;
use vstd::prelude::*;
use vstd::string::StringExecFns;

verus! {

/// Collects the messages of the operation that is running, up to its status.
pub struct MessageStream {
    messages: Vec<Message>,
}

/// What is wrong with the messages of an operation.
pub ghost enum Fault {
    /// A message whose header the operation does not allow.
    Unexpected(HeaderView),
    /// The operation ended with this status.
    Failed(u8),
    /// The text of a message does not follow its grammar from this position on.
    Parse(Seq<char>, int),
    /// A message that needs a field has none.
    MissingField(HeaderView),
    /// A second presence message.
    DuplicatePresence,
    /// The text of a presence message is neither `true` nor `false`.
    InvalidPresence(Seq<char>),
}

/// Whether `e` reports `fault`.
pub open spec fn reports(e: Error, fault: Fault) -> bool {
    match fault {
        Fault::Unexpected(header) => e matches Error::UnexpectedMessage(h) && h@ == header,
        Fault::Failed(code) => e == Error::OperationFailed(code),
        Fault::Parse(input, position) => is_parse_error(e, input, position),
        Fault::MissingField(header) => e matches Error::MissingField(h) && h@ == header,
        Fault::DuplicatePresence => e == Error::DuplicatePresence,
        Fault::InvalidPresence(text) => e matches Error::InvalidPresence(t) && t@ == text,
    }
}

/// Whether `r` is what `expected` asks for, the values compared by `same`.
pub open spec fn decoded<T, V>(
    r: Result<T, Error>,
    expected: Result<V, Fault>,
    same: spec_fn(T, V) -> bool,
) -> bool {
    match r {
        Ok(value) => expected matches Ok(v) && same(value, v),
        Err(e) => expected matches Err(fault) && reports(e, fault),
    }
}

/// What a status allows: nothing is wrong with a good one.
pub open spec fn passed(status: OpStatus) -> Result<(), Fault> {
    match status {
        OpStatus::Success => Ok(()),
        OpStatus::Failed(code) => Err(Fault::Failed(code)),
    }
}

/// What taking in one more piece of output comes to.
pub ghost enum Taken {
    /// The operation goes on; these are the messages collected so far.
    Pending(Seq<MessageView>),
    /// The operation has ended with this status, after these messages.
    Ended(OpStatus, Seq<MessageView>),
    /// The status message does not spell an exit code.
    BadStatus(Seq<char>),
}

/// What comes of taking in `data` after `messages`: a line changes nothing, a
/// message is collected, and a message named `status` ends the operation.
pub open spec fn taken(messages: Seq<MessageView>, data: StdoutDataView) -> Taken {
    match data {
        StdoutDataView::TextLine(_) => Taken::Pending(messages),
        StdoutDataView::Message(message) => if message.header.name == "status"@ {
            match exit_code(message.text) {
                Some(code) => Taken::Ended(OpStatus::of(code), messages),
                None => Taken::BadStatus(message.text),
            }
        } else {
            Taken::Pending(messages.push(message))
        },
    }
}

impl View for MessageStream {
    type V = Seq<MessageView>;

    closed spec fn view(&self) -> Seq<MessageView> {
        seq_view(self.messages@)
    }
}

impl MessageStream {
    /// A stream that has collected nothing.
    pub fn new() -> (stream: Self)
        ensures
            stream@ == Seq::<MessageView>::empty(),
    {
        let stream = MessageStream { messages: Vec::new() };
        assert(stream@ =~= Seq::<MessageView>::empty());
        stream
    }

    /// Takes in the next piece of the output of the unit. When it is the
    /// status message, the operation has ended: its status and the messages
    /// before it are handed out, and the stream is empty again for the next
    /// operation. A status message that spells no exit code is an error, and
    /// leaves the stream as it was.
    pub fn drain_messages(&mut self, data: StdoutData) -> (r: Result<
        Option<(OpStatus, Vec<Message>)>,
        Error,
    >)
        ensures
            match taken(old(self)@, data@) {
                Taken::Pending(messages) => r matches Ok(None) && final(self)@ == messages,
                Taken::Ended(status, messages) => {
                    &&& r matches Ok(Some((s, collected)))
                    &&& s == status
                    &&& seq_view(collected@) == messages
                    &&& final(self)@ == Seq::<MessageView>::empty()
                },
                Taken::BadStatus(text) => {
                    &&& r matches Err(Error::InvalidStatusCode(t))
                    &&& t@ == text
                    &&& final(self)@ == old(self)@
                },
            },
    {
        match data {
            StdoutData::TextLine(_) => Ok(None),
            StdoutData::Message(message) => {
                if same_text(message.header.name.as_str(), "status") {
                    match OpStatus::from_code(message.text.as_str()) {
                        Ok(status) => {
                            let mut collected: Vec<Message> = Vec::new();
                            std::mem::swap(&mut collected, &mut self.messages);
                            assert(self@ =~= Seq::<MessageView>::empty());
                            Ok(Some((status, collected)))
                        },
                        Err(e) => Err(e),
                    }
                } else {
                    let ghost before = self@;
                    self.messages.push(message);
                    assert(self@ =~= before.push(message@));
                    Ok(None)
                }
            },
        }
    }

    /// What the end of the output means while an operation is running: the
    /// status is missing.
    pub fn unexpected_eof(&self) -> (e: Error)
        ensures
            e == Error::UnexpectedEof,
    {
        Error::UnexpectedEof
    }
}

/// The header of the first of the messages from the `i`th on that is not
/// named `name`.
pub open spec fn first_other(messages: Seq<MessageView>, name: Seq<char>, i: int) -> Option<
    HeaderView,
>
    decreases messages.len() - i,
{
    if 0 <= i < messages.len() {
        if messages[i].header.name != name {
            Some(messages[i].header)
        } else {
            first_other(messages, name, i + 1)
        }
    } else {
        None
    }
}

/// What the messages of an operation that emits one type of message alone
/// come to: themselves, unless one of them is of another type.
pub open spec fn of_type(messages: Seq<MessageView>, name: Seq<char>) -> Result<(), Fault> {
    match first_other(messages, name, 0) {
        Some(header) => Err(Fault::Unexpected(header)),
        None => Ok(()),
    }
}

/// For most operations, a stream of messages of a single type is expected,
/// followed by a status. This hands the status and the messages on if every
/// message is of the type `message_type`; the first that is not is an error.
#[verifier::loop_isolation(false)]
pub fn drain_messages_of_type(message_type: &str, status: OpStatus, messages: Vec<Message>) -> (r:
    Result<(OpStatus, Vec<Message>), Error>)
    ensures
        match r {
            Ok((s, same)) => of_type(seq_view(messages@), message_type@) is Ok && s == status
                && same == messages,
            Err(e) => of_type(seq_view(messages@), message_type@) matches Err(fault) && reports(
                e,
                fault,
            ),
        },
{
    let mut i: usize = 0;
    while i < messages.len()
        invariant
            i <= messages@.len(),
            first_other(seq_view(messages@), message_type@, 0) == first_other(
                seq_view(messages@),
                message_type@,
                i as int,
            ),
        decreases messages@.len() - i,
    {
        assert(seq_view(messages@)[i as int] == messages@[i as int]@);
        if !same_text(messages[i].header.name.as_str(), message_type) {
            return Err(Error::UnexpectedMessage(messages[i].header.clone()));
        }
        i = i + 1;
    }
    Ok((status, messages))
}

/// The dependencies that the texts of the messages from the `i`th on spell,
/// added to `acc`.
pub open spec fn deps_of(messages: Seq<MessageView>, i: int, acc: Seq<DependencyView>) -> Result<
    Seq<DependencyView>,
    Fault,
>
    decreases messages.len() - i,
{
    if 0 <= i < messages.len() {
        match parsed_deps(messages[i].text) {
            Ok(deps) => deps_of(messages, i + 1, acc + deps),
            Err(position) => Err(Fault::Parse(messages[i].text, position)),
        }
    } else {
        Ok(acc)
    }
}

/// What the messages of a deps operation that ended with `status` come to:
/// every message must be named `dep`, the status must be good, and the
/// texts, each a list of dependencies, are read in order.
pub open spec fn deps_result(status: OpStatus, messages: Seq<MessageView>) -> Result<
    Seq<DependencyView>,
    Fault,
> {
    match of_type(messages, "dep"@) {
        Err(fault) => Err(fault),
        Ok(_) => match passed(status) {
            Err(fault) => Err(fault),
            Ok(_) => deps_of(messages, 0, Seq::empty()),
        },
    }
}

/// Retrieves and parses the dependency messages of a deps operation. Fails
/// if the operation did not end with a good status.
#[verifier::loop_isolation(false)]
pub fn get_deps(status: OpStatus, messages: Vec<Message>) -> (r: Result<Vec<Dependency>, Error>)
    ensures
        decoded(
            r,
            deps_result(status, seq_view(messages@)),
            |x: Vec<Dependency>, v: Seq<DependencyView>| seq_view(x@) == v,
        ),
{
    let ghost all = seq_view(messages@);
    let (status, messages) = match drain_messages_of_type("dep", status, messages) {
        Ok(drained) => drained,
        Err(e) => {
            return Err(e);
        },
    };
    match status.expect_ok() {
        Ok(_) => {},
        Err(e) => {
            return Err(e);
        },
    }
    let mut deps: Vec<Dependency> = Vec::new();
    assert(seq_view(deps@) =~= Seq::<DependencyView>::empty());
    let mut i: usize = 0;
    while i < messages.len()
        invariant
            i <= messages@.len(),
            all == seq_view(messages@),
            deps_of(all, 0, Seq::empty()) == deps_of(all, i as int, seq_view(deps@)),
        decreases messages@.len() - i,
    {
        assert(all[i as int] == messages@[i as int]@);
        match parse_deps(messages[i].text.as_str()) {
            Ok(parsed) => {
                let ghost before = seq_view(deps@);
                let ghost more = seq_view(parsed@);
                let mut parsed = parsed;
                deps.append(&mut parsed);
                assert(seq_view(deps@) =~= before + more);
            },
            Err(e) => {
                return Err(e);
            },
        }
        i = i + 1;
    }
    Ok(deps)
}

/// The meta data that the messages from the `i`th on add to `acc`: each
/// message sets the field of the meta data that the field of its header
/// names, a later message in place of an earlier one.
pub open spec fn meta_of(messages: Seq<MessageView>, i: int, acc: MetaView) -> Result<
    MetaView,
    Fault,
>
    decreases messages.len() - i,
{
    if 0 <= i < messages.len() {
        let message = messages[i];
        match message.header.field {
            None => Err(Fault::MissingField(message.header)),
            Some(field) => if field == "author"@ {
                meta_of(messages, i + 1, MetaView { author: Some(message.text), ..acc })
            } else if field == "desc"@ {
                meta_of(messages, i + 1, MetaView { desc: Some(message.text), ..acc })
            } else if field == "version"@ {
                meta_of(messages, i + 1, MetaView { version: Some(message.text), ..acc })
            } else if field == "params"@ {
                match parsed_params(message.text) {
                    Ok(params) => meta_of(messages, i + 1, MetaView { params, ..acc }),
                    Err(position) => Err(Fault::Parse(message.text, position)),
                }
            } else {
                Err(Fault::Unexpected(message.header))
            },
        }
    } else {
        Ok(acc)
    }
}

/// What the messages of a meta operation that ended with `status` come to:
/// every message must be named `meta`, the status must be good, and each
/// message gives one field of the meta data.
pub open spec fn meta_result(status: OpStatus, messages: Seq<MessageView>) -> Result<
    MetaView,
    Fault,
> {
    match of_type(messages, "meta"@) {
        Err(fault) => Err(fault),
        Ok(_) => match passed(status) {
            Err(fault) => Err(fault),
            Ok(_) => meta_of(messages, 0, MetaView::empty()),
        },
    }
}

/// Retrieves the meta data from the messages of a meta operation. Fails if
/// the operation did not end with a good status.
#[verifier::loop_isolation(false)]
pub fn get_meta(status: OpStatus, messages: Vec<Message>) -> (r: Result<Meta, Error>)
    ensures
        decoded(r, meta_result(status, seq_view(messages@)), |x: Meta, v: MetaView| x@ == v),
{
    let ghost all = seq_view(messages@);
    let (status, messages) = match drain_messages_of_type("meta", status, messages) {
        Ok(drained) => drained,
        Err(e) => {
            return Err(e);
        },
    };
    match status.expect_ok() {
        Ok(_) => {},
        Err(e) => {
            return Err(e);
        },
    }
    let mut meta = Meta::empty();
    let mut i: usize = 0;
    while i < messages.len()
        invariant
            i <= messages@.len(),
            all == seq_view(messages@),
            meta_of(all, 0, MetaView::empty()) == meta_of(all, i as int, meta@),
        decreases messages@.len() - i,
    {
        let message = &messages[i];
        assert(all[i as int] == message@);
        let field = match &message.header.field {
            Some(field) => field,
            None => {
                return Err(Error::MissingField(message.header.clone()));
            },
        };
        if same_text(field.as_str(), "author") {
            meta.author = Some(message.text.clone());
        } else if same_text(field.as_str(), "desc") {
            meta.desc = Some(message.text.clone());
        } else if same_text(field.as_str(), "version") {
            meta.version = Some(message.text.clone());
        } else if same_text(field.as_str(), "params") {
            match parse_params(message.text.as_str()) {
                Ok(params) => {
                    meta.params = params;
                },
                Err(e) => {
                    return Err(e);
                },
            }
        } else {
            return Err(Error::UnexpectedMessage(message.header.clone()));
        }
        i = i + 1;
    }
    Ok(meta)
}

/// What the text of a presence message says.
pub open spec fn presence(text: Seq<char>) -> Option<bool> {
    if text == "true"@ {
        Some(true)
    } else if text == "false"@ {
        Some(false)
    } else {
        None
    }
}

/// What the messages of a check from the `i`th on add to the presence found
/// so far and to the values `acc`: a message named `present` says whether
/// the unit is present, and may come once; a message named `value` gives the
/// value of the name in its field.
pub open spec fn check_of(
    messages: Seq<MessageView>,
    i: int,
    present: Option<bool>,
    acc: Map<Seq<char>, ValueView>,
) -> Result<(bool, Map<Seq<char>, ValueView>), Fault>
    decreases messages.len() - i,
{
    if 0 <= i < messages.len() {
        let message = messages[i];
        if message.header.name == "present"@ {
            if present is Some {
                Err(Fault::DuplicatePresence)
            } else {
                match presence(message.text) {
                    Some(found) => check_of(messages, i + 1, Some(found), acc),
                    None => Err(Fault::InvalidPresence(message.text)),
                }
            }
        } else if message.header.name == "value"@ {
            match parsed_value(message.text) {
                Err(position) => Err(Fault::Parse(message.text, position)),
                Ok(value) => match message.header.field {
                    None => Err(Fault::MissingField(message.header)),
                    Some(key) => check_of(messages, i + 1, present, acc.insert(key, value)),
                },
            }
        } else {
            Err(Fault::Unexpected(message.header))
        }
    } else {
        Ok(
            (
                match present {
                    Some(found) => found,
                    None => false,
                },
                acc,
            ),
        )
    }
}

/// What the messages of a check that ended with `status` come to: the status
/// must be good; a unit that does not say whether it is present is not.
pub open spec fn check_result(status: OpStatus, messages: Seq<MessageView>) -> Result<
    (bool, Map<Seq<char>, ValueView>),
    Fault,
> {
    match passed(status) {
        Err(fault) => Err(fault),
        Ok(_) => check_of(messages, 0, None, Map::empty()),
    }
}

/// Retrieves what a check found from its messages.
///
/// The check operation can emit values, and also emits a presence message
/// to indicate if the unit is present on the system. This defaults to false.
#[verifier::loop_isolation(false)]
pub fn get_check_values(status: OpStatus, messages: Vec<Message>) -> (r: Result<
    (bool, ValueSet),
    Error,
>)
    ensures
        decoded(
            r,
            check_result(status, seq_view(messages@)),
            |x: (bool, ValueSet), v: (bool, Map<Seq<char>, ValueView>)| x.0 == v.0 && x.1@ == v.1,
        ),
{
    let ghost all = seq_view(messages@);
    match status.expect_ok() {
        Ok(_) => {},
        Err(e) => {
            return Err(e);
        },
    }
    let mut vset = ValueSet::new();
    // Units are presumed to not be present by default
    let mut present: Option<bool> = None;
    let mut i: usize = 0;
    while i < messages.len()
        invariant
            i <= messages@.len(),
            all == seq_view(messages@),
            check_of(all, 0, None, Map::empty()) == check_of(all, i as int, present, vset@),
        decreases messages@.len() - i,
    {
        let message = &messages[i];
        assert(all[i as int] == message@);
        if same_text(message.header.name.as_str(), "present") {
            if present.is_some() {
                return Err(Error::DuplicatePresence);
            }
            if same_text(message.text.as_str(), "true") {
                present = Some(true);
            } else if same_text(message.text.as_str(), "false") {
                present = Some(false);
            } else {
                return Err(Error::InvalidPresence(message.text.clone()));
            }
        } else if same_text(message.header.name.as_str(), "value") {
            let value = match parse_value(message.text.as_str()) {
                Ok(value) => value,
                Err(e) => {
                    return Err(e);
                },
            };
            match &message.header.field {
                Some(key) => {
                    vset.add_value(key.as_str(), value);
                },
                None => {
                    return Err(Error::MissingField(message.header.clone()));
                },
            }
        } else {
            return Err(Error::UnexpectedMessage(message.header.clone()));
        }
        i = i + 1;
    }
    let found = match present {
        Some(found) => found,
        None => false,
    };
    Ok((found, vset))
}

/// The values that the messages from the `i`th on add to `acc`: each gives
/// the value of the name in the field of its header.
pub open spec fn values_of(messages: Seq<MessageView>, i: int, acc: Map<Seq<char>, ValueView>) -> Result<
    Map<Seq<char>, ValueView>,
    Fault,
>
    decreases messages.len() - i,
{
    if 0 <= i < messages.len() {
        let message = messages[i];
        match parsed_value(message.text) {
            Err(position) => Err(Fault::Parse(message.text, position)),
            Ok(value) => match message.header.field {
                None => Err(Fault::MissingField(message.header)),
                Some(key) => values_of(messages, i + 1, acc.insert(key, value)),
            },
        }
    } else {
        Ok(acc)
    }
}

/// What the messages of an apply or a remove that ended with `status` come
/// to: every message must be named `value` and give a value; then the status
/// must be good.
pub open spec fn values_result(status: OpStatus, messages: Seq<MessageView>) -> Result<
    Map<Seq<char>, ValueView>,
    Fault,
> {
    match of_type(messages, "value"@) {
        Err(fault) => Err(fault),
        Ok(_) => match values_of(messages, 0, Map::empty()) {
            Err(fault) => Err(fault),
            Ok(values) => match passed(status) {
                Err(fault) => Err(fault),
                Ok(_) => Ok(values),
            },
        },
    }
}

/// Reads the values that the messages of an operation give.
#[verifier::loop_isolation(false)]
fn get_values(status: OpStatus, messages: Vec<Message>) -> (r: Result<(OpStatus, ValueSet), Error>)
    ensures
        match r {
            Ok((s, values)) => s == status && of_type(seq_view(messages@), "value"@) is Ok
                && values_of(seq_view(messages@), 0, Map::empty()) == Ok::<
                Map<Seq<char>, ValueView>,
                Fault,
            >(values@),
            Err(e) => match of_type(seq_view(messages@), "value"@) {
                Err(fault) => reports(e, fault),
                Ok(_) => values_of(seq_view(messages@), 0, Map::empty()) matches Err(fault)
                    && reports(e, fault),
            },
        },
{
    let ghost all = seq_view(messages@);
    let mut vset = ValueSet::new();
    let (status, messages) = match drain_messages_of_type("value", status, messages) {
        Ok(drained) => drained,
        Err(e) => {
            return Err(e);
        },
    };
    let mut i: usize = 0;
    while i < messages.len()
        invariant
            i <= messages@.len(),
            all == seq_view(messages@),
            values_of(all, 0, Map::empty()) == values_of(all, i as int, vset@),
        decreases messages@.len() - i,
    {
        let message = &messages[i];
        assert(all[i as int] == message@);
        let value = match parse_value(message.text.as_str()) {
            Ok(value) => value,
            Err(e) => {
                return Err(e);
            },
        };
        match &message.header.field {
            Some(key) => {
                vset.add_value(key.as_str(), value);
            },
            None => {
                return Err(Error::MissingField(message.header.clone()));
            },
        }
        i = i + 1;
    }
    Ok((status, vset))
}

/// Retrieves the values that an apply emitted. Fails if the operation did
/// not end with a good status.
pub fn get_apply_values(status: OpStatus, messages: Vec<Message>) -> (r: Result<ValueSet, Error>)
    ensures
        decoded(
            r,
            values_result(status, seq_view(messages@)),
            |x: ValueSet, v: Map<Seq<char>, ValueView>| x@ == v,
        ),
{
    match get_values(status, messages) {
        Ok((status, vset)) => match status.expect_ok() {
            Ok(_) => Ok(vset),
            Err(e) => Err(e),
        },
        Err(e) => Err(e),
    }
}

/// Retrieves the values that a remove emitted. Fails if the operation did
/// not end with a good status.
pub fn get_remove_values(status: OpStatus, messages: Vec<Message>) -> (r: Result<ValueSet, Error>)
    ensures
        decoded(
            r,
            values_result(status, seq_view(messages@)),
            |x: ValueSet, v: Map<Seq<char>, ValueView>| x@ == v,
        ),
{
    match get_values(status, messages) {
        Ok((status, vset)) => match status.expect_ok() {
            Ok(_) => Ok(vset),
            Err(e) => Err(e),
        },
        Err(e) => Err(e),
    }
}

} // verus!
