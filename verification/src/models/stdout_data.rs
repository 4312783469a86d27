//! What is read from the standard output of a unit.

use super::emit::{Message, MessageView};
use vstd::prelude::*;

verus! {

/// Denotes data read from the standard output of a unit: either a line of
/// text, or an emit message which the engine must handle.
#[derive(Debug, PartialEq)]
pub enum StdoutData {
    TextLine(String),
    Message(Message),
}

/// What a [`StdoutData`] holds, as mathematics.
pub ghost enum StdoutDataView {
    TextLine(Seq<char>),
    Message(MessageView),
}

impl View for StdoutData {
    type V = StdoutDataView;

    open spec fn view(&self) -> StdoutDataView {
        match self {
            StdoutData::TextLine(s) => StdoutDataView::TextLine(s@),
            StdoutData::Message(m) => StdoutDataView::Message(m@),
        }
    }
}

impl Clone for StdoutData {
    fn clone(&self) -> (r: Self)
        ensures
            r@ == self@,
    {
        match self {
            StdoutData::TextLine(s) => StdoutData::TextLine(s.clone()),
            StdoutData::Message(m) => StdoutData::Message(m.clone()),
        }
    }
}

} // verus!
