//! Unit processes communicate with the engine using messages delimited by
//! headers and ASCII control characters, among lines of ordinary output.
//!
//! These are streaming parsers, since the messages are sent over a pipe which
//! is read incrementally: besides reading something or failing, each can find
//! that the input ends before it can tell.

use crate::error::Error;
use crate::models::emit::{Header, HeaderView, Message, MessageView};
use crate::models::stdout_data::{StdoutData, StdoutDataView};
use crate::text::{lemma_span_is, scan, skip_ws, span, CharClass, Text};
use vstd::prelude::*;
use vstd::string::StringExecFns;

verus! {

/// Starts the header of a message.
pub const START_OF_HEADER: char = '\x01';

/// Ends the header of a message and starts its text.
pub const START_OF_TEXT: char = '\x02';

/// Ends the text of a message.
pub const END_OF_TEXT: char = '\x03';

/// What a streaming parser makes of its input from some position on.
pub ghost enum Scan<V> {
    /// The input ends before the parser can tell; with more input it may
    /// read something.
    Incomplete,
    /// At this position the input stops following the grammar.
    Malformed(int),
    /// Something was read, and this is the position after it.
    Done(int, V),
}

/// What a streaming parser makes of its input from some position on.
pub enum Scanned<T> {
    Incomplete,
    Malformed(usize),
    Done(usize, T),
}

/// Why a streaming parser read nothing.
#[derive(Debug, PartialEq, Eq)]
pub enum Stop {
    /// The input ends too early to tell.
    Incomplete,
    /// The input does not follow the grammar.
    Malformed(Error),
}

/// Whether `r`, the result of a parser that started at the beginning of
/// `input`, says what `scan` says, the values compared by `same`.
pub open spec fn reports<T, V>(
    r: Result<(&str, T), Stop>,
    input: Seq<char>,
    scan: Scan<V>,
    same: spec_fn(T, V) -> bool,
) -> bool {
    match r {
        Ok((rest, value)) => scan matches Scan::Done(next, v) && rest@ == input.skip(next) && same(
            value,
            v,
        ),
        Err(Stop::Incomplete) => scan is Incomplete,
        Err(Stop::Malformed(e)) => {
            &&& scan matches Scan::Malformed(position)
            &&& e matches Error::Parse { input: source, position: p }
            &&& source@ == input
            &&& p == position
        },
    }
}

/// A label of a header at `i`, blanks around it skipped: one or more of the
/// letters and digits of ASCII, `_` and `-`. A label that reaches the end of
/// the input may go on in what follows.
pub open spec fn header_label_at(s: Seq<char>, i: int) -> Scan<Seq<char>> {
    let from = skip_ws(s, i);
    let to = span(s, from, CharClass::HeaderLabel);
    if to >= s.len() {
        Scan::Incomplete
    } else if to == from {
        Scan::Malformed(from)
    } else {
        Scan::Done(skip_ws(s, to), s.subrange(from, to))
    }
}

/// What stands between the delimiters of a header, at `i`: a name, and a
/// field after a `.` where one follows.
pub open spec fn header_text_at(s: Seq<char>, i: int) -> Scan<HeaderView> {
    match header_label_at(s, i) {
        Scan::Incomplete => Scan::Incomplete,
        Scan::Malformed(p) => Scan::Malformed(p),
        Scan::Done(dot, name) => if dot >= s.len() {
            Scan::Incomplete
        } else if s[dot] == '.' {
            match header_label_at(s, dot + 1) {
                Scan::Incomplete => Scan::Incomplete,
                Scan::Malformed(_) => Scan::Done(dot, HeaderView { name, field: None }),
                Scan::Done(next, field) => Scan::Done(
                    next,
                    HeaderView { name, field: Some(field) },
                ),
            }
        } else {
            Scan::Done(dot, HeaderView { name, field: None })
        },
    }
}

/// A header at `i`: the start of a header, its text, and the start of text.
pub open spec fn header_at(s: Seq<char>, i: int) -> Scan<HeaderView> {
    if i >= s.len() {
        Scan::Incomplete
    } else if s[i] != START_OF_HEADER {
        Scan::Malformed(i)
    } else {
        match header_text_at(s, i + 1) {
            Scan::Incomplete => Scan::Incomplete,
            Scan::Malformed(p) => Scan::Malformed(p),
            Scan::Done(end, header) => if end >= s.len() {
                Scan::Incomplete
            } else if s[end] == START_OF_TEXT {
                Scan::Done(end + 1, header)
            } else {
                Scan::Malformed(end)
            },
        }
    }
}

/// The text of a message at `i`: everything up to the next end of text.
pub open spec fn text_at(s: Seq<char>, i: int) -> Scan<Seq<char>> {
    let end = span(s, i, CharClass::Except(END_OF_TEXT));
    if end >= s.len() {
        Scan::Incomplete
    } else {
        Scan::Done(end + 1, s.subrange(i, end))
    }
}

/// A message at `i`: a header and a text.
pub open spec fn message_at(s: Seq<char>, i: int) -> Scan<MessageView> {
    match header_at(s, i) {
        Scan::Incomplete => Scan::Incomplete,
        Scan::Malformed(p) => Scan::Malformed(p),
        Scan::Done(from, header) => match text_at(s, from) {
            Scan::Incomplete => Scan::Incomplete,
            Scan::Malformed(p) => Scan::Malformed(p),
            Scan::Done(next, text) => Scan::Done(next, MessageView { header, text }),
        },
    }
}

/// A line of plain output at `i`: everything up to the next line feed, which
/// ends it, or up to the start of a header, which follows it. What starts
/// with the start of a header is no line.
pub open spec fn text_line_at(s: Seq<char>, i: int) -> Scan<Seq<char>> {
    let end = span(s, i, CharClass::Line);
    if end >= s.len() {
        Scan::Incomplete
    } else if s[end] == '\n' {
        Scan::Done(end + 1, s.subrange(i, end))
    } else if end > i {
        Scan::Done(end, s.subrange(i, end))
    } else {
        Scan::Malformed(i)
    }
}

/// The next piece of the output of a unit at the beginning of `s`: a message
/// with the blanks around it, where the first character that is no blank
/// starts a header; a line otherwise.
pub open spec fn stdout_data_at(s: Seq<char>) -> Scan<StdoutDataView> {
    let from = skip_ws(s, 0);
    if from >= s.len() {
        Scan::Incomplete
    } else if s[from] == START_OF_HEADER {
        match message_at(s, from) {
            Scan::Incomplete => Scan::Incomplete,
            Scan::Malformed(p) => Scan::Malformed(p),
            Scan::Done(next, message) => Scan::Done(
                skip_ws(s, next),
                StdoutDataView::Message(message),
            ),
        }
    } else {
        match text_line_at(s, 0) {
            Scan::Incomplete => Scan::Incomplete,
            Scan::Malformed(p) => Scan::Malformed(p),
            Scan::Done(next, line) => Scan::Done(next, StdoutDataView::TextLine(line)),
        }
    }
}

/// Reads a label of a header at position `i`.
pub fn header_label_from(t: &Text, i: usize) -> (r: Scanned<String>)
    requires
        i <= t@.len(),
    ensures
        match r {
            Scanned::Incomplete => header_label_at(t@, i as int) is Incomplete,
            Scanned::Malformed(p) => header_label_at(t@, i as int) == Scan::<Seq<char>>::Malformed(
                p as int,
            ) && p <= t@.len(),
            Scanned::Done(next, name) => header_label_at(t@, i as int) == Scan::Done(
                next as int,
                name@,
            ) && i < next <= t@.len(),
        },
{
    let from = scan(t, i, CharClass::Space);
    let to = scan(t, from, CharClass::HeaderLabel);
    if to >= t.len() {
        Scanned::Incomplete
    } else if to == from {
        Scanned::Malformed(from)
    } else {
        Scanned::Done(scan(t, to, CharClass::Space), t.slice(from, to))
    }
}

/// Reads the text of a header at position `i`.
pub fn header_text_from(t: &Text, i: usize) -> (r: Scanned<Header>)
    requires
        i <= t@.len(),
    ensures
        match r {
            Scanned::Incomplete => header_text_at(t@, i as int) is Incomplete,
            Scanned::Malformed(p) => header_text_at(t@, i as int) == Scan::<HeaderView>::Malformed(
                p as int,
            ) && p <= t@.len(),
            Scanned::Done(next, header) => header_text_at(t@, i as int) == Scan::Done(
                next as int,
                header@,
            ) && i < next <= t@.len(),
        },
{
    match header_label_from(t, i) {
        Scanned::Incomplete => Scanned::Incomplete,
        Scanned::Malformed(p) => Scanned::Malformed(p),
        Scanned::Done(dot, name) => if dot >= t.len() {
            Scanned::Incomplete
        } else if t.at(dot) == '.' {
            match header_label_from(t, dot + 1) {
                Scanned::Incomplete => Scanned::Incomplete,
                Scanned::Malformed(_) => Scanned::Done(dot, Header { name, field: None }),
                Scanned::Done(next, field) => Scanned::Done(
                    next,
                    Header { name, field: Some(field) },
                ),
            }
        } else {
            Scanned::Done(dot, Header { name, field: None })
        },
    }
}

/// Reads a header at position `i`.
pub fn header_from(t: &Text, i: usize) -> (r: Scanned<Header>)
    requires
        i <= t@.len(),
    ensures
        match r {
            Scanned::Incomplete => header_at(t@, i as int) is Incomplete,
            Scanned::Malformed(p) => header_at(t@, i as int) == Scan::<HeaderView>::Malformed(
                p as int,
            ) && p <= t@.len(),
            Scanned::Done(next, header) => header_at(t@, i as int) == Scan::Done(
                next as int,
                header@,
            ) && i < next <= t@.len(),
        },
{
    if i >= t.len() {
        Scanned::Incomplete
    } else if t.at(i) != START_OF_HEADER {
        Scanned::Malformed(i)
    } else {
        match header_text_from(t, i + 1) {
            Scanned::Incomplete => Scanned::Incomplete,
            Scanned::Malformed(p) => Scanned::Malformed(p),
            Scanned::Done(end, header) => if end >= t.len() {
                Scanned::Incomplete
            } else if t.at(end) == START_OF_TEXT {
                Scanned::Done(end + 1, header)
            } else {
                Scanned::Malformed(end)
            },
        }
    }
}

/// Reads the text of a message at position `i`.
pub fn text_from(t: &Text, i: usize) -> (r: Scanned<String>)
    requires
        i <= t@.len(),
    ensures
        match r {
            Scanned::Incomplete => text_at(t@, i as int) is Incomplete,
            Scanned::Malformed(p) => false,
            Scanned::Done(next, text) => text_at(t@, i as int) == Scan::Done(next as int, text@)
                && i < next <= t@.len(),
        },
{
    let end = scan(t, i, CharClass::Except(END_OF_TEXT));
    if end >= t.len() {
        Scanned::Incomplete
    } else {
        Scanned::Done(end + 1, t.slice(i, end))
    }
}

/// Reads a message at position `i`.
pub fn message_from(t: &Text, i: usize) -> (r: Scanned<Message>)
    requires
        i <= t@.len(),
    ensures
        match r {
            Scanned::Incomplete => message_at(t@, i as int) is Incomplete,
            Scanned::Malformed(p) => message_at(t@, i as int) == Scan::<MessageView>::Malformed(
                p as int,
            ) && p <= t@.len(),
            Scanned::Done(next, message) => message_at(t@, i as int) == Scan::Done(
                next as int,
                message@,
            ) && i < next <= t@.len(),
        },
{
    match header_from(t, i) {
        Scanned::Incomplete => Scanned::Incomplete,
        Scanned::Malformed(p) => Scanned::Malformed(p),
        Scanned::Done(from, header) => match text_from(t, from) {
            Scanned::Incomplete => Scanned::Incomplete,
            Scanned::Malformed(p) => Scanned::Malformed(p),
            Scanned::Done(next, text) => Scanned::Done(next, Message { header, text }),
        },
    }
}

/// Reads a line of plain output at position `i`.
pub fn text_line_from(t: &Text, i: usize) -> (r: Scanned<String>)
    requires
        i <= t@.len(),
    ensures
        match r {
            Scanned::Incomplete => text_line_at(t@, i as int) is Incomplete,
            Scanned::Malformed(p) => text_line_at(t@, i as int) == Scan::<Seq<char>>::Malformed(
                p as int,
            ) && p <= t@.len(),
            Scanned::Done(next, line) => text_line_at(t@, i as int) == Scan::Done(
                next as int,
                line@,
            ) && i < next <= t@.len(),
        },
{
    let end = scan(t, i, CharClass::Line);
    if end >= t.len() {
        Scanned::Incomplete
    } else if t.at(end) == '\n' {
        Scanned::Done(end + 1, t.slice(i, end))
    } else if end > i {
        Scanned::Done(end, t.slice(i, end))
    } else {
        Scanned::Malformed(i)
    }
}

/// Reads the next piece of the output of a unit at the beginning of `t`.
pub fn stdout_data_from(t: &Text) -> (r: Scanned<StdoutData>)
    ensures
        match r {
            Scanned::Incomplete => stdout_data_at(t@) is Incomplete,
            Scanned::Malformed(p) => stdout_data_at(t@) == Scan::<StdoutDataView>::Malformed(
                p as int,
            ) && p <= t@.len(),
            Scanned::Done(next, data) => stdout_data_at(t@) == Scan::Done(next as int, data@) && 0
                < next <= t@.len(),
        },
{
    let from = scan(t, 0, CharClass::Space);
    if from >= t.len() {
        Scanned::Incomplete
    } else if t.at(from) == START_OF_HEADER {
        match message_from(t, from) {
            Scanned::Incomplete => Scanned::Incomplete,
            Scanned::Malformed(p) => Scanned::Malformed(p),
            Scanned::Done(next, message) => Scanned::Done(
                scan(t, next, CharClass::Space),
                StdoutData::Message(message),
            ),
        }
    } else {
        match text_line_from(t, 0) {
            Scanned::Incomplete => Scanned::Incomplete,
            Scanned::Malformed(p) => Scanned::Malformed(p),
            Scanned::Done(next, line) => Scanned::Done(next, StdoutData::TextLine(line)),
        }
    }
}

/// A label of a header, with blanks around it.
pub fn header_label(input: &str) -> (r: Result<(&str, String), Stop>)
    ensures
        reports(r, input@, header_label_at(input@, 0), |x: String, v: Seq<char>| x@ == v),
{
    let t = Text::new(input);
    match header_label_from(&t, 0) {
        Scanned::Incomplete => Err(Stop::Incomplete),
        Scanned::Malformed(p) => Err(
            Stop::Malformed(Error::Parse { input: String::from_str(input), position: p }),
        ),
        Scanned::Done(next, name) => Ok((t.rest(next), name)),
    }
}

/// The text of a header: a name, and a field after a `.` where one follows.
pub fn header_text(input: &str) -> (r: Result<(&str, Header), Stop>)
    ensures
        reports(r, input@, header_text_at(input@, 0), |x: Header, v: HeaderView| x@ == v),
{
    let t = Text::new(input);
    match header_text_from(&t, 0) {
        Scanned::Incomplete => Err(Stop::Incomplete),
        Scanned::Malformed(p) => Err(
            Stop::Malformed(Error::Parse { input: String::from_str(input), position: p }),
        ),
        Scanned::Done(next, header) => Ok((t.rest(next), header)),
    }
}

/// The header of a message, between its delimiters.
pub fn header(input: &str) -> (r: Result<(&str, Header), Stop>)
    ensures
        reports(r, input@, header_at(input@, 0), |x: Header, v: HeaderView| x@ == v),
{
    let t = Text::new(input);
    match header_from(&t, 0) {
        Scanned::Incomplete => Err(Stop::Incomplete),
        Scanned::Malformed(p) => Err(
            Stop::Malformed(Error::Parse { input: String::from_str(input), position: p }),
        ),
        Scanned::Done(next, header) => Ok((t.rest(next), header)),
    }
}

/// The text of a message, up to the end of text.
pub fn text(input: &str) -> (r: Result<(&str, String), Stop>)
    ensures
        reports(r, input@, text_at(input@, 0), |x: String, v: Seq<char>| x@ == v),
{
    let t = Text::new(input);
    match text_from(&t, 0) {
        Scanned::Incomplete => Err(Stop::Incomplete),
        Scanned::Malformed(p) => Err(
            Stop::Malformed(Error::Parse { input: String::from_str(input), position: p }),
        ),
        Scanned::Done(next, text) => Ok((t.rest(next), text)),
    }
}

/// A message: a header and a text.
pub fn message(input: &str) -> (r: Result<(&str, Message), Stop>)
    ensures
        reports(r, input@, message_at(input@, 0), |x: Message, v: MessageView| x@ == v),
{
    let t = Text::new(input);
    match message_from(&t, 0) {
        Scanned::Incomplete => Err(Stop::Incomplete),
        Scanned::Malformed(p) => Err(
            Stop::Malformed(Error::Parse { input: String::from_str(input), position: p }),
        ),
        Scanned::Done(next, message) => Ok((t.rest(next), message)),
    }
}

/// A line of plain output.
pub fn text_line(input: &str) -> (r: Result<(&str, String), Stop>)
    ensures
        reports(r, input@, text_line_at(input@, 0), |x: String, v: Seq<char>| x@ == v),
{
    let t = Text::new(input);
    match text_line_from(&t, 0) {
        Scanned::Incomplete => Err(Stop::Incomplete),
        Scanned::Malformed(p) => Err(
            Stop::Malformed(Error::Parse { input: String::from_str(input), position: p }),
        ),
        Scanned::Done(next, line) => Ok((t.rest(next), line)),
    }
}

/// The next piece of the output of a unit: a message or a line.
pub fn stdout_data(input: &str) -> (r: Result<(&str, StdoutData), Stop>)
    ensures
        reports(r, input@, stdout_data_at(input@), |x: StdoutData, v: StdoutDataView| x@ == v),
{
    let t = Text::new(input);
    match stdout_data_from(&t) {
        Scanned::Incomplete => Err(Stop::Incomplete),
        Scanned::Malformed(p) => Err(
            Stop::Malformed(Error::Parse { input: String::from_str(input), position: p }),
        ),
        Scanned::Done(next, data) => Ok((t.rest(next), data)),
    }
}


/// Whether `label` can be the name or the field of a header: one or more of
/// the letters and digits of ASCII, `_` and `-`.
pub open spec fn is_header_label(label: Seq<char>) -> bool {
    label.len() > 0 && forall|i: int|
        0 <= i < label.len() ==> CharClass::HeaderLabel.has(#[trigger] label[i])
}

/// The text of the header `name[.field]`.
pub open spec fn header_text_of(header: HeaderView) -> Seq<char> {
    match header.field {
        Some(field) => header.name + seq!['.'] + field,
        None => header.name,
    }
}

/// The frame that carries `message`: the start of a header, the header, the
/// start of text, the text, and the end of text.
pub open spec fn frame(message: MessageView) -> Seq<char> {
    seq![START_OF_HEADER] + header_text_of(message.header) + seq![START_OF_TEXT] + message.text
        + seq![END_OF_TEXT]
}

/// Whether `message` can be carried in a frame: its name and its field, if it
/// has one, are labels, and its text holds no end of text.
pub open spec fn is_framable(message: MessageView) -> bool {
    &&& is_header_label(message.header.name)
    &&& message.header.field matches Some(field) ==> is_header_label(field)
    &&& forall|i: int| 0 <= i < message.text.len() ==> message.text[i] != END_OF_TEXT
}

/// What the first `k` characters of the frame of a message are read as:
/// nothing yet, as long as the frame is not whole; the message, and nothing
/// beside it, once it is.
pub proof fn lemma_frame_prefix(message: MessageView, k: int)
    requires
        is_framable(message),
        0 <= k <= frame(message).len(),
    ensures
        stdout_data_at(frame(message).take(k)) == if k < frame(message).len() {
            Scan::<StdoutDataView>::Incomplete
        } else {
            Scan::Done(frame(message).len() as int, StdoutDataView::Message(message))
        },
{
    let name = message.header.name;
    let text = message.text;
    let f = frame(message);
    let t = f.take(k);
    let head = header_text_of(message.header);
    let n1: int = 1 + name.len() as int;
    let n2: int = 1 + head.len() as int;
    let e: int = n2 + 1 + text.len() as int;
    assert(f.len() == e + 1);
    assert(f[0] == START_OF_HEADER);
    assert forall|i: int| 0 <= i < head.len() implies f[1 + i] == head[i] by {}
    assert(f[n2] == START_OF_TEXT);
    assert forall|i: int| 0 <= i < text.len() implies f[n2 + 1 + i] == text[i] by {}
    assert(f[e] == END_OF_TEXT);
    assert forall|i: int| 0 <= i < name.len() implies head[i] == name[i] by {}
    assert forall|i: int| 0 <= i < k implies t[i] == f[i] by {}
    let hl = CharClass::HeaderLabel;
    let sp = CharClass::Space;
    if k == 0 {
        assert(skip_ws(t, 0) == 0);
    } else {
        assert(t[0] == START_OF_HEADER);
        assert(skip_ws(t, 0) == 0) by {
            lemma_span_is(t, 0, 0, sp);
        }
        if k == 1 {
            assert(skip_ws(t, 1) == 1);
            assert(span(t, 1, hl) == 1);
        } else {
            assert(t[1] == name[0]);
            assert(hl.has(name[0]));
            assert(skip_ws(t, 1) == 1) by {
                lemma_span_is(t, 1, 1, sp);
            }
            if k <= n1 {
                assert(span(t, 1, hl) == k) by {
                    assert forall|i: int| 1 <= i < k implies hl.has(#[trigger] t[i]) by {
                        assert(t[i] == name[i - 1]);
                    }
                    lemma_span_is(t, 1, k, hl);
                }
            } else {
                // The name is whole: a point or the start of text follows it.
                assert(t[n1] == f[n1]);
                if message.header.field is Some {
                    assert(head[name.len() as int] == '.');
                } else {
                    assert(n1 == n2);
                }
                assert(!hl.has(t[n1]));
                assert(!sp.has(t[n1]));
                assert(span(t, 1, hl) == n1) by {
                    assert forall|i: int| 1 <= i < n1 implies hl.has(#[trigger] t[i]) by {
                        assert(t[i] == name[i - 1]);
                    }
                    lemma_span_is(t, 1, n1, hl);
                }
                assert(skip_ws(t, n1) == n1) by {
                    lemma_span_is(t, n1, n1, sp);
                }
                assert(t.subrange(1, n1) =~= name);
                assert(header_label_at(t, 1) == Scan::Done(n1, name));
                if message.header.field is Some {
                    let field = message.header.field->0;
                    assert(n2 == n1 + 1 + field.len());
                    assert forall|i: int| 0 <= i < field.len() implies head[name.len() + 1 + i]
                        == field[i] by {}
                    assert(t[n1] == '.');
                    if k == n1 + 1 {
                        assert(skip_ws(t, n1 + 1) == n1 + 1);
                        assert(span(t, n1 + 1, hl) == n1 + 1);
                        assert(header_label_at(t, n1 + 1) is Incomplete);
                    } else {
                        assert(t[n1 + 1] == field[0]);
                        assert(hl.has(field[0]));
                        assert(skip_ws(t, n1 + 1) == n1 + 1) by {
                            lemma_span_is(t, n1 + 1, n1 + 1, sp);
                        }
                        if k <= n2 {
                            assert(span(t, n1 + 1, hl) == k) by {
                                assert forall|i: int| n1 + 1 <= i < k implies hl.has(
                                    #[trigger] t[i],
                                ) by {
                                    assert(t[i] == field[i - n1 - 1]);
                                }
                                lemma_span_is(t, n1 + 1, k, hl);
                            }
                            assert(header_label_at(t, n1 + 1) is Incomplete);
                        } else {
                            assert(t[n2] == START_OF_TEXT);
                            assert(span(t, n1 + 1, hl) == n2) by {
                                assert forall|i: int| n1 + 1 <= i < n2 implies hl.has(
                                    #[trigger] t[i],
                                ) by {
                                    assert(t[i] == field[i - n1 - 1]);
                                }
                                lemma_span_is(t, n1 + 1, n2, hl);
                            }
                            assert(skip_ws(t, n2) == n2) by {
                                lemma_span_is(t, n2, n2, sp);
                            }
                            assert(t.subrange(n1 + 1, n2) =~= field);
                            assert(header_label_at(t, n1 + 1) == Scan::Done(n2, field));
                        }
                    }
                } else {
                    assert(t[n1] == START_OF_TEXT);
                }
                if k > n2 {
                    assert(header_text_at(t, 1) == Scan::Done(n2, message.header));
                    assert(t[n2] == START_OF_TEXT);
                    assert(header_at(t, 0) == Scan::Done(n2 + 1, message.header));
                    let ex = CharClass::Except(END_OF_TEXT);
                    if k <= e {
                        assert(span(t, n2 + 1, ex) == k) by {
                            assert forall|i: int| n2 + 1 <= i < k implies ex.has(#[trigger] t[i]) by {
                                assert(t[i] == text[i - n2 - 1]);
                            }
                            lemma_span_is(t, n2 + 1, k, ex);
                        }
                        assert(text_at(t, n2 + 1) is Incomplete);
                    } else {
                        assert(t[e] == END_OF_TEXT);
                        assert(span(t, n2 + 1, ex) == e) by {
                            assert forall|i: int| n2 + 1 <= i < e implies ex.has(#[trigger] t[i]) by {
                                assert(t[i] == text[i - n2 - 1]);
                            }
                            lemma_span_is(t, n2 + 1, e, ex);
                        }
                        assert(t.subrange(n2 + 1, e) =~= text);
                        assert(text_at(t, n2 + 1) == Scan::Done(e + 1, text));
                        assert(message_at(t, 0) == Scan::Done(e + 1, message));
                        assert(skip_ws(t, e + 1) == e + 1);
                    }
                }
            }
        }
    }
}

/// A message that is put in a frame and parsed comes out as it went in:
/// header and text are those of the message, and nothing is left over.
pub proof fn lemma_frame_round_trip(message: MessageView)
    requires
        is_framable(message),
    ensures
        stdout_data_at(frame(message)) == Scan::Done(
            frame(message).len() as int,
            StdoutDataView::Message(message),
        ),
{
    lemma_frame_prefix(message, frame(message).len() as int);
    assert(frame(message).take(frame(message).len() as int) =~= frame(message));
}

/// What has arrived when `chunks` have been read one after the other.
pub open spec fn arrived(chunks: Seq<Seq<char>>) -> Seq<char>
    decreases chunks.len(),
{
    if chunks.len() == 0 {
        Seq::<char>::empty()
    } else {
        arrived(chunks.drop_last()) + chunks.last()
    }
}

/// What has arrived after the first `k` of some chunks is the beginning of
/// what has arrived after all of them.
proof fn lemma_arrived_prefix(chunks: Seq<Seq<char>>, k: int)
    requires
        0 <= k <= chunks.len(),
    ensures
        arrived(chunks.take(k)).len() <= arrived(chunks).len(),
        arrived(chunks.take(k)) == arrived(chunks).take(arrived(chunks.take(k)).len() as int),
    decreases chunks.len() - k,
{
    if k == chunks.len() {
        assert(chunks.take(k) =~= chunks);
        assert(arrived(chunks).take(arrived(chunks).len() as int) =~= arrived(chunks));
    } else {
        lemma_arrived_prefix(chunks, k + 1);
        let longer = chunks.take(k + 1);
        assert(longer.drop_last() =~= chunks.take(k));
        let here = arrived(chunks.take(k));
        assert(arrived(longer) == here + chunks[k]);
        assert(here =~= arrived(longer).take(here.len() as int));
        assert(here =~= arrived(chunks).take(here.len() as int));
    }
}

/// For any split of the frame of a message into chunks, reading the chunks
/// in order gives nothing while the frame is not whole, and the one message
/// once the last of it has arrived.
pub proof fn lemma_frame_in_chunks(message: MessageView, chunks: Seq<Seq<char>>, k: int)
    requires
        is_framable(message),
        arrived(chunks) == frame(message),
        0 <= k <= chunks.len(),
    ensures
        stdout_data_at(arrived(chunks.take(k))) == if arrived(chunks.take(k)).len() < frame(
            message,
        ).len() {
            Scan::<StdoutDataView>::Incomplete
        } else {
            Scan::Done(frame(message).len() as int, StdoutDataView::Message(message))
        },
{
    lemma_arrived_prefix(chunks, k);
    lemma_frame_prefix(message, arrived(chunks.take(k)).len() as int);
}

} // verus!
