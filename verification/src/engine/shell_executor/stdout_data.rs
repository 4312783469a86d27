//! Parses the output of a unit into text lines and messages, as it arrives.

use crate::error::Error;
use crate::models::stdout_data::StdoutData;
use crate::parser::common::is_parse_error;
use crate::parser::stdout_data::{stdout_data_at, Scan};
use crate::parser::{parse_stdout_data, StreamingResult};
use vstd::prelude::*;
use vstd::string::StringExecFns;

verus! {

/// Holds the output of a unit that has been read and not yet parsed.
pub struct StdoutDataProducer {
    buf: String,
}

/// What asking a producer for the next piece of output comes to.
#[derive(Debug)]
pub enum Produced {
    /// A piece of output.
    Data(StdoutData),
    /// What was read so far does not make up a piece: more is to be read.
    NeedMore,
    /// What was read does not follow the emit protocol.
    Malformed(Error),
}

impl View for StdoutDataProducer {
    type V = Seq<char>;

    closed spec fn view(&self) -> Seq<char> {
        self.buf@
    }
}

impl StdoutDataProducer {
    /// A producer that has read nothing.
    pub fn new() -> (p: Self)
        ensures
            p@ == Seq::<char>::empty(),
    {
        StdoutDataProducer { buf: String::new() }
    }

    /// Takes in output that was read from the unit.
    pub fn push(&mut self, chunk: &str)
        ensures
            final(self)@ == old(self)@ + chunk@,
    {
        self.buf.append(chunk);
    }

    /// The next piece of output, if what was read holds a whole one; it is
    /// taken off what is held. Otherwise nothing changes.
    pub fn next(&mut self) -> (r: Produced)
        ensures
            match stdout_data_at(old(self)@) {
                Scan::Incomplete => r is NeedMore && final(self)@ == old(self)@,
                Scan::Malformed(position) => {
                    &&& r matches Produced::Malformed(e)
                    &&& is_parse_error(e, old(self)@, position)
                    &&& final(self)@ == old(self)@
                },
                Scan::Done(next, data) => {
                    &&& r matches Produced::Data(d)
                    &&& d@ == data
                    &&& final(self)@ == old(self)@.skip(next)
                },
            },
    {
        let parsed = match parse_stdout_data(self.buf.as_str()) {
            StreamingResult::Incomplete => None,
            StreamingResult::Complete(Ok((remaining, data))) => Some(
                Ok((String::from_str(remaining), data)),
            ),
            StreamingResult::Complete(Err(e)) => Some(Err(e)),
        };
        match parsed {
            None => Produced::NeedMore,
            Some(Ok((remaining, data))) => {
                self.buf = remaining;
                Produced::Data(data)
            },
            Some(Err(e)) => Produced::Malformed(e),
        }
    }

    /// What the end of the output means: nothing, if all that was read has
    /// been parsed; otherwise the output ended in the middle of a piece.
    pub fn finalize(self) -> (r: Result<(), Error>)
        ensures
            match r {
                Ok(_) => self@.len() == 0,
                Err(e) => self@.len() > 0 && e == Error::UnexpectedEof,
            },
    {
        if self.buf.as_str().unicode_len() == 0 {
            Ok(())
        } else {
            Err(Error::UnexpectedEof)
        }
    }
}

} // verus!
