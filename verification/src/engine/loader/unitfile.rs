//! Unit files contain multiple units, separated by header lines that name
//! them. This module provides the logic for loading units from them.

use crate::parser::parse_unitfile_header;
use crate::parser::unit_file::header_at;
use crate::parser::whole;
use crate::text::{lemma_span, scan, skip_ws, span, CharClass, Text};
use vstd::hash_map::StringHashMap;
use vstd::prelude::*;
use vstd::string::StringExecFns;

verus! {

/// The name and the script of each unit that a unit file defines.
pub type UnitDefinitions = StringHashMap<String>;

/// The scripts that a table holds, as text.
pub open spec fn scripts_of(table: Map<Seq<char>, String>) -> Map<Seq<char>, Seq<char>> {
    table.map_values(|script: String| script@)
}

/// A line without the carriage return at its end, if it has one.
pub open spec fn without_cr(line: Seq<char>) -> Seq<char> {
    if line.len() > 0 && line.last() == '\r' {
        line.drop_last()
    } else {
        line
    }
}

/// The name that a line gives to the unit that starts there, if the line is a
/// header.
pub open spec fn header_name(line: Seq<char>) -> Option<Seq<char>> {
    match whole(line, header_at(line, skip_ws(line, 0))) {
        Ok(name) => Some(name),
        Err(_) => None,
    }
}

/// The definitions so far, with the unit that was being read added to them.
pub open spec fn closed(
    current: Option<Seq<char>>,
    script: Seq<char>,
    defs: Map<Seq<char>, Seq<char>>,
) -> Map<Seq<char>, Seq<char>> {
    match current {
        Some(name) => defs.insert(name, script),
        None => defs,
    }
}

/// The definitions that come of reading the lines of `s` from position `i`
/// on, where the unit `current` is being read, `script` is what was read of
/// it, and `defs` are the units before it.
///
/// A header line ends the unit before it and starts the next. Any other line
/// is added to the script of the unit being read, with a line feed after it;
/// lines before the first header belong to no unit. A unit defined twice
/// keeps its last script.
pub open spec fn defs_from(
    s: Seq<char>,
    i: int,
    current: Option<Seq<char>>,
    script: Seq<char>,
    defs: Map<Seq<char>, Seq<char>>,
) -> Map<Seq<char>, Seq<char>>
    decreases s.len() - i,
{
    if 0 <= i < s.len() {
        let end = span(s, i, CharClass::Except('\n'));
        let line = without_cr(s.subrange(i, end));
        let next = if end < s.len() {
            end + 1
        } else {
            end
        };
        if i < next <= s.len() {
            match header_name(line) {
                Some(name) => defs_from(
                    s,
                    next,
                    Some(name),
                    Seq::empty(),
                    closed(current, script, defs),
                ),
                None => defs_from(s, next, current, script + line + seq!['\n'], defs),
            }
        } else {
            closed(current, script, defs)
        }
    } else {
        closed(current, script, defs)
    }
}

/// The units that the text of a unit file defines.
pub open spec fn definitions(s: Seq<char>) -> Map<Seq<char>, Seq<char>> {
    defs_from(s, 0, None, Seq::empty(), Map::empty())
}

/// Reads the units that the text of a unit file defines: zero or more
/// blocks, each of which begins with a header line that names the unit and
/// holds its script up to the next header or the end.
pub fn parse_defs(text: &str) -> (defs: UnitDefinitions)
    ensures
        scripts_of(defs@) == definitions(text@),
{
    let t = Text::new(text);
    let n = t.len();
    let mut defs: UnitDefinitions = StringHashMap::new();
    let mut current: Option<String> = None;
    let mut script = String::new();
    let mut i: usize = 0;
    assert(scripts_of(defs@) =~= Map::<Seq<char>, Seq<char>>::empty());
    while i < n
        invariant
            i <= n,
            n == t@.len(),
            t@ == text@,
            definitions(text@) == defs_from(
                t@,
                i as int,
                crate::models::opt_view(current),
                script@,
                scripts_of(defs@),
            ),
        decreases n - i,
    {
        let end = scan(&t, i, CharClass::Except('\n'));
        proof {
            lemma_span(t@, i as int, CharClass::Except('\n'));
        }
        let line_end = if end > i && t.at(end - 1) == '\r' {
            end - 1
        } else {
            end
        };
        let line = t.slice(i, line_end);
        assert(line@ =~= without_cr(t@.subrange(i as int, end as int)));
        let next = if end < n {
            end + 1
        } else {
            end
        };
        match parse_unitfile_header(line.as_str()) {
            Ok(name) => {
                match current {
                    Some(finished) => {
                        let ghost before = defs@;
                        defs.insert(finished, script);
                        assert(scripts_of(defs@) =~= scripts_of(before).insert(
                            finished@,
                            script@,
                        ));
                    },
                    None => {},
                }
                current = Some(name);
                script = String::new();
            },
            Err(_) => {
                script.append(line.as_str());
                script.append("\n");
                proof {
                    reveal_strlit("\n");
                    assert("\n"@ =~= seq!['\n']);
                }
            },
        }
        i = next;
    }
    match current {
        Some(finished) => {
            let ghost before = defs@;
            defs.insert(finished, script);
            assert(scripts_of(defs@) =~= scripts_of(before).insert(finished@, script@));
        },
        None => {},
    }
    defs
}

/// A unit file that was read: where it lies, and the units it defines.
pub struct UnitFile {
    path: String,
    units: UnitDefinitions,
}

impl UnitFile {
    /// The path of the file.
    pub closed spec fn path(&self) -> Seq<char> {
        self.path@
    }

    /// The script of each unit of the file, by name.
    pub closed spec fn units(&self) -> Map<Seq<char>, Seq<char>> {
        scripts_of(self.units@)
    }

    /// The unit file at `path` whose content is `text`.
    pub fn load(path: String, text: &str) -> (file: UnitFile)
        ensures
            file.path() == path@,
            file.units() == definitions(text@),
    {
        UnitFile { path, units: parse_defs(text) }
    }

    /// The script of the unit `name`, if the file defines it.
    pub fn get(&self, name: &str) -> (script: Option<String>)
        ensures
            match script {
                Some(text) => self.units().contains_key(name@) && text@ == self.units()[name@],
                None => !self.units().contains_key(name@),
            },
    {
        match self.units.get(name) {
            Some(script) => Some(script.clone()),
            None => None,
        }
    }

    /// The path of the file, for display.
    pub fn display_path(&self) -> (path: String)
        ensures
            path@ == self.path(),
    {
        self.path.clone()
    }
}

} // verus!
