//! What is needed to start a child process.

use crate::models::seq_view;
use vstd::hash_map::StringHashMap;
use vstd::prelude::*;

verus! {

/// A command: the program to run, its arguments, and the variables added to
/// its environment.
pub struct Command {
    pub cmd: String,
    pub args: Vec<String>,
    pub env: StringHashMap<String>,
}

/// What a [`Command`] holds, as mathematics. The environment is left out: no
/// command of the engine sets a variable.
pub ghost struct CommandView {
    pub cmd: Seq<char>,
    pub args: Seq<Seq<char>>,
}

impl View for Command {
    type V = CommandView;

    open spec fn view(&self) -> CommandView {
        CommandView { cmd: self.cmd@, args: seq_view(self.args@) }
    }
}

impl Command {
    /// The command that runs `cmd` with `args` in an unchanged environment.
    pub fn new(cmd: String, args: Vec<String>) -> (c: Command)
        ensures
            c@ == (CommandView { cmd: cmd@, args: seq_view(args@) }),
            c.env@ == Map::<Seq<char>, String>::empty(),
    {
        Command { cmd, args, env: StringHashMap::new() }
    }
}

} // verus!
