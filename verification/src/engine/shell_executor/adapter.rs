//! Logic for setting up adapters for unit execution: the processes that
//! carry the shell of a target.

use super::subprocess::{Command, CommandView};
use crate::error::Error;
use crate::models::seq_view;
use crate::models::target::{Target, TargetView};
use crate::models::unit::Unit;
use crate::text::same_text;
use vstd::hash_map::StringHashMap;
use vstd::prelude::*;
use vstd::string::StringExecFns;

verus! {

/// The commands registered as adapters, by protocol.
pub type Adapters = StringHashMap<String>;

/// The table that comes of registering each of `pairs`, a protocol and a
/// command, in turn.
pub open spec fn registered(pairs: Seq<(String, String)>) -> Map<Seq<char>, Seq<char>>
    decreases pairs.len(),
{
    if pairs.len() == 0 {
        Map::empty()
    } else {
        registered(pairs.drop_last()).insert(pairs.last().0@, pairs.last().1@)
    }
}

/// Registers a command for each protocol of `pairs`; for a protocol that
/// occurs twice, the later command.
pub fn adapters_from(pairs: Vec<(String, String)>) -> (adapters: Adapters)
    ensures
        commands_of(adapters@) == registered(pairs@),
{
    let mut adapters: Adapters = StringHashMap::new();
    let mut i: usize = 0;
    assert(pairs@.take(0) =~= Seq::<(String, String)>::empty());
    assert(commands_of(adapters@) =~= Map::<Seq<char>, Seq<char>>::empty());
    while i < pairs.len()
        invariant
            i <= pairs@.len(),
            commands_of(adapters@) == registered(pairs@.take(i as int)),
        decreases pairs@.len() - i,
    {
        let ghost before = adapters@;
        adapters.insert(pairs[i].0.clone(), pairs[i].1.clone());
        proof {
            let longer = pairs@.take(i + 1);
            assert(longer.drop_last() =~= pairs@.take(i as int));
            assert(longer.last() == pairs@[i as int]);
            assert(commands_of(adapters@) =~= commands_of(before).insert(
                pairs@[i as int].0@,
                pairs@[i as int].1@,
            ));
        }
        i = i + 1;
    }
    assert(pairs@.take(pairs@.len() as int) =~= pairs@);
    adapters
}

/// Why no command carries the shell of a target.
pub ghost enum AdapterFault {
    /// The `local` protocol with a host other than `localhost`.
    NotLocal,
    /// A protocol for which no adapter is known.
    Unknown,
}

/// The arguments for `podman` that open a shell in the container `host`, as
/// `user` where one is given.
pub open spec fn podman_args(target: TargetView) -> Seq<Seq<char>> {
    match target.user {
        Some(user) => seq!["exec"@, "-i"@, "--user"@, user, target.host, "/bin/sh"@],
        None => seq!["exec"@, "-i"@, target.host, "/bin/sh"@],
    }
}

/// The command that carries the shell of `target`, where `adapters` maps
/// protocols to the commands registered for them. The rules, in order:
/// a registered command is run with `[user@]host`; `ssh` is run with
/// `[user@]host`; `local` runs `/bin/sh` and stands for `localhost` alone;
/// `podman` runs a shell in a container; nothing else is known.
pub open spec fn adapter_for(adapters: Map<Seq<char>, Seq<char>>, target: TargetView) -> Result<
    CommandView,
    AdapterFault,
> {
    if adapters.contains_key(target.proto) {
        Ok(CommandView { cmd: adapters[target.proto], args: seq![target.user_host()] })
    } else if target.proto == "ssh"@ {
        Ok(CommandView { cmd: "ssh"@, args: seq![target.user_host()] })
    } else if target.proto == "local"@ {
        if target.host == "localhost"@ {
            Ok(CommandView { cmd: "/bin/sh"@, args: Seq::empty() })
        } else {
            Err(AdapterFault::NotLocal)
        }
    } else if target.proto == "podman"@ {
        Ok(CommandView { cmd: "podman"@, args: podman_args(target) })
    } else {
        Err(AdapterFault::Unknown)
    }
}

/// The commands of a table of adapters, as text.
pub open spec fn commands_of(adapters: Map<Seq<char>, String>) -> Map<Seq<char>, Seq<char>> {
    adapters.map_values(|command: String| command@)
}

/// Whether `e` reports `fault` for `target`.
pub open spec fn reports_adapter_fault(e: Error, fault: AdapterFault, target: TargetView) -> bool {
    match fault {
        AdapterFault::NotLocal => e matches Error::NotLocal(host) && host@ == target.host,
        AdapterFault::Unknown => e matches Error::NoAdapter(shown) && shown@ == target.text(),
    }
}

/// Builds the command that carries the shell of `target`.
pub fn get_adapter(adapters: &StringHashMap<String>, target: &Target) -> (r: Result<
    Command,
    Error,
>)
    ensures
        match r {
            Ok(command) => adapter_for(commands_of(adapters@), target@) == Ok::<
                CommandView,
                AdapterFault,
            >(command@) && command.env@ == Map::<Seq<char>, String>::empty(),
            Err(e) => adapter_for(commands_of(adapters@), target@) matches Err(fault)
                && reports_adapter_fault(e, fault, target@),
        },
{
    match adapters.get(target.proto.as_str()) {
        Some(adapter_cmd) => {
            let mut args: Vec<String> = Vec::new();
            args.push(target.user_host_string());
            assert(seq_view(args@) =~= seq![target@.user_host()]);
            return Ok(Command::new(adapter_cmd.clone(), args));
        },
        None => {},
    }
    if same_text(target.proto.as_str(), "ssh") {
        let mut args: Vec<String> = Vec::new();
        args.push(target.user_host_string());
        assert(seq_view(args@) =~= seq![target@.user_host()]);
        Ok(Command::new(String::from_str("ssh"), args))
    } else if same_text(target.proto.as_str(), "local") {
        if same_text(target.host.as_str(), "localhost") {
            let args: Vec<String> = Vec::new();
            assert(seq_view(args@) =~= Seq::<Seq<char>>::empty());
            Ok(Command::new(String::from_str("/bin/sh"), args))
        } else {
            Err(Error::NotLocal(target.host.clone()))
        }
    } else if same_text(target.proto.as_str(), "podman") {
        let mut args: Vec<String> = Vec::new();
        args.push(String::from_str("exec"));
        args.push(String::from_str("-i"));
        match &target.user {
            Some(user) => {
                args.push(String::from_str("--user"));
                args.push(user.clone());
            },
            None => {},
        }
        args.push(target.host.clone());
        args.push(String::from_str("/bin/sh"));
        assert(seq_view(args@) =~= podman_args(target@));
        Ok(Command::new(String::from_str("podman"), args))
    } else {
        Err(Error::NoAdapter(target.to_string()))
    }
}

/// The options that the shell of a unit without a target is started with.
pub open spec fn shell_opts() -> Seq<Seq<char>> {
    seq!["-e"@, "-x"@, "-u"@]
}

/// Builds the command that will run a unit, based on the adapter configured
/// for its target. A unit without a target runs in a shell of its own on
/// this machine.
pub fn build_command(unit: &Unit, adapters: &StringHashMap<String>) -> (r: Result<Command, Error>)
    ensures
        match unit.target {
            Some(target) => match r {
                Ok(command) => adapter_for(commands_of(adapters@), target@) == Ok::<
                    CommandView,
                    AdapterFault,
                >(command@) && command.env@ == Map::<Seq<char>, String>::empty(),
                Err(e) => adapter_for(commands_of(adapters@), target@) matches Err(fault)
                    && reports_adapter_fault(e, fault, target@),
            },
            None => r matches Ok(command) && command@ == (CommandView {
                cmd: "/bin/sh"@,
                args: shell_opts(),
            }) && command.env@ == Map::<Seq<char>, String>::empty(),
        },
{
    match &unit.target {
        Some(target) => get_adapter(adapters, target),
        None => {
            let mut args: Vec<String> = Vec::new();
            args.push(String::from_str("-e"));
            args.push(String::from_str("-x"));
            args.push(String::from_str("-u"));
            assert(seq_view(args@) =~= shell_opts());
            Ok(Command::new(String::from_str("/bin/sh"), args))
        },
    }
}

} // verus!
