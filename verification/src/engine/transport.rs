//! Says how a file is carried from the local file system to a target.

use super::shell_executor::subprocess::{Command, CommandView};
use crate::error::Error;
use crate::models::dep::FileDependency;
use crate::models::seq_view;
use crate::models::target::{Target, TargetView};
use crate::text::same_text;
use vstd::prelude::*;
use vstd::string::StringExecFns;

verus! {

/// The command that carries the file `src` to `dest` on `target`, if the
/// protocol of the target has one: `cp` for `local`, `podman cp` for
/// `podman`, `scp` for `ssh`. On a target other than this machine the
/// destination is written `host:dest`.
pub open spec fn transport_for(src: Seq<char>, dest: Seq<char>, target: TargetView) -> Option<
    CommandView,
> {
    if target.proto == "local"@ {
        Some(CommandView { cmd: "cp"@, args: seq![src, dest] })
    } else if target.proto == "podman"@ {
        Some(CommandView { cmd: "podman"@, args: seq!["cp"@, src, target.host + ":"@ + dest] })
    } else if target.proto == "ssh"@ {
        Some(CommandView { cmd: "scp"@, args: seq![src, target.host + ":"@ + dest] })
    } else {
        None
    }
}

/// `host:dest`, the place of a file on another machine.
fn remote_path(target: &Target, dest: &String) -> (r: String)
    ensures
        r@ == target.host@ + ":"@ + dest@,
{
    let mut r = target.host.clone();
    r.append(":");
    r.append(dest.as_str());
    r
}

/// Builds the command that transports a file from the local file system to
/// the target.
pub fn transport_command(file: &FileDependency, target: &Target) -> (r: Result<Command, Error>)
    ensures
        match r {
            Ok(command) => transport_for(file.src@, file.dest@, target@) == Some(command@)
                && command.env@ == Map::<Seq<char>, String>::empty(),
            Err(e) => {
                &&& transport_for(file.src@, file.dest@, target@) is None
                &&& e matches Error::NoTransport(proto)
                &&& proto@ == target.proto@
            },
        },
{
    let mut args: Vec<String> = Vec::new();
    if same_text(target.proto.as_str(), "local") {
        args.push(file.src.clone());
        args.push(file.dest.clone());
        assert(seq_view(args@) =~= seq![file.src@, file.dest@]);
        Ok(Command::new(String::from_str("cp"), args))
    } else if same_text(target.proto.as_str(), "podman") {
        args.push(String::from_str("cp"));
        args.push(file.src.clone());
        args.push(remote_path(target, &file.dest));
        assert(seq_view(args@) =~= seq!["cp"@, file.src@, target.host@ + ":"@ + file.dest@]);
        Ok(Command::new(String::from_str("podman"), args))
    } else if same_text(target.proto.as_str(), "ssh") {
        args.push(file.src.clone());
        args.push(remote_path(target, &file.dest));
        assert(seq_view(args@) =~= seq![file.src@, target.host@ + ":"@ + file.dest@]);
        Ok(Command::new(String::from_str("scp"), args))
    } else {
        Err(Error::NoTransport(target.proto.clone()))
    }
}

} // verus!
