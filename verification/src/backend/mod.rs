//! Install backend: target layout, asset discovery rules, disk naming,
//! privilege-command outcomes, the Limine boot configuration, accounts,
//! services, preflight and deploy decisions.
pub mod assets;
pub mod config;
pub mod disk;
pub mod elevate_cmd;
pub mod limine;
pub mod paths;
pub mod user;
pub mod quantra;
pub mod deploy;
pub mod preflight;

use vstd::prelude::*;

use crate::backend::elevate_cmd::{cmd_view, CommandLine};
use crate::text::{owned, strings_view};

verus! {

/// The command that reboots the machine: `quantra-ctl shutdown --reboot`
/// when `quantra-ctl` is installed (PID 1 stops the services gracefully;
/// never `systemctl`), else a bare `reboot`.
pub fn reboot(quantra_ctl_found: bool) -> (c: CommandLine)
    ensures
        quantra_ctl_found ==> cmd_view(c) == ("quantra-ctl"@, seq!["shutdown"@, "--reboot"@]),
        !quantra_ctl_found ==> cmd_view(c) == ("reboot"@, Seq::<Seq<char>>::empty()),
{
    if quantra_ctl_found {
        let mut args: Vec<String> = Vec::new();
        args.push(owned("shutdown"));
        args.push(owned("--reboot"));
        assert(strings_view(args@) =~= seq!["shutdown"@, "--reboot"@]);
        CommandLine { program: "quantra-ctl", args }
    } else {
        let args: Vec<String> = Vec::new();
        assert(strings_view(args@) =~= Seq::<Seq<char>>::empty());
        CommandLine { program: "reboot", args }
    }
}

} // verus!
