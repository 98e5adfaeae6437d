//! Turning a leaf node into the process invocation that runs its command.
//!
//! A command is run through the configured shell (`<shell> -c <command>`),
//! its output captured; a command marked external is run through the
//! configured terminal emulator (`<emulator> <run-flag> <shell> -c
//! <command>`) and detached, nothing captured.  Spawning the process is the
//! caller's task: this module only decides program, arguments and whether to
//! wait.

use vstd::prelude::*;

use crate::config_structs::ConfigNode;
use crate::config_structs::EddieConfig;
use crate::config_structs::EddieModel;

verus! {

/// One process invocation: the program, its arguments in order, and whether
/// the launcher detaches from it instead of capturing its output.
#[derive(Debug, Clone, PartialEq, Eq)]
pub struct CommandInvocation {
    pub program: String,
    pub args: Vec<String>,
    pub detach: bool,
}

/// The mathematical model of an invocation.
pub struct InvocationModel {
    pub program: Seq<char>,
    pub args: Seq<Seq<char>>,
    pub detach: bool,
}

impl View for CommandInvocation {
    type V = InvocationModel;

    open spec fn view(&self) -> InvocationModel {
        InvocationModel {
            program: self.program@,
            args: self.args@.map_values(|s: String| s@),
            detach: self.detach,
        }
    }
}

/// The invocation that runs command text `command`: through the shell when
/// captured, through the terminal emulator when external.
pub open spec fn spec_invocation(
    cfg: EddieModel,
    command: Seq<char>,
    opens_external: bool,
) -> InvocationModel {
    if opens_external {
        InvocationModel {
            program: cfg.terminal_emulator,
            args: seq![cfg.terminal_emulator_command_arg, cfg.shell, "-c"@, command],
            detach: true,
        }
    } else {
        InvocationModel { program: cfg.shell, args: seq!["-c"@, command], detach: false }
    }
}

/// Builds the process invocation that runs the command of `node` under the
/// launcher settings `cfg`.
pub fn command_invocation(cfg: &EddieConfig, node: &ConfigNode) -> (r: CommandInvocation)
    ensures
        r@ == spec_invocation(cfg@, node@.command, node@.opens_external),
{
    let mut args: Vec<String> = Vec::new();
    let r = if node.opens_external {
        args.push(cfg.terminal_emulator_command_arg.clone());
        args.push(cfg.shell.clone());
        args.push("-c".to_owned());
        args.push(node.command.clone());
        CommandInvocation { program: cfg.terminal_emulator.clone(), args, detach: true }
    } else {
        args.push("-c".to_owned());
        args.push(node.command.clone());
        CommandInvocation { program: cfg.shell.clone(), args, detach: false }
    };
    proof {
        assert(r@.args =~= spec_invocation(cfg@, node@.command, node@.opens_external).args);
    }
    r
}

} // verus!
