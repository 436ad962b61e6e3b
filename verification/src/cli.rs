//! The command surface: which action a command line asks for.

use vstd::prelude::*;
use crate::text::same_text;

verus! {

/// The command-line front end. It holds no state.
pub struct Cli;

/// What one run of the program does.
#[derive(Debug, PartialEq)]
pub enum Action {
    /// Peel the named file; write to `output`, or to standard output.
    PeelFile { input: String, output: Option<String> },
    /// Peel what standard input holds; write to `output`, or to standard
    /// output.
    PeelStdin { output: Option<String> },
    /// No command was given: say so and end successfully.
    NoCommand,
}

/// The action of the `peel` command: peel the file where one is named,
/// standard input where none is.
pub open spec fn peel_action(file: Option<String>, output: Option<String>) -> Action {
    match file {
        Some(input) => Action::PeelFile { input, output },
        None => Action::PeelStdin { output },
    }
}

/// The action of a command line. Only the command `peel` does anything.
pub open spec fn planned_action(
    subcommand: Option<&str>,
    file: Option<String>,
    output: Option<String>,
) -> Action {
    match subcommand {
        Some(name) => if name@ == "peel"@ {
            peel_action(file, output)
        } else {
            Action::NoCommand
        },
        None => Action::NoCommand,
    }
}

impl Default for Cli {
    fn default() -> (cli: Self)
        ensures
            cli == Cli,
    {
        Cli::new()
    }
}

impl Cli {
    /// A front end.
    pub fn new() -> (cli: Self)
        ensures
            cli == Cli,
    {
        Cli
    }

    /// The action that a command line asks for: `subcommand` is the name of
    /// the command that was given, `file` and `output` are its arguments.
    pub fn plan(&self, subcommand: Option<&str>, file: Option<String>, output: Option<String>) -> (action:
        Action)
        ensures
            action == planned_action(subcommand, file, output),
    {
        match subcommand {
            Some(name) => {
                if same_text(name, "peel") {
                    self.handle_peel_command(file, output)
                } else {
                    Action::NoCommand
                }
            },
            None => Action::NoCommand,
        }
    }

    /// The action of the `peel` command with the given arguments.
    pub fn handle_peel_command(&self, file: Option<String>, output: Option<String>) -> (action:
        Action)
        ensures
            action == peel_action(file, output),
    {
        match file {
            Some(input) => Action::PeelFile { input, output },
            None => Action::PeelStdin { output },
        }
    }
}

} // verus!
