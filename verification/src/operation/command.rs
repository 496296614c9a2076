//! Operations that run a command given by the plan.

use crate::cmd::{command_of, shell_words_of, CommandParseError};
use vstd::prelude::*;
use vstd::string::StringExecFns;

verus! {

/// A command line to run.
#[derive(Debug, Clone)]
pub struct CommandOperation {
    pub command: String,
}

/// The operations that run a command, as a kind.
#[derive(Debug, Clone)]
pub struct Command;

impl Command {
    /// Command operations are not merged.
    pub fn merge(operations: Vec<CommandOperation>) -> (out: Vec<CommandOperation>)
        ensures
            out == operations,
    {
        operations
    }
}

} // verus!

verus! {

impl CommandOperation {
    /// The command that carries the operation out: the line as a shell
    /// reads it. A line with an open quote is no command.
    pub fn command(&self) -> (command: Result<crate::cmd::Command, CommandParseError>)
        ensures
            match command {
                Ok(command) => shell_words_of(self.command@) matches Some(words) && command@
                    == command_of(words),
                Err(_) => shell_words_of(self.command@) is None,
            },
    {
        crate::cmd::Command::from_str(self.command.as_str())
    }
}

} // verus!

verus! {

impl CommandOperation {
    /// What the value shows as text.
    pub open spec fn spec_label(self) -> Seq<char> {
        "Command("@ + self.command@ + ")"@
    }

    /// What the value shows as text.
    pub fn label(&self) -> (text: String)
        ensures
            text@ == self.spec_label(),
    {
        let mut text = String::new();
        text.append("Command(");
        text.append(self.command.as_str());
        text.append(")");
        text
    }
}

} // verus!
