//! Operations of git.

use crate::cmd::{Command, CommandShape};
use crate::operation::file::FilePath;
use crate::text::{bool_text, show_bool};
use vstd::prelude::*;
use vstd::string::StringExecFns;

verus! {

/// One step on a git checkout.
#[derive(Debug, Clone)]
pub enum GitOperation {
    Clone { repo: String, path: FilePath },
    Fetch { path: FilePath },
    Checkout { path: FilePath, version: String, force: bool },
    Pull { path: FilePath },
}

/// The operations of git, as a kind.
#[derive(Debug, Clone)]
pub struct Git;

impl Git {
    /// Git operations are not merged.
    pub fn merge(operations: Vec<GitOperation>) -> (out: Vec<GitOperation>)
        ensures
            out == operations,
    {
        operations
    }
}

} // verus!

verus! {

/// The arguments of `git` for an operation.
pub open spec fn git_arguments(operation: GitOperation) -> Seq<Seq<char>> {
    match operation {
        GitOperation::Clone { repo, path } => seq!["clone"@, repo@, path@],
        GitOperation::Fetch { path } => seq!["-C"@, path@, "fetch"@, "--all"@, "--prune"@],
        GitOperation::Checkout { path, version, force } => if force {
            seq!["-C"@, path@, "checkout"@, "-f"@, version@]
        } else {
            seq!["-C"@, path@, "checkout"@, version@]
        },
        GitOperation::Pull { path } => seq!["-C"@, path@, "pull"@, "--ff-only"@],
    }
}

impl GitOperation {
    /// The command that carries the operation out.
    pub fn command(&self) -> (command: Command)
        ensures
            command@ == (CommandShape {
                program: "git"@,
                args: git_arguments(*self),
                envs: Seq::empty(),
                current_dir: None,
                stdout: false,
                stderr: false,
            }),
    {
        let mut command = Command::new("git");
        match self {
            GitOperation::Clone { repo, path } => {
                command.arg("clone");
                command.arg(repo.as_str());
                command.arg(path.as_path());
            },
            GitOperation::Fetch { path } => {
                command.arg("-C");
                command.arg(path.as_path());
                command.arg("fetch");
                command.arg("--all");
                command.arg("--prune");
            },
            GitOperation::Checkout { path, version, force } => {
                command.arg("-C");
                command.arg(path.as_path());
                command.arg("checkout");
                if *force {
                    command.arg("-f");
                }
                command.arg(version.as_str());
            },
            GitOperation::Pull { path } => {
                command.arg("-C");
                command.arg(path.as_path());
                command.arg("pull");
                command.arg("--ff-only");
            },
        }
        assert(command@.args =~= git_arguments(*self));
        command
    }
}

} // verus!

verus! {

impl GitOperation {
    /// What the value shows as text.
    pub open spec fn spec_label(self) -> Seq<char> {
        match self {
            GitOperation::Clone { repo, path } => "Git::Clone(repo = "@ + repo@ + ", path = "@ + path@ + ")"@,
            GitOperation::Fetch { path } => "Git::Fetch(path = "@ + path@ + ")"@,
            GitOperation::Checkout { path, version, force } => "Git::Checkout(path = "@ + path@ + ", version = "@ + version@ + ", force = "@ + bool_text(force) + ")"@,
            GitOperation::Pull { path } => "Git::Pull(path = "@ + path@ + ")"@,
        }
    }

    /// What the value shows as text.
    pub fn label(&self) -> (text: String)
        ensures
            text@ == self.spec_label(),
    {
        let mut text = String::new();
        match self {
            GitOperation::Clone { repo, path } => {
                text.append("Git::Clone(repo = ");
                text.append(repo.as_str());
                text.append(", path = ");
                text.append(path.0.as_str());
                text.append(")");
            },
            GitOperation::Fetch { path } => {
                text.append("Git::Fetch(path = ");
                text.append(path.0.as_str());
                text.append(")");
            },
            GitOperation::Checkout { path, version, force } => {
                text.append("Git::Checkout(path = ");
                text.append(path.0.as_str());
                text.append(", version = ");
                text.append(version.as_str());
                text.append(", force = ");
                text.append(show_bool(*force));
                text.append(")");
            },
            GitOperation::Pull { path } => {
                text.append("Git::Pull(path = ");
                text.append(path.0.as_str());
                text.append(")");
            },
        }
        text
    }
}

} // verus!
