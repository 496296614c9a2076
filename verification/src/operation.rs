//! Operations: the concrete mutations that bring a host to the wanted state.

pub mod apt;
pub mod command;
pub mod file;
pub mod git;
pub mod packages;
pub mod pacman;

use crate::operation::apt::{Apt, AptOperation};
use crate::operation::command::{Command, CommandOperation};
use crate::operation::file::{File, FileOperation};
use crate::operation::git::{Git, GitOperation};
use crate::operation::pacman::{Pacman, PacmanOperation};
use crate::view::{Render, ViewElement, ViewShape};
use vstd::prelude::*;
use vstd::string::StringExecFns;

verus! {

/// A concrete mutation of the host, of one of the kinds.
#[derive(Debug, Clone)]
pub enum Operation {
    Apt(AptOperation),
    Pacman(PacmanOperation),
    File(FileOperation),
    Command(CommandOperation),
    Git(GitOperation),
}

/// The operations of an epoch, kind by kind, each kind in the order given.
#[derive(Debug, Clone)]
pub struct OperationsByType {
    pub apt: Vec<AptOperation>,
    pub pacman: Vec<PacmanOperation>,
    pub file: Vec<FileOperation>,
    pub command: Vec<CommandOperation>,
    pub git: Vec<GitOperation>,
}

/// The apt operations among the first `upto`, in order.
pub open spec fn apt_among(operations: Seq<Operation>, upto: int) -> Seq<AptOperation>
    decreases upto,
{
    if upto <= 0 {
        Seq::empty()
    } else {
        match operations[upto - 1] {
            Operation::Apt(operation) => apt_among(operations, upto - 1).push(operation),
            _ => apt_among(operations, upto - 1),
        }
    }
}

/// The pacman operations among the first `upto`, in order.
pub open spec fn pacman_among(operations: Seq<Operation>, upto: int) -> Seq<PacmanOperation>
    decreases upto,
{
    if upto <= 0 {
        Seq::empty()
    } else {
        match operations[upto - 1] {
            Operation::Pacman(operation) => pacman_among(operations, upto - 1).push(operation),
            _ => pacman_among(operations, upto - 1),
        }
    }
}

/// The file operations among the first `upto`, in order.
pub open spec fn file_among(operations: Seq<Operation>, upto: int) -> Seq<FileOperation>
    decreases upto,
{
    if upto <= 0 {
        Seq::empty()
    } else {
        match operations[upto - 1] {
            Operation::File(operation) => file_among(operations, upto - 1).push(operation),
            _ => file_among(operations, upto - 1),
        }
    }
}

/// The command operations among the first `upto`, in order.
pub open spec fn command_among(operations: Seq<Operation>, upto: int) -> Seq<CommandOperation>
    decreases upto,
{
    if upto <= 0 {
        Seq::empty()
    } else {
        match operations[upto - 1] {
            Operation::Command(operation) => command_among(operations, upto - 1).push(operation),
            _ => command_among(operations, upto - 1),
        }
    }
}

/// The git operations among the first `upto`, in order.
pub open spec fn git_among(operations: Seq<Operation>, upto: int) -> Seq<GitOperation>
    decreases upto,
{
    if upto <= 0 {
        Seq::empty()
    } else {
        match operations[upto - 1] {
            Operation::Git(operation) => git_among(operations, upto - 1).push(operation),
            _ => git_among(operations, upto - 1),
        }
    }
}

/// Sorts the operations by kind, keeping the order within each kind.
pub fn partition_by_type(operations: Vec<Operation>) -> (parts: OperationsByType)
    ensures
        parts.apt@ == apt_among(operations@, operations.len() as int),
        parts.pacman@ == pacman_among(operations@, operations.len() as int),
        parts.file@ == file_among(operations@, operations.len() as int),
        parts.command@ == command_among(operations@, operations.len() as int),
        parts.git@ == git_among(operations@, operations.len() as int),
{
    let mut apt: Vec<AptOperation> = Vec::new();
    let mut pacman: Vec<PacmanOperation> = Vec::new();
    let mut file: Vec<FileOperation> = Vec::new();
    let mut command: Vec<CommandOperation> = Vec::new();
    let mut git: Vec<GitOperation> = Vec::new();
    let ghost list = operations@;
    for operation in it: operations
        invariant
            it.seq() == list,
            apt@ == apt_among(list, it.index() as int),
            pacman@ == pacman_among(list, it.index() as int),
            file@ == file_among(list, it.index() as int),
            command@ == command_among(list, it.index() as int),
            git@ == git_among(list, it.index() as int),
    {
        assert(operation == list[it.index() as int]);
        match operation {
            Operation::Apt(operation) => apt.push(operation),
            Operation::Pacman(operation) => pacman.push(operation),
            Operation::File(operation) => file.push(operation),
            Operation::Command(operation) => command.push(operation),
            Operation::Git(operation) => git.push(operation),
        }
    }
    OperationsByType { apt, pacman, file, command, git }
}

/// The apt operations as operations.
pub open spec fn apt_operations(list: Seq<AptOperation>) -> Seq<Operation> {
    Seq::new(list.len(), |i: int| Operation::Apt(list[i]))
}

/// The pacman operations as operations.
pub open spec fn pacman_operations(list: Seq<PacmanOperation>) -> Seq<Operation> {
    Seq::new(list.len(), |i: int| Operation::Pacman(list[i]))
}

/// The file operations as operations.
pub open spec fn file_operations(list: Seq<FileOperation>) -> Seq<Operation> {
    Seq::new(list.len(), |i: int| Operation::File(list[i]))
}

/// The command operations as operations.
pub open spec fn command_operations(list: Seq<CommandOperation>) -> Seq<Operation> {
    Seq::new(list.len(), |i: int| Operation::Command(list[i]))
}

/// The git operations as operations.
pub open spec fn git_operations(list: Seq<GitOperation>) -> Seq<Operation> {
    Seq::new(list.len(), |i: int| Operation::Git(list[i]))
}

/// The operations of an epoch after merging: `apt`, `pacman`, `file`,
/// `command` and `git` are the merged operations of each kind, and `merged`
/// holds them kind after kind.
pub open spec fn merged_by_type(
    merged: Seq<Operation>,
    apt: Seq<AptOperation>,
    pacman: Seq<PacmanOperation>,
    file: Seq<FileOperation>,
    command: Seq<CommandOperation>,
    git: Seq<GitOperation>,
) -> bool {
    merged == apt_operations(apt) + pacman_operations(pacman) + file_operations(file)
        + command_operations(command) + git_operations(git)
}

impl Operation {
    /// Merges the operations of one epoch kind by kind. The package
    /// managers come first, each reduced to at most one refresh and one
    /// install; the operations of the other kinds follow unchanged, each
    /// kind in the order given.
    pub fn merge(operations: Vec<Operation>) -> (merged: Vec<Operation>)
        ensures
            exists|apt: Seq<AptOperation>, pacman: Seq<PacmanOperation>|
                {
                    &&& crate::operation::apt::merged(
                        apt_among(operations@, operations.len() as int),
                        apt,
                    )
                    &&& crate::operation::pacman::merged(
                        pacman_among(operations@, operations.len() as int),
                        pacman,
                    )
                    &&& #[trigger] merged_by_type(
                        merged@,
                        apt,
                        pacman,
                        file_among(operations@, operations.len() as int),
                        command_among(operations@, operations.len() as int),
                        git_among(operations@, operations.len() as int),
                    )
                },
    {
        let OperationsByType { apt, pacman, file, command, git } = partition_by_type(operations);
        let apt = Apt::merge(apt);
        let pacman = Pacman::merge(pacman);
        let file = File::merge(file);
        let command = Command::merge(command);
        let git = Git::merge(git);
        let ghost apt_list = apt@;
        let ghost pacman_list = pacman@;
        let ghost file_list = file@;
        let ghost command_list = command@;
        let ghost git_list = git@;
        let mut merged: Vec<Operation> = Vec::new();
        for operation in it: apt
            invariant
                it.seq() == apt_list,
                merged@ == apt_operations(apt_list).subrange(0, it.index() as int),
        {
            assert(operation == apt_list[it.index() as int]);
            merged.push(Operation::Apt(operation));
            assert(merged@ =~= apt_operations(apt_list).subrange(0, it.index() + 1));
        }
        let ghost first = merged@;
        assert(first =~= apt_operations(apt_list));
        assert(merged@ =~= first + pacman_operations(pacman_list).subrange(0, 0));
        for operation in it: pacman
            invariant
                it.seq() == pacman_list,
                merged@ == first + pacman_operations(pacman_list).subrange(0, it.index() as int),
        {
            assert(operation == pacman_list[it.index() as int]);
            merged.push(Operation::Pacman(operation));
            assert(merged@ =~= first + pacman_operations(pacman_list).subrange(
                0,
                it.index() + 1,
            ));
        }
        let ghost second = merged@;
        assert(second =~= first + pacman_operations(pacman_list));
        assert(merged@ =~= second + file_operations(file_list).subrange(0, 0));
        for operation in it: file
            invariant
                it.seq() == file_list,
                merged@ == second + file_operations(file_list).subrange(0, it.index() as int),
        {
            assert(operation == file_list[it.index() as int]);
            merged.push(Operation::File(operation));
            assert(merged@ =~= second + file_operations(file_list).subrange(0, it.index() + 1));
        }
        let ghost third = merged@;
        assert(third =~= second + file_operations(file_list));
        assert(merged@ =~= third + command_operations(command_list).subrange(0, 0));
        for operation in it: command
            invariant
                it.seq() == command_list,
                merged@ == third + command_operations(command_list).subrange(
                    0,
                    it.index() as int,
                ),
        {
            assert(operation == command_list[it.index() as int]);
            merged.push(Operation::Command(operation));
            assert(merged@ =~= third + command_operations(command_list).subrange(
                0,
                it.index() + 1,
            ));
        }
        let ghost fourth = merged@;
        assert(fourth =~= third + command_operations(command_list));
        assert(merged@ =~= fourth + git_operations(git_list).subrange(0, 0));
        for operation in it: git
            invariant
                it.seq() == git_list,
                merged@ == fourth + git_operations(git_list).subrange(0, it.index() as int),
        {
            assert(operation == git_list[it.index() as int]);
            merged.push(Operation::Git(operation));
            assert(merged@ =~= fourth + git_operations(git_list).subrange(0, it.index() + 1));
        }
        assert(merged@ =~= fourth + git_operations(git_list));
        assert(merged_by_type(
            merged@,
            apt_list,
            pacman_list,
            file_list,
            command_list,
            git_list,
        ));
        merged
    }
}

} // verus!

verus! {

impl Operation {
    /// What the value shows as text.
    pub open spec fn spec_label(self) -> Seq<char> {
        match self {
            Operation::Apt(operation) => operation.spec_label(),
            Operation::Pacman(operation) => operation.spec_label(),
            Operation::File(operation) => operation.spec_label(),
            Operation::Command(operation) => operation.spec_label(),
            Operation::Git(operation) => operation.spec_label(),
        }
    }

    /// What the value shows as text.
    pub fn label(&self) -> (text: String)
        ensures
            text@ == self.spec_label(),
    {
        let mut text = String::new();
        match self {
            Operation::Apt(operation) => {
                text.append(operation.label().as_str());
            },
            Operation::Pacman(operation) => {
                text.append(operation.label().as_str());
            },
            Operation::File(operation) => {
                text.append(operation.label().as_str());
            },
            Operation::Command(operation) => {
                text.append(operation.label().as_str());
            },
            Operation::Git(operation) => {
                text.append(operation.label().as_str());
            },
        }
        text
    }
}

} // verus!

verus! {

impl Render for Operation {
    /// A line with the label.
    fn render(&self) -> (view: ViewElement)
        ensures
            view@ == ViewShape::Line(self.spec_label()),
    {
        ViewElement::Line(self.label())
    }
}

} // verus!
