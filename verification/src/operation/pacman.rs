//! Operations of the pacman package manager.

use crate::cmd::{privileged, Command, CommandShape};
use crate::operation::packages::gather_packages;
use crate::text::{strictly_sorted, texts};
use crate::text::{join_texts, joined_with};
use vstd::prelude::*;
use vstd::string::StringExecFns;

verus! {

/// One step of the pacman package manager.
#[derive(Debug, Clone)]
pub enum PacmanOperation {
    Upgrade,
    Install { packages: Vec<String> },
}

/// The operations of the pacman package manager, as a kind.
#[derive(Debug, Clone)]
pub struct Pacman;

/// Some operation upgrades the system.
pub open spec fn wants_upgrade(operations: Seq<PacmanOperation>) -> bool {
    exists|i: int| 0 <= i < operations.len() && #[trigger] operations[i] is Upgrade
}

/// Some operation installs the package `name`.
pub open spec fn wants_package(operations: Seq<PacmanOperation>, name: Seq<char>) -> bool {
    exists|i: int|
        0 <= i < operations.len() && (#[trigger] operations[i]) is Install && texts(
            operations[i]->packages@,
        ).contains(name)
}

/// Some operation installs some package.
pub open spec fn wants_install(operations: Seq<PacmanOperation>) -> bool {
    exists|name: Seq<char>| wants_package(operations, name)
}

/// `merged` is what is left of `operations` after merging: one upgrade if
/// any was asked for, then one install of all packages asked for, sorted
/// and each once, if any was asked for.
pub open spec fn merged(operations: Seq<PacmanOperation>, merged: Seq<PacmanOperation>) -> bool {
    let first = if wants_upgrade(operations) {
        1int
    } else {
        0int
    };
    &&& wants_upgrade(operations) ==> merged.len() >= 1 && merged[0] is Upgrade
    &&& if wants_install(operations) {
        &&& merged.len() == first + 1
        &&& merged[first] is Install
        &&& strictly_sorted(texts(merged[first]->packages@))
        &&& forall|name: Seq<char>|
            texts(merged[first]->packages@).contains(name) <==> wants_package(operations, name)
    } else {
        merged.len() == first
    }
}

impl Pacman {
    /// Merges the operations of one epoch: at most one upgrade, followed by
    /// at most one install of the union of all packages.
    pub fn merge(operations: Vec<PacmanOperation>) -> (out: Vec<PacmanOperation>)
        ensures
            merged(operations@, out@),
    {
        let mut upgrade = false;
        let mut install: Vec<String> = Vec::new();
        let ghost list = operations@;
        for operation in it: operations
            invariant
                it.seq() == list,
                upgrade <==> exists|i: int| 0 <= i < it.index() && #[trigger] list[i] is Upgrade,
                strictly_sorted(texts(install@)),
                forall|name: Seq<char>|
                    texts(install@).contains(name) <==> exists|i: int|
                        0 <= i < it.index() && (#[trigger] list[i]) is Install && texts(
                            list[i]->packages@,
                        ).contains(name),
        {
            let ghost k = it.index() as int;
            let ghost here = texts(install@);
            assert(operation == list[k]);
            match operation {
                PacmanOperation::Upgrade => {
                    upgrade = true;
                },
                PacmanOperation::Install { packages } => {
                    gather_packages(&mut install, packages);
                },
            }
            proof {
                assert forall|name: Seq<char>|
                    texts(install@).contains(name) <==> exists|i: int|
                        0 <= i < k + 1 && (#[trigger] list[i]) is Install && texts(
                            list[i]->packages@,
                        ).contains(name) by {
                    if here.contains(name) {
                        let i = choose|i: int|
                            0 <= i < k && (#[trigger] list[i]) is Install && texts(
                                list[i]->packages@,
                            ).contains(name);
                        assert(0 <= i < k + 1);
                    }
                    if exists|i: int|
                        0 <= i < k + 1 && (#[trigger] list[i]) is Install && texts(
                            list[i]->packages@,
                        ).contains(name) {
                        let i = choose|i: int|
                            0 <= i < k + 1 && (#[trigger] list[i]) is Install && texts(
                                list[i]->packages@,
                            ).contains(name);
                        if i < k {
                            assert(here.contains(name));
                        }
                    }
                }
                if upgrade {
                    if list[k] is Upgrade {
                    } else {
                        let i = choose|i: int| 0 <= i < k && #[trigger] list[i] is Upgrade;
                        assert(0 <= i < k + 1);
                    }
                }
            }
        }
        let mut out: Vec<PacmanOperation> = Vec::new();
        if upgrade {
            out.push(PacmanOperation::Upgrade);
        }
        proof {
            if wants_install(list) {
                let name = choose|name: Seq<char>| wants_package(list, name);
                assert(texts(install@).contains(name));
            }
            if install.len() > 0 {
                assert(texts(install@)[0] == install[0]@);
                assert(texts(install@).contains(install[0]@));
                assert(wants_package(list, install[0]@));
            }
        }
        if install.len() > 0 {
            out.push(PacmanOperation::Install { packages: install });
        }
        out
    }
}

} // verus!

verus! {

/// The command of an operation before it is run with privileges.
pub open spec fn plain_command(operation: PacmanOperation) -> CommandShape {
    CommandShape {
        program: "pacman"@,
        args: match operation {
            PacmanOperation::Upgrade => seq!["-Syu"@, "--noconfirm"@, "--color=never"@],
            PacmanOperation::Install { packages } => seq![
                "-S"@,
                "--noconfirm"@,
                "--needed"@,
                "--color=never"@,
                "--"@,
            ] + texts(packages@),
        },
        envs: Seq::empty(),
        current_dir: None,
        stdout: false,
        stderr: false,
    }
}

impl PacmanOperation {
    /// The command that carries the operation out: `pacman` without
    /// questions, run with privileges.
    pub fn command(&self) -> (command: Command)
        ensures
            command@ == privileged(plain_command(*self)),
    {
        let mut command = Command::new("pacman");
        match self {
            PacmanOperation::Upgrade => {
                command.arg("-Syu");
                command.arg("--noconfirm");
                command.arg("--color=never");
                assert(command@.args =~= seq!["-Syu"@, "--noconfirm"@, "--color=never"@]);
            },
            PacmanOperation::Install { packages } => {
                command.arg("-S");
                command.arg("--noconfirm");
                command.arg("--needed");
                command.arg("--color=never");
                command.arg("--");
                command.args(packages);
                assert(command@.args =~= seq![
                    "-S"@,
                    "--noconfirm"@,
                    "--needed"@,
                    "--color=never"@,
                    "--"@,
                ] + texts(packages@));
            },
        }
        command.sudo()
    }
}

} // verus!

verus! {

impl PacmanOperation {
    /// What the value shows as text.
    pub open spec fn spec_label(self) -> Seq<char> {
        match self {
            PacmanOperation::Upgrade => "Pacman::Upgrade"@,
            PacmanOperation::Install { packages } => "Pacman::Install(packages = ["@ + joined_with(texts(packages@), ", "@, packages.len() as int) + "])"@,
        }
    }

    /// What the value shows as text.
    pub fn label(&self) -> (text: String)
        ensures
            text@ == self.spec_label(),
    {
        let mut text = String::new();
        match self {
            PacmanOperation::Upgrade => {
                text.append("Pacman::Upgrade");
            },
            PacmanOperation::Install { packages } => {
                text.append("Pacman::Install(packages = [");
                text.append(join_texts(packages, ", ").as_str());
                text.append("])");
            },
        }
        text
    }
}

} // verus!
