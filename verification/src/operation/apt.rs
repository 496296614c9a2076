//! Operations of the apt package manager.

use crate::cmd::{privileged, Command, CommandShape};
use crate::operation::packages::gather_packages;
use crate::text::{strictly_sorted, texts};
use crate::text::{join_texts, joined_with};
use vstd::prelude::*;
use vstd::string::StringExecFns;

verus! {

/// One step of the apt package manager.
#[derive(Debug, Clone)]
pub enum AptOperation {
    Update,
    Install { packages: Vec<String> },
}

/// The operations of the apt package manager, as a kind.
#[derive(Debug, Clone)]
pub struct Apt;

/// Some operation refreshes the package index.
pub open spec fn wants_update(operations: Seq<AptOperation>) -> bool {
    exists|i: int| 0 <= i < operations.len() && #[trigger] operations[i] is Update
}

/// Some operation installs the package `name`.
pub open spec fn wants_package(operations: Seq<AptOperation>, name: Seq<char>) -> bool {
    exists|i: int|
        0 <= i < operations.len() && (#[trigger] operations[i]) is Install && texts(
            operations[i]->packages@,
        ).contains(name)
}

/// Some operation installs some package.
pub open spec fn wants_install(operations: Seq<AptOperation>) -> bool {
    exists|name: Seq<char>| wants_package(operations, name)
}

/// `merged` is what is left of `operations` after merging: one update if
/// any was asked for, then one install of all packages asked for, sorted
/// and each once, if any was asked for.
pub open spec fn merged(operations: Seq<AptOperation>, merged: Seq<AptOperation>) -> bool {
    let first = if wants_update(operations) {
        1int
    } else {
        0int
    };
    &&& wants_update(operations) ==> merged.len() >= 1 && merged[0] is Update
    &&& if wants_install(operations) {
        &&& merged.len() == first + 1
        &&& merged[first] is Install
        &&& strictly_sorted(texts(merged[first]->packages@))
        &&& forall|name: Seq<char>|
            texts(merged[first]->packages@).contains(name) <==> wants_package(operations, name)
    } else {
        merged.len() == first
    }
}

impl Apt {
    /// Merges the operations of one epoch: at most one update, followed by
    /// at most one install of the union of all packages.
    pub fn merge(operations: Vec<AptOperation>) -> (out: Vec<AptOperation>)
        ensures
            merged(operations@, out@),
    {
        let mut update = false;
        let mut install: Vec<String> = Vec::new();
        let ghost list = operations@;
        for operation in it: operations
            invariant
                it.seq() == list,
                update <==> exists|i: int| 0 <= i < it.index() && #[trigger] list[i] is Update,
                strictly_sorted(texts(install@)),
                forall|name: Seq<char>|
                    texts(install@).contains(name) <==> exists|i: int|
                        0 <= i < it.index() && (#[trigger] list[i]) is Install && texts(
                            list[i]->packages@,
                        ).contains(name),
        {
            let ghost k = it.index() as int;
            let ghost here = texts(install@);
            assert(operation == list[k]);
            match operation {
                AptOperation::Update => {
                    update = true;
                },
                AptOperation::Install { packages } => {
                    gather_packages(&mut install, packages);
                },
            }
            proof {
                assert forall|name: Seq<char>|
                    texts(install@).contains(name) <==> exists|i: int|
                        0 <= i < k + 1 && (#[trigger] list[i]) is Install && texts(
                            list[i]->packages@,
                        ).contains(name) by {
                    if here.contains(name) {
                        let i = choose|i: int|
                            0 <= i < k && (#[trigger] list[i]) is Install && texts(
                                list[i]->packages@,
                            ).contains(name);
                        assert(0 <= i < k + 1);
                    }
                    if exists|i: int|
                        0 <= i < k + 1 && (#[trigger] list[i]) is Install && texts(
                            list[i]->packages@,
                        ).contains(name) {
                        let i = choose|i: int|
                            0 <= i < k + 1 && (#[trigger] list[i]) is Install && texts(
                                list[i]->packages@,
                            ).contains(name);
                        if i < k {
                            assert(here.contains(name));
                        }
                    }
                }
                if update {
                    if list[k] is Update {
                    } else {
                        let i = choose|i: int| 0 <= i < k && #[trigger] list[i] is Update;
                        assert(0 <= i < k + 1);
                    }
                }
            }
        }
        let mut out: Vec<AptOperation> = Vec::new();
        if update {
            out.push(AptOperation::Update);
        }
        proof {
            if wants_install(list) {
                let name = choose|name: Seq<char>| wants_package(list, name);
                assert(texts(install@).contains(name));
            }
            if install.len() > 0 {
                assert(texts(install@)[0] == install[0]@);
                assert(texts(install@).contains(install[0]@));
                assert(wants_package(list, install[0]@));
            }
        }
        if install.len() > 0 {
            out.push(AptOperation::Install { packages: install });
        }
        out
    }
}

} // verus!

verus! {

/// The command of an operation before it is run with privileges.
pub open spec fn plain_command(operation: AptOperation) -> CommandShape {
    CommandShape {
        program: "apt-get"@,
        args: match operation {
            AptOperation::Update => seq!["update"@],
            AptOperation::Install { packages } => seq!["install"@, "-y"@] + texts(packages@),
        },
        envs: seq![("DEBIAN_FRONTEND"@, "noninteractive"@)],
        current_dir: None,
        stdout: false,
        stderr: false,
    }
}

impl AptOperation {
    /// The command that carries the operation out: `apt-get` without
    /// questions, run with privileges.
    pub fn command(&self) -> (command: Command)
        ensures
            command@ == privileged(plain_command(*self)),
    {
        let mut command = Command::new("apt-get");
        command.env("DEBIAN_FRONTEND", "noninteractive");
        assert(command@.envs =~= seq![("DEBIAN_FRONTEND"@, "noninteractive"@)]);
        match self {
            AptOperation::Update => {
                command.arg("update");
                assert(command@.args =~= seq!["update"@]);
            },
            AptOperation::Install { packages } => {
                command.arg("install");
                command.arg("-y");
                command.args(packages);
                assert(command@.args =~= seq!["install"@, "-y"@] + texts(packages@));
            },
        }
        command.sudo()
    }
}

} // verus!

verus! {

impl AptOperation {
    /// What the value shows as text.
    pub open spec fn spec_label(self) -> Seq<char> {
        match self {
            AptOperation::Update => "Apt::Update"@,
            AptOperation::Install { packages } => "Apt::Install(packages = ["@ + joined_with(texts(packages@), ", "@, packages.len() as int) + "])"@,
        }
    }

    /// What the value shows as text.
    pub fn label(&self) -> (text: String)
        ensures
            text@ == self.spec_label(),
    {
        let mut text = String::new();
        match self {
            AptOperation::Update => {
                text.append("Apt::Update");
            },
            AptOperation::Install { packages } => {
                text.append("Apt::Install(packages = [");
                text.append(join_texts(packages, ", ").as_str());
                text.append("])");
            },
        }
        text
    }
}

} // verus!
