//! Files and directories with their mode and owner.

use crate::causality::meta::{
    leaf_after, meta_after, named_leaf, named_meta, plain_leaf, plain_meta, CausalityMeta,
};
use crate::operation::file::{FileGroup, FileMode, FileOperation, FilePath, FileSource, FileUser};
use crate::operation::Operation;
use crate::tree::Tree;
use crate::view::{Render, ViewElement, ViewShape};
use crate::text::{debug_wrapped, show_wrapped, write_number, written};
use crate::params::schema::{
    literal, optional, required, schema_shape, FieldShape, ParamType, ParamTypes, ParamsStruct,
    SchemaBuilder, TypeShape,
};
use crate::params::value::{Spanned, Value};
use vstd::prelude::*;
use vstd::string::StringExecFns;

verus! {

/// What a plan may ask of a path.
#[derive(Debug, Clone)]
pub enum FileParams {
    Source {
        source: FilePath,
        path: FilePath,
        mode: Option<FileMode>,
        user: Option<FileUser>,
        group: Option<FileGroup>,
    },
    File { path: FilePath, mode: Option<FileMode>, user: Option<FileUser>, group: Option<FileGroup> },
    FileAbsent { path: FilePath },
    Directory {
        path: FilePath,
        mode: Option<FileMode>,
        user: Option<FileUser>,
        group: Option<FileGroup>,
    },
    DirectoryAbsent { path: FilePath },
}

/// One fact about a path.
#[derive(Debug, Clone)]
pub enum FileResource {
    FileSource { source: FilePath, path: FilePath },
    FilePresent { path: FilePath },
    FileAbsent { path: FilePath },
    DirectoryPresent { path: FilePath },
    DirectoryAbsent { path: FilePath },
    Mode { path: FilePath, mode: FileMode },
    User { path: FilePath, user: FileUser },
    Group { path: FilePath, group: FileGroup },
}

/// What was observed of the fact.
#[derive(Debug, Clone, Copy, PartialEq, Eq, Structural)]
pub enum FileState {
    FileSourced,
    FileNotSourced,
    FilePresent,
    FileAbsent,
    DirectoryPresent,
    DirectoryAbsent,
    ModeCorrect,
    ModeIncorrect,
    UserCorrect,
    UserIncorrect,
    GroupCorrect,
    GroupIncorrect,
}

/// What has to change on a path.
#[derive(Debug, Clone)]
pub enum FileChange {
    WriteFile { path: FilePath, source: FileSource },
    RemoveFile { path: FilePath },
    CreateDirectory { path: FilePath },
    RemoveDirectory { path: FilePath },
    ChangeMode { path: FilePath, mode: FileMode },
    ChangeOwner { path: FilePath, user: Option<FileUser>, group: Option<FileGroup> },
}

/// What the host shows of a path. Where the path does not exist the other
/// fields do not matter.
#[derive(Debug, Clone)]
pub struct FileObservation {
    /// Whether the path exists.
    pub exists: bool,
    /// Whether the contents equal those of the source; asked of a sourced file.
    pub same_contents: bool,
    /// The mode bits as the host reports them.
    pub mode: u32,
    /// The name of the owning user, where the host knows one.
    pub user: Option<String>,
    /// The name of the owning group, where the host knows one.
    pub group: Option<String>,
}

/// Files and directories, as a kind of resource.
#[derive(Debug, Clone)]
pub struct File;

/// The bits of a mode that are compared: the low twelve, of the mode that
/// is wanted as of the mode that is observed.
pub open spec fn mode_bits(mode: u32) -> u32 {
    mode & 0o7777
}

/// The state that an observation tells of a resource.
pub open spec fn observed(resource: FileResource, seen: FileObservation) -> FileState {
    match resource {
        FileResource::FileSource { .. } => if seen.exists && seen.same_contents {
            FileState::FileSourced
        } else {
            FileState::FileNotSourced
        },
        FileResource::FilePresent { .. } | FileResource::FileAbsent { .. } => if seen.exists {
            FileState::FilePresent
        } else {
            FileState::FileAbsent
        },
        FileResource::DirectoryPresent { .. } | FileResource::DirectoryAbsent { .. } => if seen.exists {
            FileState::DirectoryPresent
        } else {
            FileState::DirectoryAbsent
        },
        FileResource::Mode { mode, .. } => if seen.exists && mode_bits(seen.mode) == mode_bits(mode.0) {
            FileState::ModeCorrect
        } else {
            FileState::ModeIncorrect
        },
        FileResource::User { user, .. } => if seen.exists && seen.user is Some
            && seen.user->0@ == user@ {
            FileState::UserCorrect
        } else {
            FileState::UserIncorrect
        },
        FileResource::Group { group, .. } => if seen.exists && seen.group is Some
            && seen.group->0@ == group@ {
            FileState::GroupCorrect
        } else {
            FileState::GroupIncorrect
        },
    }
}

/// The state is one that an observation of the resource can tell.
pub open spec fn fits(resource: FileResource, state: FileState) -> bool {
    match resource {
        FileResource::FileSource { .. } => state == FileState::FileSourced || state
            == FileState::FileNotSourced,
        FileResource::FilePresent { .. } | FileResource::FileAbsent { .. } => state
            == FileState::FilePresent || state == FileState::FileAbsent,
        FileResource::DirectoryPresent { .. } | FileResource::DirectoryAbsent { .. } => state
            == FileState::DirectoryPresent || state == FileState::DirectoryAbsent,
        FileResource::Mode { .. } => state == FileState::ModeCorrect || state
            == FileState::ModeIncorrect,
        FileResource::User { .. } => state == FileState::UserCorrect || state
            == FileState::UserIncorrect,
        FileResource::Group { .. } => state == FileState::GroupCorrect || state
            == FileState::GroupIncorrect,
    }
}

/// The state says that the resource holds.
pub open spec fn satisfied(resource: FileResource, state: FileState) -> bool {
    match resource {
        FileResource::FileSource { .. } => state == FileState::FileSourced,
        FileResource::FilePresent { .. } => state == FileState::FilePresent,
        FileResource::FileAbsent { .. } => state == FileState::FileAbsent,
        FileResource::DirectoryPresent { .. } => state == FileState::DirectoryPresent,
        FileResource::DirectoryAbsent { .. } => state == FileState::DirectoryAbsent,
        FileResource::Mode { .. } => state == FileState::ModeCorrect,
        FileResource::User { .. } => state == FileState::UserCorrect,
        FileResource::Group { .. } => state == FileState::GroupCorrect,
    }
}

/// The change that brings about a resource that does not hold.
pub open spec fn brings_about(resource: FileResource, change: FileChange) -> bool {
    match resource {
        FileResource::FileSource { source, path } => change matches FileChange::WriteFile {
            path: to,
            source: FileSource::Path(from),
        } && to@ == path@ && from@ == source@,
        FileResource::FilePresent { path } => change matches FileChange::WriteFile {
            path: to,
            source: FileSource::Contents(contents),
        } && to@ == path@ && contents@.len() == 0,
        FileResource::FileAbsent { path } => change matches FileChange::RemoveFile { path: to }
            && to@ == path@,
        FileResource::DirectoryPresent { path } => change matches FileChange::CreateDirectory {
            path: to,
        } && to@ == path@,
        FileResource::DirectoryAbsent { path } => change matches FileChange::RemoveDirectory {
            path: to,
        } && to@ == path@,
        FileResource::Mode { path, mode } => change matches FileChange::ChangeMode {
            path: to,
            mode: wanted,
        } && to@ == path@ && wanted == mode,
        FileResource::User { path, user } => change matches FileChange::ChangeOwner {
            path: to,
            user: Some(wanted),
            group: None,
        } && to@ == path@ && wanted@ == user@,
        FileResource::Group { path, group } => change matches FileChange::ChangeOwner {
            path: to,
            user: None,
            group: Some(wanted),
        } && to@ == path@ && wanted@ == group@,
    }
}

/// The operation that carries out a change.
pub open spec fn carries_out(change: FileChange, operation: FileOperation) -> bool {
    match change {
        FileChange::WriteFile { path, source } => operation == (FileOperation::WriteFile {
            path,
            source,
        }),
        FileChange::RemoveFile { path } => operation == (FileOperation::RemoveFile { path }),
        FileChange::CreateDirectory { path } => operation == (FileOperation::CreateDirectory {
            path,
        }),
        FileChange::RemoveDirectory { path } => operation == (FileOperation::RemoveDirectory {
            path,
        }),
        FileChange::ChangeMode { path, mode } => operation == (FileOperation::ChangeMode {
            path,
            mode,
        }),
        FileChange::ChangeOwner { path, user, group } => operation == (FileOperation::ChangeOwner {
            path,
            user,
            group,
        }),
    }
}

/// How many of the three are given.
pub open spec fn given(mode: bool, user: bool, group: bool) -> int {
    (if mode {
        1int
    } else {
        0int
    }) + (if user {
        1int
    } else {
        0int
    }) + (if group {
        1int
    } else {
        0int
    })
}

/// The resources for mode, user and group of `path` stand behind the first
/// resource, those that are given and in this order, each after the node
/// named `id`.
pub open spec fn attributes_follow(
    trees: Seq<Tree<FileResource, CausalityMeta<String>>>,
    id: Seq<char>,
    path: FilePath,
    mode: Option<FileMode>,
    user: Option<FileUser>,
    group: Option<FileGroup>,
) -> bool {
    let user_at = 1 + given(mode is Some, false, false);
    let group_at = 1 + given(mode is Some, user is Some, false);
    &&& trees.len() == 1 + given(mode is Some, user is Some, group is Some)
    &&& mode matches Some(wanted) ==> leaf_after(trees[1], id) && (trees[1]->node matches FileResource::Mode {
        path: at,
        mode: held,
    } && at@ == path@ && held == wanted)
    &&& user matches Some(wanted) ==> leaf_after(trees[user_at], id) && (trees[user_at]->node matches FileResource::User {
        path: at,
        user: held,
    } && at@ == path@ && held@ == wanted@)
    &&& group matches Some(wanted) ==> leaf_after(trees[group_at], id) && (trees[group_at]->node matches FileResource::Group {
        path: at,
        group: held,
    } && at@ == path@ && held@ == wanted@)
}

/// Adds the resources for the mode, user and group that are given.
fn push_attributes(
    trees: &mut Vec<Tree<FileResource, CausalityMeta<String>>>,
    id: &str,
    path: FilePath,
    mode: Option<FileMode>,
    user: Option<FileUser>,
    group: Option<FileGroup>,
)
    requires
        old(trees).len() == 1,
    ensures
        final(trees)[0] == old(trees)[0],
        attributes_follow(final(trees)@, id@, path, mode, user, group),
{
    if let Some(mode) = mode {
        trees.push(
            Tree::Leaf {
                meta: meta_after(id),
                node: FileResource::Mode { path: path.duplicate(), mode },
            },
        );
    }
    if let Some(user) = user {
        trees.push(
            Tree::Leaf {
                meta: meta_after(id),
                node: FileResource::User { path: path.duplicate(), user },
            },
        );
    }
    if let Some(group) = group {
        trees.push(Tree::Leaf { meta: meta_after(id), node: FileResource::Group { path, group } });
    }
}

impl File {
    /// The name of the kind in a plan.
    pub fn id() -> (id: &'static str)
        ensures
            id@ == "file"@,
    {
        "file"
    }

    /// The facts that the parameters ask for. A file or directory that
    /// shall be present comes first and is named `file` or `directory`; its
    /// mode, user and group follow as far as they are given, each after it.
    pub fn resources(params: FileParams) -> (trees: Vec<Tree<FileResource, CausalityMeta<String>>>)
        ensures
            match params {
                FileParams::Source { source, path, mode, user, group } => {
                    &&& named_leaf(trees[0], "file"@)
                    &&& trees[0]->node matches FileResource::FileSource { source: from, path: to }
                        && from@ == source@ && to@ == path@
                    &&& attributes_follow(trees@, "file"@, path, mode, user, group)
                },
                FileParams::File { path, mode, user, group } => {
                    &&& named_leaf(trees[0], "file"@)
                    &&& trees[0]->node matches FileResource::FilePresent { path: to } && to@
                        == path@
                    &&& attributes_follow(trees@, "file"@, path, mode, user, group)
                },
                FileParams::FileAbsent { path } => {
                    &&& trees.len() == 1
                    &&& plain_leaf(trees[0])
                    &&& trees[0]->node matches FileResource::FileAbsent { path: to } && to@ == path@
                },
                FileParams::Directory { path, mode, user, group } => {
                    &&& named_leaf(trees[0], "directory"@)
                    &&& trees[0]->node matches FileResource::DirectoryPresent { path: to } && to@
                        == path@
                    &&& attributes_follow(trees@, "directory"@, path, mode, user, group)
                },
                FileParams::DirectoryAbsent { path } => {
                    &&& trees.len() == 1
                    &&& plain_leaf(trees[0])
                    &&& trees[0]->node matches FileResource::DirectoryAbsent { path: to } && to@
                        == path@
                },
            },
    {
        let mut trees: Vec<Tree<FileResource, CausalityMeta<String>>> = Vec::new();
        match params {
            FileParams::Source { source, path, mode, user, group } => {
                trees.push(
                    Tree::Leaf {
                        meta: named_meta("file"),
                        node: FileResource::FileSource { source, path: path.duplicate() },
                    },
                );
                push_attributes(&mut trees, "file", path, mode, user, group);
            },
            FileParams::File { path, mode, user, group } => {
                trees.push(
                    Tree::Leaf {
                        meta: named_meta("file"),
                        node: FileResource::FilePresent { path: path.duplicate() },
                    },
                );
                push_attributes(&mut trees, "file", path, mode, user, group);
            },
            FileParams::FileAbsent { path } => {
                trees.push(Tree::Leaf { meta: plain_meta(), node: FileResource::FileAbsent { path } });
            },
            FileParams::Directory { path, mode, user, group } => {
                trees.push(
                    Tree::Leaf {
                        meta: named_meta("directory"),
                        node: FileResource::DirectoryPresent { path: path.duplicate() },
                    },
                );
                push_attributes(&mut trees, "directory", path, mode, user, group);
            },
            FileParams::DirectoryAbsent { path } => {
                trees.push(
                    Tree::Leaf { meta: plain_meta(), node: FileResource::DirectoryAbsent { path } },
                );
            },
        }
        trees
    }

    /// The state that an observation of the host tells of a resource. Of a
    /// mode only the low twelve bits are compared. What does not exist has
    /// no correct mode or owner.
    pub fn state(resource: &FileResource, seen: &FileObservation) -> (state: FileState)
        ensures
            state == observed(*resource, *seen),
            fits(*resource, state),
    {
        match resource {
            FileResource::FileSource { .. } => {
                if seen.exists && seen.same_contents {
                    FileState::FileSourced
                } else {
                    FileState::FileNotSourced
                }
            },
            FileResource::FilePresent { .. } | FileResource::FileAbsent { .. } => {
                if seen.exists {
                    FileState::FilePresent
                } else {
                    FileState::FileAbsent
                }
            },
            FileResource::DirectoryPresent { .. } | FileResource::DirectoryAbsent { .. } => {
                if seen.exists {
                    FileState::DirectoryPresent
                } else {
                    FileState::DirectoryAbsent
                }
            },
            FileResource::Mode { mode, .. } => {
                if seen.exists && (seen.mode & 0o7777) == (mode.as_u32() & 0o7777) {
                    FileState::ModeCorrect
                } else {
                    FileState::ModeIncorrect
                }
            },
            FileResource::User { user, .. } => {
                let same = match &seen.user {
                    Some(name) => *name == user.0,
                    None => false,
                };
                if seen.exists && same {
                    FileState::UserCorrect
                } else {
                    FileState::UserIncorrect
                }
            },
            FileResource::Group { group, .. } => {
                let same = match &seen.group {
                    Some(name) => *name == group.0,
                    None => false,
                };
                if seen.exists && same {
                    FileState::GroupCorrect
                } else {
                    FileState::GroupIncorrect
                }
            },
        }
    }

    /// What has to change: nothing where the resource holds, else the one
    /// change that brings it about.
    pub fn change(resource: &FileResource, state: &FileState) -> (change: Option<FileChange>)
        requires
            fits(*resource, *state),
        ensures
            satisfied(*resource, *state) <==> change is None,
            change matches Some(change) ==> brings_about(*resource, change),
    {
        match (resource, state) {
            (FileResource::FileSource { source, path }, FileState::FileNotSourced) => Some(
                FileChange::WriteFile {
                    path: path.duplicate(),
                    source: FileSource::Path(source.duplicate()),
                },
            ),
            (FileResource::FilePresent { path }, FileState::FileAbsent) => Some(
                FileChange::WriteFile {
                    path: path.duplicate(),
                    source: FileSource::Contents(Vec::new()),
                },
            ),
            (FileResource::FileAbsent { path }, FileState::FilePresent) => Some(
                FileChange::RemoveFile { path: path.duplicate() },
            ),
            (FileResource::DirectoryPresent { path }, FileState::DirectoryAbsent) => Some(
                FileChange::CreateDirectory { path: path.duplicate() },
            ),
            (FileResource::DirectoryAbsent { path }, FileState::DirectoryPresent) => Some(
                FileChange::RemoveDirectory { path: path.duplicate() },
            ),
            (FileResource::Mode { path, mode }, FileState::ModeIncorrect) => Some(
                FileChange::ChangeMode { path: path.duplicate(), mode: *mode },
            ),
            (FileResource::User { path, user }, FileState::UserIncorrect) => Some(
                FileChange::ChangeOwner {
                    path: path.duplicate(),
                    user: Some(user.duplicate()),
                    group: None,
                },
            ),
            (FileResource::Group { path, group }, FileState::GroupIncorrect) => Some(
                FileChange::ChangeOwner {
                    path: path.duplicate(),
                    user: None,
                    group: Some(group.duplicate()),
                },
            ),
            _ => None,
        }
    }

    /// The one operation of a change.
    pub fn operations(change: FileChange) -> (trees: Vec<Tree<Operation, CausalityMeta<String>>>)
        ensures
            trees.len() == 1,
            plain_leaf(trees[0]),
            trees[0]->node matches Operation::File(operation) && carries_out(change, operation),
    {
        let operation = match change {
            FileChange::WriteFile { path, source } => FileOperation::WriteFile { path, source },
            FileChange::RemoveFile { path } => FileOperation::RemoveFile { path },
            FileChange::CreateDirectory { path } => FileOperation::CreateDirectory { path },
            FileChange::RemoveDirectory { path } => FileOperation::RemoveDirectory { path },
            FileChange::ChangeMode { path, mode } => FileOperation::ChangeMode { path, mode },
            FileChange::ChangeOwner { path, user, group } => FileOperation::ChangeOwner {
                path,
                user,
                group,
            },
        };
        let mut trees: Vec<Tree<Operation, CausalityMeta<String>>> = Vec::new();
        trees.push(Tree::Leaf { meta: plain_meta(), node: Operation::File(operation) });
        trees
    }
}

} // verus!

verus! {

impl FileParams {
    /// What the value shows as text.
    pub open spec fn spec_label(self) -> Seq<char> {
        match self {
            FileParams::Source { source, path, .. } => "Source(source="@ + source@ + ", path="@ + path@ + ")"@,
            FileParams::File { path, .. } => "File(path="@ + path@ + ")"@,
            FileParams::FileAbsent { path } => "FileAbsent(path="@ + path@ + ")"@,
            FileParams::Directory { path, .. } => "Directory(path="@ + path@ + ")"@,
            FileParams::DirectoryAbsent { path } => "DirectoryAbsent(path="@ + path@ + ")"@,
        }
    }

    /// What the value shows as text.
    pub fn label(&self) -> (text: String)
        ensures
            text@ == self.spec_label(),
    {
        let mut text = String::new();
        match self {
            FileParams::Source { source, path, .. } => {
                text.append("Source(source=");
                text.append(source.0.as_str());
                text.append(", path=");
                text.append(path.0.as_str());
                text.append(")");
            },
            FileParams::File { path, .. } => {
                text.append("File(path=");
                text.append(path.0.as_str());
                text.append(")");
            },
            FileParams::FileAbsent { path } => {
                text.append("FileAbsent(path=");
                text.append(path.0.as_str());
                text.append(")");
            },
            FileParams::Directory { path, .. } => {
                text.append("Directory(path=");
                text.append(path.0.as_str());
                text.append(")");
            },
            FileParams::DirectoryAbsent { path } => {
                text.append("DirectoryAbsent(path=");
                text.append(path.0.as_str());
                text.append(")");
            },
        }
        text
    }
}

} // verus!

verus! {

impl FileResource {
    /// What the value shows as text.
    pub open spec fn spec_label(self) -> Seq<char> {
        match self {
            FileResource::FileSource { source, path } => "FileSource("@ + source@ + " -> "@ + path@ + ")"@,
            FileResource::FilePresent { path } => "FilePresent("@ + path@ + ")"@,
            FileResource::FileAbsent { path } => "FileAbsent("@ + path@ + ")"@,
            FileResource::DirectoryPresent { path } => "DirectoryPresent("@ + path@ + ")"@,
            FileResource::DirectoryAbsent { path } => "DirectoryAbsent("@ + path@ + ")"@,
            FileResource::Mode { path, mode } => "FileMode("@ + path@ + ", mode = "@ + written(mode.0 as nat, 8) + ")"@,
            FileResource::User { path, user } => "FileUser("@ + path@ + ", user = "@ + user@ + ")"@,
            FileResource::Group { path, group } => "FileGroup("@ + path@ + ", group = "@ + group@ + ")"@,
        }
    }

    /// What the value shows as text.
    pub fn label(&self) -> (text: String)
        ensures
            text@ == self.spec_label(),
    {
        let mut text = String::new();
        match self {
            FileResource::FileSource { source, path } => {
                text.append("FileSource(");
                text.append(source.0.as_str());
                text.append(" -> ");
                text.append(path.0.as_str());
                text.append(")");
            },
            FileResource::FilePresent { path } => {
                text.append("FilePresent(");
                text.append(path.0.as_str());
                text.append(")");
            },
            FileResource::FileAbsent { path } => {
                text.append("FileAbsent(");
                text.append(path.0.as_str());
                text.append(")");
            },
            FileResource::DirectoryPresent { path } => {
                text.append("DirectoryPresent(");
                text.append(path.0.as_str());
                text.append(")");
            },
            FileResource::DirectoryAbsent { path } => {
                text.append("DirectoryAbsent(");
                text.append(path.0.as_str());
                text.append(")");
            },
            FileResource::Mode { path, mode } => {
                text.append("FileMode(");
                text.append(path.0.as_str());
                text.append(", mode = ");
                text.append(write_number(mode.0 as u64, 8).as_str());
                text.append(")");
            },
            FileResource::User { path, user } => {
                text.append("FileUser(");
                text.append(path.0.as_str());
                text.append(", user = ");
                text.append(user.0.as_str());
                text.append(")");
            },
            FileResource::Group { path, group } => {
                text.append("FileGroup(");
                text.append(path.0.as_str());
                text.append(", group = ");
                text.append(group.0.as_str());
                text.append(")");
            },
        }
        text
    }
}

} // verus!

verus! {

impl FileState {
    /// What the value shows as text.
    pub open spec fn spec_label(self) -> Seq<char> {
        match self {
            FileState::FileSourced => "FileSourced"@,
            FileState::FileNotSourced => "FileNotSourced"@,
            FileState::FilePresent => "FilePresent"@,
            FileState::FileAbsent => "FileAbsent"@,
            FileState::DirectoryPresent => "DirectoryPresent"@,
            FileState::DirectoryAbsent => "DirectoryAbsent"@,
            FileState::ModeCorrect => "ModeCorrect"@,
            FileState::ModeIncorrect => "ModeIncorrect"@,
            FileState::UserCorrect => "UserCorrect"@,
            FileState::UserIncorrect => "UserIncorrect"@,
            FileState::GroupCorrect => "GroupCorrect"@,
            FileState::GroupIncorrect => "GroupIncorrect"@,
        }
    }

    /// What the value shows as text.
    pub fn label(&self) -> (text: String)
        ensures
            text@ == self.spec_label(),
    {
        let mut text = String::new();
        match self {
            FileState::FileSourced => {
                text.append("FileSourced");
            },
            FileState::FileNotSourced => {
                text.append("FileNotSourced");
            },
            FileState::FilePresent => {
                text.append("FilePresent");
            },
            FileState::FileAbsent => {
                text.append("FileAbsent");
            },
            FileState::DirectoryPresent => {
                text.append("DirectoryPresent");
            },
            FileState::DirectoryAbsent => {
                text.append("DirectoryAbsent");
            },
            FileState::ModeCorrect => {
                text.append("ModeCorrect");
            },
            FileState::ModeIncorrect => {
                text.append("ModeIncorrect");
            },
            FileState::UserCorrect => {
                text.append("UserCorrect");
            },
            FileState::UserIncorrect => {
                text.append("UserIncorrect");
            },
            FileState::GroupCorrect => {
                text.append("GroupCorrect");
            },
            FileState::GroupIncorrect => {
                text.append("GroupIncorrect");
            },
        }
        text
    }
}

} // verus!

verus! {

impl FileChange {
    /// What the value shows as text.
    pub open spec fn spec_label(self) -> Seq<char> {
        match self {
            FileChange::WriteFile { path, source: FileSource::Contents(contents) } => "File::WriteFile(path = "@ + path@ + ", source = Contents("@ + written(contents@.len(), 10) + " bytes))"@,
            FileChange::WriteFile { path, source: FileSource::Path(source_path) } => "File::WriteFile(path = "@ + path@ + ", source = Path("@ + source_path@ + "))"@,
            FileChange::RemoveFile { path } => "File::RemoveFile(path = "@ + path@ + ")"@,
            FileChange::CreateDirectory { path } => "File::CreateDirectory(path = "@ + path@ + ")"@,
            FileChange::RemoveDirectory { path } => "File::RemoveDirectory(path = "@ + path@ + ")"@,
            FileChange::ChangeMode { path, mode } => "File::ChangeMode(path = "@ + path@ + ", mode = "@ + written(mode.0 as nat, 8) + ")"@,
            FileChange::ChangeOwner { path, user, group } => "File::ChangeOwner(path = "@ + path@ + ", user = "@ + debug_wrapped("FileUser"@, match user { Some(held) => Some(held@), None => None }) + ", group = "@ + debug_wrapped("FileGroup"@, match group { Some(held) => Some(held@), None => None }) + ")"@,
        }
    }

    /// What the value shows as text.
    pub fn label(&self) -> (text: String)
        ensures
            text@ == self.spec_label(),
    {
        let mut text = String::new();
        match self {
            FileChange::WriteFile { path, source: FileSource::Contents(contents) } => {
                text.append("File::WriteFile(path = ");
                text.append(path.0.as_str());
                text.append(", source = Contents(");
                text.append(write_number(contents.len() as u64, 10).as_str());
                text.append(" bytes))");
            },
            FileChange::WriteFile { path, source: FileSource::Path(source_path) } => {
                text.append("File::WriteFile(path = ");
                text.append(path.0.as_str());
                text.append(", source = Path(");
                text.append(source_path.0.as_str());
                text.append("))");
            },
            FileChange::RemoveFile { path } => {
                text.append("File::RemoveFile(path = ");
                text.append(path.0.as_str());
                text.append(")");
            },
            FileChange::CreateDirectory { path } => {
                text.append("File::CreateDirectory(path = ");
                text.append(path.0.as_str());
                text.append(")");
            },
            FileChange::RemoveDirectory { path } => {
                text.append("File::RemoveDirectory(path = ");
                text.append(path.0.as_str());
                text.append(")");
            },
            FileChange::ChangeMode { path, mode } => {
                text.append("File::ChangeMode(path = ");
                text.append(path.0.as_str());
                text.append(", mode = ");
                text.append(write_number(mode.0 as u64, 8).as_str());
                text.append(")");
            },
            FileChange::ChangeOwner { path, user, group } => {
                text.append("File::ChangeOwner(path = ");
                text.append(path.0.as_str());
                text.append(", user = ");
                text.append(show_wrapped("FileUser", match user { Some(held) => Some(held.0.as_str()), None => None }).as_str());
                text.append(", group = ");
                text.append(show_wrapped("FileGroup", match group { Some(held) => Some(held.0.as_str()), None => None }).as_str());
                text.append(")");
            },
        }
        text
    }
}

} // verus!

verus! {

impl Render for FileParams {
    /// A line with the label.
    fn render(&self) -> (view: ViewElement)
        ensures
            view@ == ViewShape::Line(self.spec_label()),
    {
        ViewElement::Line(self.label())
    }
}

} // verus!

verus! {

impl Render for FileResource {
    /// A line with the label.
    fn render(&self) -> (view: ViewElement)
        ensures
            view@ == ViewShape::Line(self.spec_label()),
    {
        ViewElement::Line(self.label())
    }
}

} // verus!

verus! {

impl Render for FileState {
    /// A line with the label.
    fn render(&self) -> (view: ViewElement)
        ensures
            view@ == ViewShape::Line(self.spec_label()),
    {
        ViewElement::Line(self.label())
    }
}

} // verus!

verus! {

impl Render for FileChange {
    /// A line with the label.
    fn render(&self) -> (view: ViewElement)
        ensures
            view@ == ViewShape::Line(self.spec_label()),
    {
        ViewElement::Line(self.label())
    }
}

} // verus!

verus! {

/// The fields of the first case of the schema.
fn file_source_case() -> (fields: ParamsStruct)
    ensures
        schema_shape(fields) == file_source_fields(),
{
    let mut builder = SchemaBuilder::new();
    proof {
        reveal_with_fuel(crate::params::schema::type_shape, 3);
        reveal_strlit("type");
        assert("type"@.len() == 4);
        assert("type"@[0] == 't' && "type"@[1] == 'y');
        reveal_strlit("source");
        assert("source"@.len() == 6);
        assert("source"@[0] == 's' && "source"@[1] == 'o');
        reveal_strlit("path");
        assert("path"@.len() == 4);
        assert("path"@[0] == 'p' && "path"@[1] == 'a');
        reveal_strlit("mode");
        assert("mode"@.len() == 4);
        assert("mode"@[0] == 'm' && "mode"@[1] == 'o');
        reveal_strlit("user");
        assert("user"@.len() == 4);
        assert("user"@[0] == 'u' && "user"@[1] == 's');
        reveal_strlit("group");
        assert("group"@.len() == 5);
        assert("group"@[0] == 'g' && "group"@[1] == 'r');
    }
    builder.field("type", ParamType::Literal(Value::String(String::from_str("source"))), true);
    assert(schema_shape(builder.fields) =~= seq![required("type"@, literal("source"@))]);
    builder.field("source", ParamType::HostPath, true);
    assert(schema_shape(builder.fields) =~= seq![required("type"@, literal("source"@)), required("source"@, TypeShape::HostPath)]);
    builder.field("path", ParamType::TargetPath, true);
    assert(schema_shape(builder.fields) =~= seq![required("type"@, literal("source"@)), required("source"@, TypeShape::HostPath), required("path"@, TypeShape::TargetPath)]);
    builder.field("mode", ParamType::Number, false);
    assert(schema_shape(builder.fields) =~= seq![required("type"@, literal("source"@)), required("source"@, TypeShape::HostPath), required("path"@, TypeShape::TargetPath), optional("mode"@, TypeShape::Number)]);
    builder.field("user", ParamType::String, false);
    assert(schema_shape(builder.fields) =~= seq![required("type"@, literal("source"@)), required("source"@, TypeShape::HostPath), required("path"@, TypeShape::TargetPath), optional("mode"@, TypeShape::Number), optional("user"@, TypeShape::String)]);
    builder.field("group", ParamType::String, false);
    assert(schema_shape(builder.fields) =~= seq![required("type"@, literal("source"@)), required("source"@, TypeShape::HostPath), required("path"@, TypeShape::TargetPath), optional("mode"@, TypeShape::Number), optional("user"@, TypeShape::String), optional("group"@, TypeShape::String)]);
    builder.fields
}

/// The fields of the first case of the schema.
pub open spec fn file_source_fields() -> Seq<FieldShape> {
    seq![
        required("type"@, literal("source"@)),
        required("source"@, TypeShape::HostPath),
        required("path"@, TypeShape::TargetPath),
        optional("mode"@, TypeShape::Number),
        optional("user"@, TypeShape::String),
        optional("group"@, TypeShape::String),
    ]
}

/// The fields of the second case of the schema.
fn file_present_case() -> (fields: ParamsStruct)
    ensures
        schema_shape(fields) == file_present_fields(),
{
    let mut builder = SchemaBuilder::new();
    proof {
        reveal_with_fuel(crate::params::schema::type_shape, 3);
        reveal_strlit("type");
        assert("type"@.len() == 4);
        assert("type"@[0] == 't' && "type"@[1] == 'y');
        reveal_strlit("path");
        assert("path"@.len() == 4);
        assert("path"@[0] == 'p' && "path"@[1] == 'a');
        reveal_strlit("mode");
        assert("mode"@.len() == 4);
        assert("mode"@[0] == 'm' && "mode"@[1] == 'o');
        reveal_strlit("user");
        assert("user"@.len() == 4);
        assert("user"@[0] == 'u' && "user"@[1] == 's');
        reveal_strlit("group");
        assert("group"@.len() == 5);
        assert("group"@[0] == 'g' && "group"@[1] == 'r');
    }
    builder.field("type", ParamType::Literal(Value::String(String::from_str("file"))), true);
    assert(schema_shape(builder.fields) =~= seq![required("type"@, literal("file"@))]);
    builder.field("path", ParamType::TargetPath, true);
    assert(schema_shape(builder.fields) =~= seq![required("type"@, literal("file"@)), required("path"@, TypeShape::TargetPath)]);
    builder.field("mode", ParamType::Number, false);
    assert(schema_shape(builder.fields) =~= seq![required("type"@, literal("file"@)), required("path"@, TypeShape::TargetPath), optional("mode"@, TypeShape::Number)]);
    builder.field("user", ParamType::String, false);
    assert(schema_shape(builder.fields) =~= seq![required("type"@, literal("file"@)), required("path"@, TypeShape::TargetPath), optional("mode"@, TypeShape::Number), optional("user"@, TypeShape::String)]);
    builder.field("group", ParamType::String, false);
    assert(schema_shape(builder.fields) =~= seq![required("type"@, literal("file"@)), required("path"@, TypeShape::TargetPath), optional("mode"@, TypeShape::Number), optional("user"@, TypeShape::String), optional("group"@, TypeShape::String)]);
    builder.fields
}

/// The fields of the second case of the schema.
pub open spec fn file_present_fields() -> Seq<FieldShape> {
    seq![
        required("type"@, literal("file"@)),
        required("path"@, TypeShape::TargetPath),
        optional("mode"@, TypeShape::Number),
        optional("user"@, TypeShape::String),
        optional("group"@, TypeShape::String),
    ]
}

/// The fields of the third case of the schema.
fn file_absent_case() -> (fields: ParamsStruct)
    ensures
        schema_shape(fields) == file_absent_fields(),
{
    let mut builder = SchemaBuilder::new();
    proof {
        reveal_with_fuel(crate::params::schema::type_shape, 3);
        reveal_strlit("type");
        assert("type"@.len() == 4);
        assert("type"@[0] == 't' && "type"@[1] == 'y');
        reveal_strlit("path");
        assert("path"@.len() == 4);
        assert("path"@[0] == 'p' && "path"@[1] == 'a');
    }
    builder.field("type", ParamType::Literal(Value::String(String::from_str("file-absent"))), true);
    assert(schema_shape(builder.fields) =~= seq![required("type"@, literal("file-absent"@))]);
    builder.field("path", ParamType::TargetPath, true);
    assert(schema_shape(builder.fields) =~= seq![required("type"@, literal("file-absent"@)), required("path"@, TypeShape::TargetPath)]);
    builder.fields
}

/// The fields of the third case of the schema.
pub open spec fn file_absent_fields() -> Seq<FieldShape> {
    seq![
        required("type"@, literal("file-absent"@)),
        required("path"@, TypeShape::TargetPath),
    ]
}

/// The fields of the fourth case of the schema.
fn directory_present_case() -> (fields: ParamsStruct)
    ensures
        schema_shape(fields) == directory_present_fields(),
{
    let mut builder = SchemaBuilder::new();
    proof {
        reveal_with_fuel(crate::params::schema::type_shape, 3);
        reveal_strlit("type");
        assert("type"@.len() == 4);
        assert("type"@[0] == 't' && "type"@[1] == 'y');
        reveal_strlit("path");
        assert("path"@.len() == 4);
        assert("path"@[0] == 'p' && "path"@[1] == 'a');
        reveal_strlit("mode");
        assert("mode"@.len() == 4);
        assert("mode"@[0] == 'm' && "mode"@[1] == 'o');
        reveal_strlit("user");
        assert("user"@.len() == 4);
        assert("user"@[0] == 'u' && "user"@[1] == 's');
        reveal_strlit("group");
        assert("group"@.len() == 5);
        assert("group"@[0] == 'g' && "group"@[1] == 'r');
    }
    builder.field("type", ParamType::Literal(Value::String(String::from_str("directory"))), true);
    assert(schema_shape(builder.fields) =~= seq![required("type"@, literal("directory"@))]);
    builder.field("path", ParamType::TargetPath, true);
    assert(schema_shape(builder.fields) =~= seq![required("type"@, literal("directory"@)), required("path"@, TypeShape::TargetPath)]);
    builder.field("mode", ParamType::Number, false);
    assert(schema_shape(builder.fields) =~= seq![required("type"@, literal("directory"@)), required("path"@, TypeShape::TargetPath), optional("mode"@, TypeShape::Number)]);
    builder.field("user", ParamType::String, false);
    assert(schema_shape(builder.fields) =~= seq![required("type"@, literal("directory"@)), required("path"@, TypeShape::TargetPath), optional("mode"@, TypeShape::Number), optional("user"@, TypeShape::String)]);
    builder.field("group", ParamType::String, false);
    assert(schema_shape(builder.fields) =~= seq![required("type"@, literal("directory"@)), required("path"@, TypeShape::TargetPath), optional("mode"@, TypeShape::Number), optional("user"@, TypeShape::String), optional("group"@, TypeShape::String)]);
    builder.fields
}

/// The fields of the fourth case of the schema.
pub open spec fn directory_present_fields() -> Seq<FieldShape> {
    seq![
        required("type"@, literal("directory"@)),
        required("path"@, TypeShape::TargetPath),
        optional("mode"@, TypeShape::Number),
        optional("user"@, TypeShape::String),
        optional("group"@, TypeShape::String),
    ]
}

/// The fields of the fifth case of the schema.
fn directory_absent_case() -> (fields: ParamsStruct)
    ensures
        schema_shape(fields) == directory_absent_fields(),
{
    let mut builder = SchemaBuilder::new();
    proof {
        reveal_with_fuel(crate::params::schema::type_shape, 3);
        reveal_strlit("type");
        assert("type"@.len() == 4);
        assert("type"@[0] == 't' && "type"@[1] == 'y');
        reveal_strlit("path");
        assert("path"@.len() == 4);
        assert("path"@[0] == 'p' && "path"@[1] == 'a');
    }
    builder.field("type", ParamType::Literal(Value::String(String::from_str("directory-absent"))), true);
    assert(schema_shape(builder.fields) =~= seq![required("type"@, literal("directory-absent"@))]);
    builder.field("path", ParamType::TargetPath, true);
    assert(schema_shape(builder.fields) =~= seq![required("type"@, literal("directory-absent"@)), required("path"@, TypeShape::TargetPath)]);
    builder.fields
}

/// The fields of the fifth case of the schema.
pub open spec fn directory_absent_fields() -> Seq<FieldShape> {
    seq![
        required("type"@, literal("directory-absent"@)),
        required("path"@, TypeShape::TargetPath),
    ]
}

impl File {
    /// What a plan may hand over: by `type` a file with a source, a file, a
    /// directory, or the absence of one.
    pub fn param_types() -> (types: ParamTypes)
        ensures
            types matches ParamTypes::Union(cases) && cases.len() == 5 && schema_shape(
                cases[0],
            ) == file_source_fields() && schema_shape(
                cases[1],
            ) == file_present_fields() && schema_shape(
                cases[2],
            ) == file_absent_fields() && schema_shape(
                cases[3],
            ) == directory_present_fields() && schema_shape(
                cases[4],
            ) == directory_absent_fields(),
    {
        let mut cases: Vec<ParamsStruct> = Vec::new();
        cases.push(file_source_case());
        cases.push(file_present_case());
        cases.push(file_absent_case());
        cases.push(directory_present_case());
        cases.push(directory_absent_case());
        ParamTypes::Union(cases)
    }
}

} // verus!
