//! Operations on files and directories.

use vstd::prelude::*;
use crate::text::{debug_wrapped, show_wrapped, write_number, written};
use vstd::string::StringExecFns;

verus! {

/// A path on the host, as text.
#[derive(Debug, Clone, PartialEq, Eq, PartialOrd, Ord)]
pub struct FilePath(pub String);

impl View for FilePath {
    type V = Seq<char>;

    open spec fn view(&self) -> Seq<char> {
        self.0@
    }
}

impl FilePath {
    /// The path that the text names.
    pub fn new(value: &str) -> (path: Self)
        ensures
            path@ == value@,
    {
        FilePath(String::from_str(value))
    }

    /// The path as text.
    pub fn as_path(&self) -> (path: &str)
        ensures
            path@ == self@,
    {
        self.0.as_str()
    }

    /// Another path with the same text.
    pub fn duplicate(&self) -> (copy: Self)
        ensures
            copy@ == self@,
    {
        FilePath(self.0.clone())
    }
}

/// The permission bits of a file.
#[derive(Debug, Clone, Copy, PartialEq, Eq, Structural)]
pub struct FileMode(pub u32);

impl FileMode {
    /// The mode with the bits of the number.
    pub fn new(value: u32) -> (mode: Self)
        ensures
            mode.0 == value,
    {
        FileMode(value)
    }

    /// The bits of the mode as a number.
    pub fn as_u32(&self) -> (value: u32)
        ensures
            value == self.0,
    {
        self.0
    }
}

/// The name of the user that owns a file.
#[derive(Debug, Clone, PartialEq, Eq)]
pub struct FileUser(pub String);

impl View for FileUser {
    type V = Seq<char>;

    open spec fn view(&self) -> Seq<char> {
        self.0@
    }
}

impl FileUser {
    /// The user with the name.
    pub fn new(value: &str) -> (user: Self)
        ensures
            user@ == value@,
    {
        FileUser(String::from_str(value))
    }

    /// The name of the user.
    pub fn as_str(&self) -> (name: &str)
        ensures
            name@ == self@,
    {
        self.0.as_str()
    }

    /// Another name with the same text.
    pub fn duplicate(&self) -> (copy: Self)
        ensures
            copy@ == self@,
    {
        FileUser(self.0.clone())
    }
}

/// The name of the group that owns a file.
#[derive(Debug, Clone, PartialEq, Eq)]
pub struct FileGroup(pub String);

impl View for FileGroup {
    type V = Seq<char>;

    open spec fn view(&self) -> Seq<char> {
        self.0@
    }
}

impl FileGroup {
    /// The group with the name.
    pub fn new(value: &str) -> (group: Self)
        ensures
            group@ == value@,
    {
        FileGroup(String::from_str(value))
    }

    /// The name of the group.
    pub fn as_str(&self) -> (name: &str)
        ensures
            name@ == self@,
    {
        self.0.as_str()
    }

    /// Another name with the same text.
    pub fn duplicate(&self) -> (copy: Self)
        ensures
            copy@ == self@,
    {
        FileGroup(self.0.clone())
    }
}

/// Where the contents of a file come from.
#[derive(Debug, Clone)]
pub enum FileSource {
    Contents(Vec<u8>),
    Path(FilePath),
}

/// One step on a file or directory.
#[derive(Debug, Clone)]
pub enum FileOperation {
    WriteFile { path: FilePath, source: FileSource },
    CopyFile { source: FilePath, destination: FilePath },
    MoveFile { source: FilePath, destination: FilePath },
    RemoveFile { path: FilePath },
    CreateDirectory { path: FilePath },
    RemoveDirectory { path: FilePath },
    CreateSymlink { source: FilePath, path: FilePath },
    ChangeMode { path: FilePath, mode: FileMode },
    ChangeOwner { path: FilePath, user: Option<FileUser>, group: Option<FileGroup> },
}

/// The operations on files and directories, as a kind.
#[derive(Debug, Clone)]
pub struct File;

impl File {
    /// File operations are not merged.
    pub fn merge(operations: Vec<FileOperation>) -> (out: Vec<FileOperation>)
        ensures
            out == operations,
    {
        operations
    }
}

} // verus!

verus! {

impl FileOperation {
    /// What the value shows as text.
    pub open spec fn spec_label(self) -> Seq<char> {
        match self {
            FileOperation::WriteFile { path, source: FileSource::Contents(contents) } => "File::WriteFile(path = "@ + path@ + ", source = Contents("@ + written(contents@.len(), 10) + " bytes))"@,
            FileOperation::WriteFile { path, source: FileSource::Path(source_path) } => "File::WriteFile(path = "@ + path@ + ", source = Path("@ + source_path@ + "))"@,
            FileOperation::CopyFile { source, destination } => "File::CopyFile(source = "@ + source@ + ", destination = "@ + destination@ + ")"@,
            FileOperation::MoveFile { source, destination } => "File::MoveFile(source = "@ + source@ + ", destination = "@ + destination@ + ")"@,
            FileOperation::RemoveFile { path } => "File::RemoveFile(path = "@ + path@ + ")"@,
            FileOperation::CreateDirectory { path } => "File::CreateDirectory(path = "@ + path@ + ")"@,
            FileOperation::RemoveDirectory { path } => "File::RemoveDirectory(path = "@ + path@ + ")"@,
            FileOperation::CreateSymlink { source, path } => "File::CreateSymlink(source = "@ + source@ + ", path = "@ + path@ + ")"@,
            FileOperation::ChangeMode { path, mode } => "File::ChangeMode(path = "@ + path@ + ", mode = "@ + written(mode.0 as nat, 8) + ")"@,
            FileOperation::ChangeOwner { path, user, group } => "File::ChangeOwner(path = "@ + path@ + ", user = "@ + debug_wrapped("FileUser"@, match user { Some(held) => Some(held@), None => None }) + ", group = "@ + debug_wrapped("FileGroup"@, match group { Some(held) => Some(held@), None => None }) + ")"@,
        }
    }

    /// What the value shows as text.
    pub fn label(&self) -> (text: String)
        ensures
            text@ == self.spec_label(),
    {
        let mut text = String::new();
        match self {
            FileOperation::WriteFile { path, source: FileSource::Contents(contents) } => {
                text.append("File::WriteFile(path = ");
                text.append(path.0.as_str());
                text.append(", source = Contents(");
                text.append(write_number(contents.len() as u64, 10).as_str());
                text.append(" bytes))");
            },
            FileOperation::WriteFile { path, source: FileSource::Path(source_path) } => {
                text.append("File::WriteFile(path = ");
                text.append(path.0.as_str());
                text.append(", source = Path(");
                text.append(source_path.0.as_str());
                text.append("))");
            },
            FileOperation::CopyFile { source, destination } => {
                text.append("File::CopyFile(source = ");
                text.append(source.0.as_str());
                text.append(", destination = ");
                text.append(destination.0.as_str());
                text.append(")");
            },
            FileOperation::MoveFile { source, destination } => {
                text.append("File::MoveFile(source = ");
                text.append(source.0.as_str());
                text.append(", destination = ");
                text.append(destination.0.as_str());
                text.append(")");
            },
            FileOperation::RemoveFile { path } => {
                text.append("File::RemoveFile(path = ");
                text.append(path.0.as_str());
                text.append(")");
            },
            FileOperation::CreateDirectory { path } => {
                text.append("File::CreateDirectory(path = ");
                text.append(path.0.as_str());
                text.append(")");
            },
            FileOperation::RemoveDirectory { path } => {
                text.append("File::RemoveDirectory(path = ");
                text.append(path.0.as_str());
                text.append(")");
            },
            FileOperation::CreateSymlink { source, path } => {
                text.append("File::CreateSymlink(source = ");
                text.append(source.0.as_str());
                text.append(", path = ");
                text.append(path.0.as_str());
                text.append(")");
            },
            FileOperation::ChangeMode { path, mode } => {
                text.append("File::ChangeMode(path = ");
                text.append(path.0.as_str());
                text.append(", mode = ");
                text.append(write_number(mode.0 as u64, 8).as_str());
                text.append(")");
            },
            FileOperation::ChangeOwner { path, user, group } => {
                text.append("File::ChangeOwner(path = ");
                text.append(path.0.as_str());
                text.append(", user = ");
                text.append(show_wrapped("FileUser", match user { Some(held) => Some(held.0.as_str()), None => None }).as_str());
                text.append(", group = ");
                text.append(show_wrapped("FileGroup", match group { Some(held) => Some(held.0.as_str()), None => None }).as_str());
                text.append(")");
            },
        }
        text
    }
}

} // verus!
