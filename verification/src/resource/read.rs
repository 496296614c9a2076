//! The parameters of each kind of resource, read from the values of a plan
//! item. The values have been held against the schema of the kind before;
//! values that do not have the form that the kind asks for yield nothing.

use crate::operation::file::{FileGroup, FileMode, FilePath, FileUser};
use crate::params::read::{
    option_texts, optional_text, read_optional_flag, read_optional_number, read_optional_text,
    read_text, read_texts,
};
use crate::params::value::Spanned;
use crate::params::values::{ParamValue, ParamValues};
use crate::resource::apt::AptParams;
use crate::resource::command::CommandParams;
use crate::resource::file::FileParams;
use crate::resource::git::GitParams;
use crate::resource::pacman::PacmanParams;
use crate::text::{option_text, texts};
use vstd::prelude::*;
use vstd::string::StringExecFns;

verus! {

/// What the values ask of a package manager: the one package under
/// `package`, or else the packages under `packages`.
pub ghost enum PackagesAsked {
    One(Seq<char>),
    Several(Seq<Seq<char>>),
}

/// The packages that the values ask for, if they ask for any.
pub open spec fn packages_asked(values: Seq<(String, Spanned<ParamValue>)>) -> Option<
    PackagesAsked,
> {
    match (read_text(values, "package"@), read_texts(values, "packages"@)) {
        (Some(package), _) => Some(PackagesAsked::One(package)),
        (None, Some(packages)) => Some(PackagesAsked::Several(packages)),
        (None, None) => None,
    }
}

impl AptParams {
    /// The packages that the parameters ask for.
    pub open spec fn asked(self) -> PackagesAsked {
        match self {
            AptParams::Package { package } => PackagesAsked::One(package@),
            AptParams::Packages { packages } => PackagesAsked::Several(texts(packages@)),
        }
    }

    /// Reads the parameters from the values of a plan item.
    pub fn from_values(values: &ParamValues) -> (params: Option<AptParams>)
        ensures
            match params {
                Some(params) => packages_asked(values.0@) == Some(params.asked()),
                None => packages_asked(values.0@) is None,
            },
    {
        match values.text("package") {
            Some(package) => Some(AptParams::Package { package }),
            None => match values.texts("packages") {
                Some(packages) => Some(AptParams::Packages { packages }),
                None => None,
            },
        }
    }
}

impl PacmanParams {
    /// The packages that the parameters ask for.
    pub open spec fn asked(self) -> PackagesAsked {
        match self {
            PacmanParams::Package { package } => PackagesAsked::One(package@),
            PacmanParams::Packages { packages } => PackagesAsked::Several(texts(packages@)),
        }
    }

    /// Reads the parameters from the values of a plan item.
    pub fn from_values(values: &ParamValues) -> (params: Option<PacmanParams>)
        ensures
            match params {
                Some(params) => packages_asked(values.0@) == Some(params.asked()),
                None => packages_asked(values.0@) is None,
            },
    {
        match values.text("package") {
            Some(package) => Some(PacmanParams::Package { package }),
            None => match values.texts("packages") {
                Some(packages) => Some(PacmanParams::Packages { packages }),
                None => None,
            },
        }
    }
}

/// What the values ask of a command: whether the software shall be
/// installed, and the commands that test, install and remove.
pub ghost struct CommandAsked {
    pub install: bool,
    pub is_installed: Option<Seq<char>>,
    pub install_line: Option<Seq<char>>,
    pub uninstall_line: Option<Seq<char>>,
}

/// What the values ask of a command, if they ask anything: the status is
/// `install` or `uninstall`, and the command for that status is there.
pub open spec fn command_asked(values: Seq<(String, Spanned<ParamValue>)>) -> Option<
    CommandAsked,
> {
    let status = read_text(values, "status"@);
    let test = read_optional_text(values, "is_installed"@);
    let install = read_optional_text(values, "install"@);
    let uninstall = read_optional_text(values, "uninstall"@);
    if test is None || install is None || uninstall is None {
        None
    } else if status == Some("install"@) && install->0 is Some {
        Some(
            CommandAsked {
                install: true,
                is_installed: test->0,
                install_line: install->0,
                uninstall_line: uninstall->0,
            },
        )
    } else if status == Some("uninstall"@) && uninstall->0 is Some {
        Some(
            CommandAsked {
                install: false,
                is_installed: test->0,
                install_line: install->0,
                uninstall_line: uninstall->0,
            },
        )
    } else {
        None
    }
}

impl CommandParams {
    /// What the parameters ask for.
    pub open spec fn asked(self) -> CommandAsked {
        match self {
            CommandParams::Install { is_installed, install, uninstall } => CommandAsked {
                install: true,
                is_installed: option_text(is_installed),
                install_line: Some(install@),
                uninstall_line: option_text(uninstall),
            },
            CommandParams::Uninstall { is_installed, install, uninstall } => CommandAsked {
                install: false,
                is_installed: option_text(is_installed),
                install_line: option_text(install),
                uninstall_line: Some(uninstall@),
            },
        }
    }

    /// Reads the parameters from the values of a plan item.
    pub fn from_values(values: &ParamValues) -> (params: Option<CommandParams>)
        ensures
            match params {
                Some(params) => command_asked(values.0@) == Some(params.asked()),
                None => command_asked(values.0@) is None,
            },
    {
        proof {
            reveal_strlit("install");
            reveal_strlit("uninstall");
            assert("install"@.len() != "uninstall"@.len());
        }
        let is_installed = match values.optional_text("is_installed") {
            Some(test) => test,
            None => {
                return None;
            },
        };
        let install = match values.optional_text("install") {
            Some(line) => line,
            None => {
                return None;
            },
        };
        let uninstall = match values.optional_text("uninstall") {
            Some(line) => line,
            None => {
                return None;
            },
        };
        let status = match values.text("status") {
            Some(status) => status,
            None => {
                return None;
            },
        };
        if status == String::from_str("install") {
            match install {
                Some(install) => Some(CommandParams::Install { is_installed, install, uninstall }),
                None => None,
            }
        } else if status == String::from_str("uninstall") {
            match uninstall {
                Some(uninstall) => Some(
                    CommandParams::Uninstall { is_installed, install, uninstall },
                ),
                None => None,
            }
        } else {
            None
        }
    }
}

/// What the values ask of a checkout.
pub ghost struct GitAsked {
    pub repo: Seq<char>,
    pub path: Seq<char>,
    pub version: Option<Seq<char>>,
    pub update: Option<bool>,
    pub force: Option<bool>,
}

/// What the values ask of a checkout, if they ask anything: the
/// repository and the path are there.
pub open spec fn git_asked(values: Seq<(String, Spanned<ParamValue>)>) -> Option<GitAsked> {
    match (
        read_text(values, "repo"@),
        read_text(values, "path"@),
        read_optional_text(values, "version"@),
        read_optional_flag(values, "update"@),
        read_optional_flag(values, "force"@),
    ) {
        (Some(repo), Some(path), Some(version), Some(update), Some(force)) => Some(
            GitAsked { repo, path, version, update, force },
        ),
        _ => None,
    }
}

impl GitParams {
    /// What the parameters ask for.
    pub open spec fn asked(self) -> GitAsked {
        GitAsked {
            repo: self.repo@,
            path: self.path@,
            version: option_text(self.version),
            update: self.update,
            force: self.force,
        }
    }

    /// Reads the parameters from the values of a plan item.
    pub fn from_values(values: &ParamValues) -> (params: Option<GitParams>)
        ensures
            match params {
                Some(params) => git_asked(values.0@) == Some(params.asked()),
                None => git_asked(values.0@) is None,
            },
    {
        let repo = match values.text("repo") {
            Some(repo) => repo,
            None => {
                return None;
            },
        };
        let path = match values.text("path") {
            Some(path) => path,
            None => {
                return None;
            },
        };
        let version = match values.optional_text("version") {
            Some(version) => version,
            None => {
                return None;
            },
        };
        let update = match values.optional_flag("update") {
            Some(update) => update,
            None => {
                return None;
            },
        };
        let force = match values.optional_flag("force") {
            Some(force) => force,
            None => {
                return None;
            },
        };
        Some(GitParams { repo, path: FilePath::new(path.as_str()), version, update, force })
    }
}

/// What is asked of a path.
pub ghost enum FileKind {
    Source,
    File,
    FileAbsent,
    Directory,
    DirectoryAbsent,
}

/// What the values ask of a file or directory. The source is asked only
/// of a sourced file; mode, user and group of what shall be there.
pub ghost struct FileAsked {
    pub kind: FileKind,
    pub path: Seq<char>,
    pub source: Option<Seq<char>>,
    pub mode: Option<u32>,
    pub user: Option<Seq<char>>,
    pub group: Option<Seq<char>>,
}

/// The kind that the text under `type` names.
pub open spec fn file_kind(name: Seq<char>) -> Option<FileKind> {
    if name == "source"@ {
        Some(FileKind::Source)
    } else if name == "file"@ {
        Some(FileKind::File)
    } else if name == "file-absent"@ {
        Some(FileKind::FileAbsent)
    } else if name == "directory"@ {
        Some(FileKind::Directory)
    } else if name == "directory-absent"@ {
        Some(FileKind::DirectoryAbsent)
    } else {
        None
    }
}

/// Whether mode, user and group are asked of the kind.
pub open spec fn has_attributes(kind: FileKind) -> bool {
    kind is Source || kind is File || kind is Directory
}

/// What the values ask of a file or directory, if they ask anything: the
/// kind and the path are there, the source of a sourced file, and what
/// stands under mode, user and group is a number and texts.
pub open spec fn file_asked(values: Seq<(String, Spanned<ParamValue>)>) -> Option<FileAsked> {
    let kind = match read_text(values, "type"@) {
        Some(name) => file_kind(name),
        None => None,
    };
    let path = read_text(values, "path"@);
    let source = read_text(values, "source"@);
    let mode = read_optional_number(values, "mode"@);
    let user = read_optional_text(values, "user"@);
    let group = read_optional_text(values, "group"@);
    if kind is None || path is None {
        None
    } else if !has_attributes(kind->0) {
        Some(
            FileAsked {
                kind: kind->0,
                path: path->0,
                source: None,
                mode: None,
                user: None,
                group: None,
            },
        )
    } else if mode is None || user is None || group is None || (kind->0 is Source
        && source is None) {
        None
    } else {
        Some(
            FileAsked {
                kind: kind->0,
                path: path->0,
                source: if kind->0 is Source {
                    source
                } else {
                    None
                },
                mode: mode->0,
                user: user->0,
                group: group->0,
            },
        )
    }
}

/// The number of an optional mode.
pub open spec fn mode_number(mode: Option<FileMode>) -> Option<u32> {
    match mode {
        Some(mode) => Some(mode.0),
        None => None,
    }
}

/// The name of an optional user.
pub open spec fn user_name(user: Option<FileUser>) -> Option<Seq<char>> {
    match user {
        Some(user) => Some(user@),
        None => None,
    }
}

/// The name of an optional group.
pub open spec fn group_name(group: Option<FileGroup>) -> Option<Seq<char>> {
    match group {
        Some(group) => Some(group@),
        None => None,
    }
}

impl FileParams {
    /// What the parameters ask for.
    pub open spec fn asked(self) -> FileAsked {
        match self {
            FileParams::Source { source, path, mode, user, group } => FileAsked {
                kind: FileKind::Source,
                path: path@,
                source: Some(source@),
                mode: mode_number(mode),
                user: user_name(user),
                group: group_name(group),
            },
            FileParams::File { path, mode, user, group } => FileAsked {
                kind: FileKind::File,
                path: path@,
                source: None,
                mode: mode_number(mode),
                user: user_name(user),
                group: group_name(group),
            },
            FileParams::FileAbsent { path } => FileAsked {
                kind: FileKind::FileAbsent,
                path: path@,
                source: None,
                mode: None,
                user: None,
                group: None,
            },
            FileParams::Directory { path, mode, user, group } => FileAsked {
                kind: FileKind::Directory,
                path: path@,
                source: None,
                mode: mode_number(mode),
                user: user_name(user),
                group: group_name(group),
            },
            FileParams::DirectoryAbsent { path } => FileAsked {
                kind: FileKind::DirectoryAbsent,
                path: path@,
                source: None,
                mode: None,
                user: None,
                group: None,
            },
        }
    }

    /// Reads the parameters from the values of a plan item.
    pub fn from_values(values: &ParamValues) -> (params: Option<FileParams>)
        ensures
            match params {
                Some(params) => file_asked(values.0@) == Some(params.asked()),
                None => file_asked(values.0@) is None,
            },
    {
        proof {
            reveal_strlit("source");
            reveal_strlit("file");
            reveal_strlit("file-absent");
            reveal_strlit("directory");
            reveal_strlit("directory-absent");
            assert("source"@.len() == 6 && "file"@.len() == 4 && "file-absent"@.len() == 11
                && "directory"@.len() == 9 && "directory-absent"@.len() == 16);
        }
        let kind = match values.text("type") {
            Some(kind) => kind,
            None => {
                return None;
            },
        };
        let path = match values.text("path") {
            Some(path) => FilePath::new(path.as_str()),
            None => {
                return None;
            },
        };
        if kind == String::from_str("file-absent") {
            return Some(FileParams::FileAbsent { path });
        }
        if kind == String::from_str("directory-absent") {
            return Some(FileParams::DirectoryAbsent { path });
        }
        let is_source = kind == String::from_str("source");
        let is_file = kind == String::from_str("file");
        let is_directory = kind == String::from_str("directory");
        if !is_source && !is_file && !is_directory {
            return None;
        }
        let mode = match values.optional_number("mode") {
            Some(Some(mode)) => Some(FileMode::new(mode)),
            Some(None) => None,
            None => {
                return None;
            },
        };
        let user = match values.optional_text("user") {
            Some(Some(user)) => Some(FileUser::new(user.as_str())),
            Some(None) => None,
            None => {
                return None;
            },
        };
        let group = match values.optional_text("group") {
            Some(Some(group)) => Some(FileGroup::new(group.as_str())),
            Some(None) => None,
            None => {
                return None;
            },
        };
        if is_source {
            match values.text("source") {
                Some(source) => Some(
                    FileParams::Source {
                        source: FilePath::new(source.as_str()),
                        path,
                        mode,
                        user,
                        group,
                    },
                ),
                None => None,
            }
        } else if is_file {
            Some(FileParams::File { path, mode, user, group })
        } else {
            Some(FileParams::Directory { path, mode, user, group })
        }
    }
}

} // verus!
