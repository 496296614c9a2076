//! Checkouts of git repositories.

use crate::cmd::{Command, CommandShape};
use crate::text::texts;
use crate::causality::meta::{
    leaf_after, meta_after, named_leaf, named_meta, plain_leaf, plain_meta, CausalityMeta,
};
use crate::operation::file::FilePath;
use crate::operation::git::GitOperation;
use crate::operation::Operation;
use crate::paths::{join_path, joined_path, same_path, same_paths};
use crate::text::{trim_text, trimmed};
use crate::tree::Tree;
use crate::view::{Render, ViewElement, ViewShape};
use crate::text::{bool_text, debug_flag, debug_option, option_text, show_bool, show_flag, show_option};
use crate::params::schema::{
    literal, optional, required, schema_shape, FieldShape, ParamType, ParamTypes, ParamsStruct,
    SchemaBuilder, TypeShape,
};
use crate::params::value::{Spanned, Value};
use vstd::prelude::*;
use vstd::string::StringExecFns;

verus! {

/// What a plan may ask of a checkout.
#[derive(Debug, Clone)]
pub struct GitParams {
    pub repo: String,
    pub path: FilePath,
    pub version: Option<String>,
    pub update: Option<bool>,
    pub force: Option<bool>,
}

/// A checkout of `repo` at `path`, at `version` if one is given.
#[derive(Debug, Clone)]
pub struct GitResource {
    pub repo: String,
    pub path: FilePath,
    pub version: Option<String>,
    pub update: bool,
    pub force: bool,
}

/// What was observed at the path.
#[derive(Debug, Clone)]
pub enum GitState {
    Absent,
    Present { head: Option<String>, branch: Option<String>, is_dirty: bool },
}

/// Why the path cannot be taken for the checkout.
#[derive(Debug, Clone)]
pub enum GitStateError {
    NotRepo { path: FilePath },
    GitDirMismatch { expected: String, actual: String },
    RemoteMismatch { expected: String, actual: Option<String> },
    Dirty,
}

/// What has to change at the path.
#[derive(Debug, Clone)]
pub enum GitChange {
    Clone { repo: String, path: FilePath },
    Checkout { path: FilePath, version: String, force: bool, fetch: bool },
    Pull { path: FilePath },
}

/// Checkouts of git, as a kind of resource.
#[derive(Debug, Clone)]
pub struct Git;

/// The change for a checkout that is present. With a version: nothing or
/// a pull where head or branch is the version, else a checkout. Without
/// one: a pull where there is a branch. A pull is only made of a clean
/// branch and where updates are wanted.
pub open spec fn change_when_present(
    version: Option<Seq<char>>,
    update: bool,
    force: bool,
    head: Option<Seq<char>>,
    branch: Option<Seq<char>>,
    is_dirty: bool,
) -> Option<GitChangeShape> {
    match version {
        Some(version) => if branch == Some(version) || head == Some(version) {
            if !is_dirty && update && branch == Some(version) {
                Some(GitChangeShape::Pull)
            } else {
                None
            }
        } else {
            Some(GitChangeShape::Checkout { version, force, fetch: update })
        },
        None => if !is_dirty && update && branch is Some {
            Some(GitChangeShape::Pull)
        } else {
            None
        },
    }
}

/// The mathematical shape of a change, the path left out.
pub ghost enum GitChangeShape {
    Clone { repo: Seq<char> },
    Checkout { version: Seq<char>, force: bool, fetch: bool },
    Pull,
}

/// The shape of a change, if it is a change at `path`.
pub open spec fn change_shape(change: Option<GitChange>, path: Seq<char>) -> Option<
    GitChangeShape,
> {
    match change {
        None => None,
        Some(GitChange::Clone { repo, path: at }) => Some(GitChangeShape::Clone { repo: repo@ }),
        Some(GitChange::Checkout { path: at, version, force, fetch }) => Some(
            GitChangeShape::Checkout { version: version@, force, fetch },
        ),
        Some(GitChange::Pull { path: at }) => Some(GitChangeShape::Pull),
    }
}

/// The path of a change.
pub open spec fn change_path(change: GitChange) -> Seq<char> {
    match change {
        GitChange::Clone { path, .. } => path@,
        GitChange::Checkout { path, .. } => path@,
        GitChange::Pull { path } => path@,
    }
}

/// Whether both texts are there and equal.
fn same_text(one: &Option<String>, other: &String) -> (same: bool)
    ensures
        same == (option_text(*one) == Some(other@)),
{
    match one {
        Some(one) => *one == *other,
        None => false,
    }
}

impl Git {
    /// The name of the kind in a plan.
    pub fn id() -> (id: &'static str)
        ensures
            id@ == "git"@,
    {
        "git"
    }

    /// The one resource that the parameters describe. Updates are wanted
    /// and force is off unless the parameters say otherwise.
    pub fn resources(params: GitParams) -> (trees: Vec<Tree<GitResource, CausalityMeta<String>>>)
        ensures
            trees.len() == 1,
            plain_leaf(trees[0]),
            trees[0]->node.repo == params.repo,
            trees[0]->node.path == params.path,
            trees[0]->node.version == params.version,
            trees[0]->node.update == match params.update {
                Some(update) => update,
                None => true,
            },
            trees[0]->node.force == match params.force {
                Some(force) => force,
                None => false,
            },
    {
        let GitParams { repo, path, version, update, force } = params;
        let resource = GitResource {
            repo,
            path,
            version,
            update: match update {
                Some(update) => update,
                None => true,
            },
            force: match force {
                Some(force) => force,
                None => false,
            },
        };
        let mut trees: Vec<Tree<GitResource, CausalityMeta<String>>> = Vec::new();
        trees.push(Tree::Leaf { meta: plain_meta(), node: resource });
        trees
    }

    /// Whether the git directory is the one expected: an error where it is not.
    pub fn git_dir_verdict(same: bool, expected: String, actual: String) -> (verdict: Result<
        (),
        GitStateError,
    >)
        ensures
            match verdict {
                Ok(()) => same,
                Err(GitStateError::GitDirMismatch { expected: wanted, actual: found }) => !same
                    && wanted == expected && found == actual,
                Err(_) => false,
            },
    {
        if same {
            Ok(())
        } else {
            Err(GitStateError::GitDirMismatch { expected, actual })
        }
    }

    /// Holds the git directory that git names, `git_dir`, against the
    /// directory `.git` below the path of the checkout: the name, without
    /// white space around it, is joined to the path of the checkout, and
    /// the two paths have to be the same. A mismatch is an error that
    /// carries both paths.
    pub fn check_git_dir(resource: &GitResource, git_dir: &str) -> (verdict: Result<
        (),
        GitStateError,
    >)
        ensures
            verdict is Ok <==> same_paths(
                joined_path(resource.path@, ".git"@),
                joined_path(resource.path@, trimmed(git_dir@)),
            ),
            verdict matches Err(error) ==> (error matches GitStateError::GitDirMismatch {
                expected,
                actual,
            } && expected@ == joined_path(resource.path@, ".git"@) && actual@ == joined_path(
                resource.path@,
                trimmed(git_dir@),
            )),
    {
        let named = trim_text(git_dir);
        let expected = join_path(resource.path.as_path(), ".git");
        let actual = join_path(resource.path.as_path(), named.as_str());
        let same = same_path(expected.as_str(), actual.as_str());
        Git::git_dir_verdict(same, expected, actual)
    }

    /// Holds the address of the remote `origin`, as git prints it, against
    /// the repository wanted. No remote or another one is an error.
    pub fn check_remote(resource: &GitResource, remote: Option<&str>) -> (verdict: Result<
        (),
        GitStateError,
    >)
        ensures
            match verdict {
                Ok(()) => remote matches Some(remote) && trimmed(remote@) == resource.repo@,
                Err(GitStateError::RemoteMismatch { expected, actual }) => {
                    &&& !(remote matches Some(remote) && trimmed(remote@) == resource.repo@)
                    &&& expected@ == resource.repo@
                    &&& option_text(actual) == match remote {
                        Some(remote) => Some(trimmed(remote@)),
                        None => None,
                    }
                },
                Err(_) => false,
            },
    {
        let actual = match remote {
            Some(remote) => Some(trim_text(remote)),
            None => None,
        };
        if same_text(&actual, &resource.repo) {
            Ok(())
        } else {
            Err(GitStateError::RemoteMismatch { expected: resource.repo.clone(), actual })
        }
    }

    /// Whether the working tree has uncommitted changes: it has where git
    /// reports anything. Changes are an error unless force is on.
    pub fn check_dirty(resource: &GitResource, reported: usize) -> (dirty: Result<
        bool,
        GitStateError,
    >)
        ensures
            match dirty {
                Ok(is_dirty) => is_dirty == (reported > 0) && (is_dirty ==> resource.force),
                Err(GitStateError::Dirty) => reported > 0 && !resource.force,
                Err(_) => false,
            },
    {
        let is_dirty = reported > 0;
        if is_dirty && !resource.force {
            Err(GitStateError::Dirty)
        } else {
            Ok(is_dirty)
        }
    }

    /// The state of a checkout that is present, from what git prints of
    /// head and branch.
    pub fn present(head: Option<&str>, branch: Option<&str>, is_dirty: bool) -> (state: GitState)
        ensures
            state matches GitState::Present { head: at, branch: on, is_dirty: dirty } && dirty
                == is_dirty && option_text(at) == (match head {
                Some(head) => Some(trimmed(head@)),
                None => None,
            }) && option_text(on) == (match branch {
                Some(branch) => Some(trimmed(branch@)),
                None => None,
            }),
    {
        GitState::Present {
            head: match head {
                Some(head) => Some(trim_text(head)),
                None => None,
            },
            branch: match branch {
                Some(branch) => Some(trim_text(branch)),
                None => None,
            },
            is_dirty,
        }
    }

    /// What has to change: a clone where nothing is there, else what
    /// [`change_when_present`] says.
    pub fn change(resource: &GitResource, state: &GitState) -> (change: Option<GitChange>)
        ensures
            change matches Some(change) ==> change_path(change) == resource.path@,
            change_shape(change, resource.path@) == match *state {
                GitState::Absent => Some(GitChangeShape::Clone { repo: resource.repo@ }),
                GitState::Present { head, branch, is_dirty } => change_when_present(
                    option_text(resource.version),
                    resource.update,
                    resource.force,
                    option_text(head),
                    option_text(branch),
                    is_dirty,
                ),
            },
    {
        match state {
            GitState::Absent => Some(
                GitChange::Clone { repo: resource.repo.clone(), path: resource.path.duplicate() },
            ),
            GitState::Present { head, branch, is_dirty } => {
                match &resource.version {
                    Some(version) => {
                        let on_branch = same_text(branch, version);
                        let at_head = same_text(head, version);
                        if on_branch || at_head {
                            if !*is_dirty && resource.update && on_branch {
                                Some(GitChange::Pull { path: resource.path.duplicate() })
                            } else {
                                None
                            }
                        } else {
                            Some(
                                GitChange::Checkout {
                                    path: resource.path.duplicate(),
                                    version: version.clone(),
                                    force: resource.force,
                                    fetch: resource.update,
                                },
                            )
                        }
                    },
                    None => {
                        if !*is_dirty && resource.update && branch.is_some() {
                            Some(GitChange::Pull { path: resource.path.duplicate() })
                        } else {
                            None
                        }
                    },
                }
            },
        }
    }

    /// The operations of a change. A checkout that fetches is a fetch
    /// named `fetch` and the checkout after it; every other change is one
    /// operation.
    pub fn operations(change: GitChange) -> (trees: Vec<Tree<Operation, CausalityMeta<String>>>)
        ensures
            match change {
                GitChange::Clone { repo, path } => trees.len() == 1 && plain_leaf(trees[0])
                    && trees[0]->node == Operation::Git(GitOperation::Clone { repo, path }),
                GitChange::Checkout { path, version, force, fetch } => if fetch {
                    &&& trees.len() == 2
                    &&& named_leaf(trees[0], "fetch"@)
                    &&& trees[0]->node matches Operation::Git(GitOperation::Fetch { path: at })
                        && at@ == path@
                    &&& leaf_after(trees[1], "fetch"@)
                    &&& trees[1]->node == Operation::Git(
                        GitOperation::Checkout { path, version, force },
                    )
                } else {
                    trees.len() == 1 && plain_leaf(trees[0]) && trees[0]->node == Operation::Git(
                        GitOperation::Checkout { path, version, force },
                    )
                },
                GitChange::Pull { path } => trees.len() == 1 && plain_leaf(trees[0])
                    && trees[0]->node == Operation::Git(GitOperation::Pull { path }),
            },
    {
        let mut trees: Vec<Tree<Operation, CausalityMeta<String>>> = Vec::new();
        match change {
            GitChange::Clone { repo, path } => {
                trees.push(
                    Tree::Leaf {
                        meta: plain_meta(),
                        node: Operation::Git(GitOperation::Clone { repo, path }),
                    },
                );
            },
            GitChange::Checkout { path, version, force, fetch } => {
                if fetch {
                    trees.push(
                        Tree::Leaf {
                            meta: named_meta("fetch"),
                            node: Operation::Git(GitOperation::Fetch { path: path.duplicate() }),
                        },
                    );
                    trees.push(
                        Tree::Leaf {
                            meta: meta_after("fetch"),
                            node: Operation::Git(GitOperation::Checkout { path, version, force }),
                        },
                    );
                } else {
                    trees.push(
                        Tree::Leaf {
                            meta: plain_meta(),
                            node: Operation::Git(GitOperation::Checkout { path, version, force }),
                        },
                    );
                }
            },
            GitChange::Pull { path } => {
                trees.push(
                    Tree::Leaf {
                        meta: plain_meta(),
                        node: Operation::Git(GitOperation::Pull { path }),
                    },
                );
            },
        }
        trees
    }
}

} // verus!

verus! {

impl Git {
    /// The command that asks git about the checkout: `git -C path` and the
    /// arguments given.
    pub fn inspect(resource: &GitResource, args: &Vec<String>) -> (command: Command)
        ensures
            command@ == (CommandShape {
                program: "git"@,
                args: seq!["-C"@, resource.path@] + texts(args@),
                envs: Seq::empty(),
                current_dir: None,
                stdout: false,
                stderr: false,
            }),
    {
        let mut command = Command::new("git");
        command.arg("-C");
        command.arg(resource.path.as_path());
        command.args(args);
        assert(command@.args =~= seq!["-C"@, resource.path@] + texts(args@));
        command
    }
}

} // verus!

verus! {

impl GitParams {
    /// What the value shows as text.
    pub open spec fn spec_label(self) -> Seq<char> {
        "Git(repo = "@ + self.repo@ + ", path = "@ + self.path@ + ", version = "@ + debug_option(option_text(self.version)) + ", update = "@ + debug_flag(self.update) + ", force = "@ + debug_flag(self.force) + ")"@
    }

    /// What the value shows as text.
    pub fn label(&self) -> (text: String)
        ensures
            text@ == self.spec_label(),
    {
        let mut text = String::new();
        text.append("Git(repo = ");
        text.append(self.repo.as_str());
        text.append(", path = ");
        text.append(self.path.0.as_str());
        text.append(", version = ");
        text.append(show_option(&self.version).as_str());
        text.append(", update = ");
        text.append(show_flag(self.update));
        text.append(", force = ");
        text.append(show_flag(self.force));
        text.append(")");
        text
    }
}

} // verus!

verus! {

impl GitResource {
    /// What the value shows as text.
    pub open spec fn spec_label(self) -> Seq<char> {
        "Git(repo = "@ + self.repo@ + ", path = "@ + self.path@ + ", version = "@ + debug_option(option_text(self.version)) + ", update = "@ + bool_text(self.update) + ", force = "@ + bool_text(self.force) + ")"@
    }

    /// What the value shows as text.
    pub fn label(&self) -> (text: String)
        ensures
            text@ == self.spec_label(),
    {
        let mut text = String::new();
        text.append("Git(repo = ");
        text.append(self.repo.as_str());
        text.append(", path = ");
        text.append(self.path.0.as_str());
        text.append(", version = ");
        text.append(show_option(&self.version).as_str());
        text.append(", update = ");
        text.append(show_bool(self.update));
        text.append(", force = ");
        text.append(show_bool(self.force));
        text.append(")");
        text
    }
}

} // verus!

verus! {

impl GitState {
    /// What the value shows as text.
    pub open spec fn spec_label(self) -> Seq<char> {
        match self {
            GitState::Absent => "Git::Absent"@,
            GitState::Present { head, branch, is_dirty } => "Git::Present(head = "@ + debug_option(option_text(head)) + ", branch = "@ + debug_option(option_text(branch)) + ", is_dirty = "@ + bool_text(is_dirty) + ")"@,
        }
    }

    /// What the value shows as text.
    pub fn label(&self) -> (text: String)
        ensures
            text@ == self.spec_label(),
    {
        let mut text = String::new();
        match self {
            GitState::Absent => {
                text.append("Git::Absent");
            },
            GitState::Present { head, branch, is_dirty } => {
                text.append("Git::Present(head = ");
                text.append(show_option(head).as_str());
                text.append(", branch = ");
                text.append(show_option(branch).as_str());
                text.append(", is_dirty = ");
                text.append(show_bool(*is_dirty));
                text.append(")");
            },
        }
        text
    }
}

} // verus!

verus! {

impl GitChange {
    /// What the value shows as text.
    pub open spec fn spec_label(self) -> Seq<char> {
        match self {
            GitChange::Clone { repo, path } => "Git::Clone(repo = "@ + repo@ + ", path = "@ + path@ + ")"@,
            GitChange::Checkout { path, version, force, fetch } => "Git::Checkout(path = "@ + path@ + ", version = "@ + version@ + ", force = "@ + bool_text(force) + ", fetch = "@ + bool_text(fetch) + ")"@,
            GitChange::Pull { path } => "Git::Pull(path = "@ + path@ + ")"@,
        }
    }

    /// What the value shows as text.
    pub fn label(&self) -> (text: String)
        ensures
            text@ == self.spec_label(),
    {
        let mut text = String::new();
        match self {
            GitChange::Clone { repo, path } => {
                text.append("Git::Clone(repo = ");
                text.append(repo.as_str());
                text.append(", path = ");
                text.append(path.0.as_str());
                text.append(")");
            },
            GitChange::Checkout { path, version, force, fetch } => {
                text.append("Git::Checkout(path = ");
                text.append(path.0.as_str());
                text.append(", version = ");
                text.append(version.as_str());
                text.append(", force = ");
                text.append(show_bool(*force));
                text.append(", fetch = ");
                text.append(show_bool(*fetch));
                text.append(")");
            },
            GitChange::Pull { path } => {
                text.append("Git::Pull(path = ");
                text.append(path.0.as_str());
                text.append(")");
            },
        }
        text
    }
}

} // verus!

verus! {

impl Render for GitParams {
    /// A line with the label.
    fn render(&self) -> (view: ViewElement)
        ensures
            view@ == ViewShape::Line(self.spec_label()),
    {
        ViewElement::Line(self.label())
    }
}

} // verus!

verus! {

impl Render for GitResource {
    /// A line with the label.
    fn render(&self) -> (view: ViewElement)
        ensures
            view@ == ViewShape::Line(self.spec_label()),
    {
        ViewElement::Line(self.label())
    }
}

} // verus!

verus! {

impl Render for GitState {
    /// A line with the label.
    fn render(&self) -> (view: ViewElement)
        ensures
            view@ == ViewShape::Line(self.spec_label()),
    {
        ViewElement::Line(self.label())
    }
}

} // verus!

verus! {

impl Render for GitChange {
    /// A line with the label.
    fn render(&self) -> (view: ViewElement)
        ensures
            view@ == ViewShape::Line(self.spec_label()),
    {
        ViewElement::Line(self.label())
    }
}

} // verus!

verus! {

/// The fields of the schema.
fn git_schema() -> (fields: ParamsStruct)
    ensures
        schema_shape(fields) == git_fields(),
{
    let mut builder = SchemaBuilder::new();
    proof {
        reveal_with_fuel(crate::params::schema::type_shape, 3);
        reveal_strlit("repo");
        assert("repo"@.len() == 4);
        assert("repo"@[0] == 'r' && "repo"@[1] == 'e');
        reveal_strlit("path");
        assert("path"@.len() == 4);
        assert("path"@[0] == 'p' && "path"@[1] == 'a');
        reveal_strlit("version");
        assert("version"@.len() == 7);
        assert("version"@[0] == 'v' && "version"@[1] == 'e');
        reveal_strlit("update");
        assert("update"@.len() == 6);
        assert("update"@[0] == 'u' && "update"@[1] == 'p');
        reveal_strlit("force");
        assert("force"@.len() == 5);
        assert("force"@[0] == 'f' && "force"@[1] == 'o');
    }
    builder.field("repo", ParamType::String, true);
    assert(schema_shape(builder.fields) =~= seq![required("repo"@, TypeShape::String)]);
    builder.field("path", ParamType::TargetPath, true);
    assert(schema_shape(builder.fields) =~= seq![required("repo"@, TypeShape::String), required("path"@, TypeShape::TargetPath)]);
    builder.field("version", ParamType::String, false);
    assert(schema_shape(builder.fields) =~= seq![required("repo"@, TypeShape::String), required("path"@, TypeShape::TargetPath), optional("version"@, TypeShape::String)]);
    builder.field("update", ParamType::Boolean, false);
    assert(schema_shape(builder.fields) =~= seq![required("repo"@, TypeShape::String), required("path"@, TypeShape::TargetPath), optional("version"@, TypeShape::String), optional("update"@, TypeShape::Boolean)]);
    builder.field("force", ParamType::Boolean, false);
    assert(schema_shape(builder.fields) =~= seq![required("repo"@, TypeShape::String), required("path"@, TypeShape::TargetPath), optional("version"@, TypeShape::String), optional("update"@, TypeShape::Boolean), optional("force"@, TypeShape::Boolean)]);
    builder.fields
}

/// The fields of the schema.
pub open spec fn git_fields() -> Seq<FieldShape> {
    seq![
        required("repo"@, TypeShape::String),
        required("path"@, TypeShape::TargetPath),
        optional("version"@, TypeShape::String),
        optional("update"@, TypeShape::Boolean),
        optional("force"@, TypeShape::Boolean),
    ]
}

impl Git {
    /// What a plan may hand over: the repository, the path and where wanted the
    /// version and how to get to it.
    pub fn param_types() -> (types: ParamTypes)
        ensures
            types matches ParamTypes::Struct(fields) && schema_shape(fields) == git_fields(),
    {
        ParamTypes::Struct(git_schema())
    }
}

} // verus!
