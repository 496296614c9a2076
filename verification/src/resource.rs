//! Resources: the atomic facts that a plan wants to hold of the host, how
//! they are observed, and what has to change where they do not hold.

pub mod apt;
pub mod command;
pub mod file;
pub mod git;
pub mod pacman;
pub mod read;

use crate::causality::meta::CausalityMeta;
use crate::operation::Operation;
use crate::resource::apt::{Apt, AptChange, AptParams, AptResource, AptState};
use crate::resource::command::{
    Command, CommandChange, CommandParams, CommandResource, CommandState,
};
use crate::resource::file::{fits, File, FileChange, FileParams, FileResource, FileState};
use crate::resource::git::{Git, GitChange, GitParams, GitResource, GitState};
use crate::resource::pacman::{Pacman, PacmanChange, PacmanParams, PacmanResource, PacmanState};
use crate::tree::{Tree, TreeShape};
use crate::view::{Render, ViewElement, ViewShape};
use vstd::prelude::*;
use vstd::string::StringExecFns;

verus! {

/// The parameters of a resource of one of the kinds.
#[derive(Debug, Clone)]
pub enum ResourceParams {
    Apt(AptParams),
    File(FileParams),
    Pacman(PacmanParams),
    Command(CommandParams),
    Git(GitParams),
}

/// A resource of one of the kinds.
#[derive(Debug, Clone)]
pub enum Resource {
    Apt(AptResource),
    File(FileResource),
    Pacman(PacmanResource),
    Command(CommandResource),
    Git(GitResource),
}

/// The observed state of a resource of one of the kinds.
#[derive(Debug, Clone)]
pub enum ResourceState {
    Apt(AptState),
    File(FileState),
    Pacman(PacmanState),
    Command(CommandState),
    Git(GitState),
}

/// A change of a resource of one of the kinds.
#[derive(Debug, Clone)]
pub enum ResourceChange {
    Apt(AptChange),
    File(FileChange),
    Pacman(PacmanChange),
    Command(CommandChange),
    Git(GitChange),
}

/// Takes a resource of the kind as a resource.
pub open spec fn as_apt() -> spec_fn(AptResource) -> Resource {
    |resource: AptResource| Resource::Apt(resource)
}

/// Takes a resource of the kind as a resource.
pub open spec fn as_file() -> spec_fn(FileResource) -> Resource {
    |resource: FileResource| Resource::File(resource)
}

/// Takes a resource of the kind as a resource.
pub open spec fn as_pacman() -> spec_fn(PacmanResource) -> Resource {
    |resource: PacmanResource| Resource::Pacman(resource)
}

/// Takes a resource of the kind as a resource.
pub open spec fn as_command() -> spec_fn(CommandResource) -> Resource {
    |resource: CommandResource| Resource::Command(resource)
}

/// Takes a resource of the kind as a resource.
pub open spec fn as_git() -> spec_fn(GitResource) -> Resource {
    |resource: GitResource| Resource::Git(resource)
}

/// The trees with every leaf wrapped.
pub open spec fn all_wrapped<Kind>(
    trees: Seq<Tree<Kind, CausalityMeta<String>>>,
    wrap: spec_fn(Kind) -> Resource,
    wrapped: Seq<Tree<Resource, CausalityMeta<String>>>,
) -> bool {
    &&& wrapped.len() == trees.len()
    &&& forall|i: int|
        0 <= i < trees.len() ==> (#[trigger] trees[i])@.wrapped_as(wrap, wrapped[i]@)
}

/// The state is of the kind of the resource and one that an observation
/// of the resource can tell.
pub open spec fn state_fits(resource: Resource, state: ResourceState) -> bool {
    match (resource, state) {
        (Resource::Apt(_), ResourceState::Apt(_)) => true,
        (Resource::File(resource), ResourceState::File(state)) => fits(resource, state),
        (Resource::Pacman(_), ResourceState::Pacman(_)) => true,
        (Resource::Command(_), ResourceState::Command(_)) => true,
        (Resource::Git(_), ResourceState::Git(_)) => true,
        _ => false,
    }
}

/// The resource of the kind, as a resource.
fn wrap_apt(resource: AptResource) -> (out: Resource)
    ensures
        out == Resource::Apt(resource),
{
    Resource::Apt(resource)
}

/// The resource of the kind, as a resource.
fn wrap_file(resource: FileResource) -> (out: Resource)
    ensures
        out == Resource::File(resource),
{
    Resource::File(resource)
}

/// The resource of the kind, as a resource.
fn wrap_pacman(resource: PacmanResource) -> (out: Resource)
    ensures
        out == Resource::Pacman(resource),
{
    Resource::Pacman(resource)
}

/// The resource of the kind, as a resource.
fn wrap_command(resource: CommandResource) -> (out: Resource)
    ensures
        out == Resource::Command(resource),
{
    Resource::Command(resource)
}

/// The resource of the kind, as a resource.
fn wrap_git(resource: GitResource) -> (out: Resource)
    ensures
        out == Resource::Git(resource),
{
    Resource::Git(resource)
}

/// Wraps every leaf of the trees of one kind.
fn wrap_trees<Kind, Wrap: Fn(Kind) -> Resource + Copy>(
    trees: Vec<Tree<Kind, CausalityMeta<String>>>,
    wrap: Wrap,
    Ghost(spec_wrap): Ghost<spec_fn(Kind) -> Resource>,
) -> (wrapped: Vec<Tree<Resource, CausalityMeta<String>>>)
    requires
        forall|kind: Kind| #[trigger] wrap.requires((kind,)),
        forall|kind: Kind, out: Resource| #[trigger]
            wrap.ensures((kind,), out) ==> out == spec_wrap(kind),
    ensures
        all_wrapped(trees@, spec_wrap, wrapped@),
{
    let ghost list = trees@;
    let mut wrapped: Vec<Tree<Resource, CausalityMeta<String>>> = Vec::new();
    for tree in it: trees
        invariant
            it.seq() == list,
            wrapped.len() == it.index(),
            forall|kind: Kind| #[trigger] wrap.requires((kind,)),
            forall|kind: Kind, out: Resource| #[trigger]
                wrap.ensures((kind,), out) ==> out == spec_wrap(kind),
            forall|i: int|
                0 <= i < it.index() ==> (#[trigger] list[i])@.wrapped_as(spec_wrap, wrapped[i]@),
    {
        assert(tree == list[it.index() as int]);
        proof {
            lemma_all_accepted(tree@, wrap);
        }
        let next = tree.map(wrap);
        proof {
            tree@.lemma_maps_to_wrapped(wrap, spec_wrap, next@);
        }
        wrapped.push(next);
    }
    wrapped
}

/// A function that accepts everything accepts every leaf.
proof fn lemma_all_accepted<Kind, Meta, Next, F: Fn(Kind) -> Next>(
    tree: TreeShape<Kind, Meta>,
    f: F,
)
    requires
        forall|kind: Kind| #[trigger] f.requires((kind,)),
    ensures
        tree.leaves_accepted(f),
    decreases tree,
{
    match tree {
        TreeShape::Branch { children, .. } => {
            assert forall|i: int| 0 <= i < children.len() implies (
            #[trigger] children[i]).leaves_accepted(f) by {
                lemma_all_accepted(children[i], f);
            }
        },
        TreeShape::Leaf { .. } => {},
    }
}

impl ResourceParams {
    /// The resources that the parameters ask for: those that the kind
    /// makes of them, each as a resource.
    pub fn resources(self) -> (trees: Vec<Tree<Resource, CausalityMeta<String>>>)
        ensures
            match self {
                ResourceParams::Apt(params) => exists|made: Vec<
                    Tree<AptResource, CausalityMeta<String>>,
                >|
                    call_ensures(Apt::resources, (params,), made) && #[trigger] all_wrapped(
                        made@,
                        as_apt(),
                        trees@,
                    ),
                ResourceParams::File(params) => exists|made: Vec<
                    Tree<FileResource, CausalityMeta<String>>,
                >|
                    call_ensures(File::resources, (params,), made) && #[trigger] all_wrapped(
                        made@,
                        as_file(),
                        trees@,
                    ),
                ResourceParams::Pacman(params) => exists|made: Vec<
                    Tree<PacmanResource, CausalityMeta<String>>,
                >|
                    call_ensures(Pacman::resources, (params,), made) && #[trigger] all_wrapped(
                        made@,
                        as_pacman(),
                        trees@,
                    ),
                ResourceParams::Command(params) => exists|made: Vec<
                    Tree<CommandResource, CausalityMeta<String>>,
                >|
                    call_ensures(Command::resources, (params,), made) && #[trigger] all_wrapped(
                        made@,
                        as_command(),
                        trees@,
                    ),
                ResourceParams::Git(params) => exists|made: Vec<
                    Tree<GitResource, CausalityMeta<String>>,
                >|
                    call_ensures(Git::resources, (params,), made) && #[trigger] all_wrapped(
                        made@,
                        as_git(),
                        trees@,
                    ),
            },
    {
        match self {
            ResourceParams::Apt(params) => {
                let made = Apt::resources(params);
                let ghost wrap = as_apt();
                let trees = wrap_trees(
                    made,
                    wrap_apt,
                    Ghost(wrap),
                );
                assert(all_wrapped(made@, wrap, trees@));
                trees
            },
            ResourceParams::File(params) => {
                let made = File::resources(params);
                let ghost wrap = as_file();
                let trees = wrap_trees(
                    made,
                    wrap_file,
                    Ghost(wrap),
                );
                assert(all_wrapped(made@, wrap, trees@));
                trees
            },
            ResourceParams::Pacman(params) => {
                let made = Pacman::resources(params);
                let ghost wrap = as_pacman();
                let trees = wrap_trees(
                    made,
                    wrap_pacman,
                    Ghost(wrap),
                );
                assert(all_wrapped(made@, wrap, trees@));
                trees
            },
            ResourceParams::Command(params) => {
                let made = Command::resources(params);
                let ghost wrap = as_command();
                let trees = wrap_trees(
                    made,
                    wrap_command,
                    Ghost(wrap),
                );
                assert(all_wrapped(made@, wrap, trees@));
                trees
            },
            ResourceParams::Git(params) => {
                let made = Git::resources(params);
                let ghost wrap = as_git();
                let trees = wrap_trees(
                    made,
                    wrap_git,
                    Ghost(wrap),
                );
                assert(all_wrapped(made@, wrap, trees@));
                trees
            },
        }
    }
}

impl Resource {
    /// What has to change for the resource in the state observed: what
    /// its kind says, as a change of a resource.
    pub fn change(&self, state: &ResourceState) -> (change: Option<ResourceChange>)
        requires
            state_fits(*self, *state),
        ensures
            match (*self, *state) {
                (Resource::Apt(resource), ResourceState::Apt(state)) => exists|
                    inner: Option<AptChange>,
                |
                    #[trigger] call_ensures(Apt::change, (&resource, &state), inner) && change
                        == match inner {
                        Some(inner) => Some(ResourceChange::Apt(inner)),
                        None => None,
                    },
                (Resource::File(resource), ResourceState::File(state)) => exists|
                    inner: Option<FileChange>,
                |
                    #[trigger] call_ensures(File::change, (&resource, &state), inner) && change
                        == match inner {
                        Some(inner) => Some(ResourceChange::File(inner)),
                        None => None,
                    },
                (Resource::Pacman(resource), ResourceState::Pacman(state)) => exists|
                    inner: Option<PacmanChange>,
                |
                    #[trigger] call_ensures(Pacman::change, (&resource, &state), inner) && change
                        == match inner {
                        Some(inner) => Some(ResourceChange::Pacman(inner)),
                        None => None,
                    },
                (Resource::Command(resource), ResourceState::Command(state)) => exists|
                    inner: Option<CommandChange>,
                |
                    #[trigger] call_ensures(Command::change, (&resource, &state), inner)
                        && change == match inner {
                        Some(inner) => Some(ResourceChange::Command(inner)),
                        None => None,
                    },
                (Resource::Git(resource), ResourceState::Git(state)) => exists|
                    inner: Option<GitChange>,
                |
                    #[trigger] call_ensures(Git::change, (&resource, &state), inner) && change
                        == match inner {
                        Some(inner) => Some(ResourceChange::Git(inner)),
                        None => None,
                    },
                _ => false,
            },
    {
        match (self, state) {
            (Resource::Apt(resource), ResourceState::Apt(state)) => {
                match Apt::change(resource, state) {
                    Some(inner) => Some(ResourceChange::Apt(inner)),
                    None => None,
                }
            },
            (Resource::File(resource), ResourceState::File(state)) => {
                match File::change(resource, state) {
                    Some(inner) => Some(ResourceChange::File(inner)),
                    None => None,
                }
            },
            (Resource::Pacman(resource), ResourceState::Pacman(state)) => {
                match Pacman::change(resource, state) {
                    Some(inner) => Some(ResourceChange::Pacman(inner)),
                    None => None,
                }
            },
            (Resource::Command(resource), ResourceState::Command(state)) => {
                match Command::change(resource, state) {
                    Some(inner) => Some(ResourceChange::Command(inner)),
                    None => None,
                }
            },
            (Resource::Git(resource), ResourceState::Git(state)) => {
                match Git::change(resource, state) {
                    Some(inner) => Some(ResourceChange::Git(inner)),
                    None => None,
                }
            },
            _ => None,
        }
    }

    /// Whether the state is of the kind of the resource and one that an
    /// observation of the resource can tell.
    pub fn accepts_state(&self, state: &ResourceState) -> (accepted: bool)
        ensures
            accepted == state_fits(*self, *state),
    {
        match (self, state) {
            (Resource::Apt(_), ResourceState::Apt(_)) => true,
            (Resource::File(resource), ResourceState::File(state)) => {
                match resource {
                    FileResource::FileSource { .. } => matches!(
                        state,
                        FileState::FileSourced | FileState::FileNotSourced
                    ),
                    FileResource::FilePresent { .. } | FileResource::FileAbsent { .. } => matches!(
                        state,
                        FileState::FilePresent | FileState::FileAbsent
                    ),
                    FileResource::DirectoryPresent { .. }
                    | FileResource::DirectoryAbsent { .. } => matches!(
                        state,
                        FileState::DirectoryPresent | FileState::DirectoryAbsent
                    ),
                    FileResource::Mode { .. } => matches!(
                        state,
                        FileState::ModeCorrect | FileState::ModeIncorrect
                    ),
                    FileResource::User { .. } => matches!(
                        state,
                        FileState::UserCorrect | FileState::UserIncorrect
                    ),
                    FileResource::Group { .. } => matches!(
                        state,
                        FileState::GroupCorrect | FileState::GroupIncorrect
                    ),
                }
            },
            (Resource::Pacman(_), ResourceState::Pacman(_)) => true,
            (Resource::Command(_), ResourceState::Command(_)) => true,
            (Resource::Git(_), ResourceState::Git(_)) => true,
            _ => false,
        }
    }
}

impl ResourceChange {
    /// The operations of the change: those that its kind makes of it.
    pub fn operations(self) -> (trees: Vec<Tree<Operation, CausalityMeta<String>>>)
        ensures
            match self {
                ResourceChange::Apt(change) => call_ensures(Apt::operations, (change,), trees),
                ResourceChange::File(change) => call_ensures(File::operations, (change,), trees),
                ResourceChange::Pacman(change) => call_ensures(
                    Pacman::operations,
                    (change,),
                    trees,
                ),
                ResourceChange::Command(change) => call_ensures(
                    Command::operations,
                    (change,),
                    trees,
                ),
                ResourceChange::Git(change) => call_ensures(Git::operations, (change,), trees),
            },
    {
        match self {
            ResourceChange::Apt(change) => Apt::operations(change),
            ResourceChange::File(change) => File::operations(change),
            ResourceChange::Pacman(change) => Pacman::operations(change),
            ResourceChange::Command(change) => Command::operations(change),
            ResourceChange::Git(change) => Git::operations(change),
        }
    }
}

} // verus!

verus! {

impl ResourceParams {
    /// What the value shows as text.
    pub open spec fn spec_label(self) -> Seq<char> {
        match self {
            ResourceParams::Apt(inner) => inner.spec_label(),
            ResourceParams::File(inner) => inner.spec_label(),
            ResourceParams::Pacman(inner) => inner.spec_label(),
            ResourceParams::Command(inner) => inner.spec_label(),
            ResourceParams::Git(inner) => inner.spec_label(),
        }
    }

    /// What the value shows as text.
    pub fn label(&self) -> (text: String)
        ensures
            text@ == self.spec_label(),
    {
        let mut text = String::new();
        match self {
            ResourceParams::Apt(inner) => {
                text.append(inner.label().as_str());
            },
            ResourceParams::File(inner) => {
                text.append(inner.label().as_str());
            },
            ResourceParams::Pacman(inner) => {
                text.append(inner.label().as_str());
            },
            ResourceParams::Command(inner) => {
                text.append(inner.label().as_str());
            },
            ResourceParams::Git(inner) => {
                text.append(inner.label().as_str());
            },
        }
        text
    }
}

} // verus!

verus! {

impl Render for ResourceParams {
    /// A line with the label.
    fn render(&self) -> (view: ViewElement)
        ensures
            view@ == ViewShape::Line(self.spec_label()),
    {
        ViewElement::Line(self.label())
    }
}

} // verus!

verus! {

impl Resource {
    /// What the value shows as text.
    pub open spec fn spec_label(self) -> Seq<char> {
        match self {
            Resource::Apt(inner) => inner.spec_label(),
            Resource::File(inner) => inner.spec_label(),
            Resource::Pacman(inner) => inner.spec_label(),
            Resource::Command(inner) => inner.spec_label(),
            Resource::Git(inner) => inner.spec_label(),
        }
    }

    /// What the value shows as text.
    pub fn label(&self) -> (text: String)
        ensures
            text@ == self.spec_label(),
    {
        let mut text = String::new();
        match self {
            Resource::Apt(inner) => {
                text.append(inner.label().as_str());
            },
            Resource::File(inner) => {
                text.append(inner.label().as_str());
            },
            Resource::Pacman(inner) => {
                text.append(inner.label().as_str());
            },
            Resource::Command(inner) => {
                text.append(inner.label().as_str());
            },
            Resource::Git(inner) => {
                text.append(inner.label().as_str());
            },
        }
        text
    }
}

} // verus!

verus! {

impl Render for Resource {
    /// A line with the label.
    fn render(&self) -> (view: ViewElement)
        ensures
            view@ == ViewShape::Line(self.spec_label()),
    {
        ViewElement::Line(self.label())
    }
}

} // verus!

verus! {

impl ResourceState {
    /// What the value shows as text.
    pub open spec fn spec_label(self) -> Seq<char> {
        match self {
            ResourceState::Apt(inner) => inner.spec_label(),
            ResourceState::File(inner) => inner.spec_label(),
            ResourceState::Pacman(inner) => inner.spec_label(),
            ResourceState::Command(inner) => inner.spec_label(),
            ResourceState::Git(inner) => inner.spec_label(),
        }
    }

    /// What the value shows as text.
    pub fn label(&self) -> (text: String)
        ensures
            text@ == self.spec_label(),
    {
        let mut text = String::new();
        match self {
            ResourceState::Apt(inner) => {
                text.append(inner.label().as_str());
            },
            ResourceState::File(inner) => {
                text.append(inner.label().as_str());
            },
            ResourceState::Pacman(inner) => {
                text.append(inner.label().as_str());
            },
            ResourceState::Command(inner) => {
                text.append(inner.label().as_str());
            },
            ResourceState::Git(inner) => {
                text.append(inner.label().as_str());
            },
        }
        text
    }
}

} // verus!

verus! {

impl Render for ResourceState {
    /// A line with the label.
    fn render(&self) -> (view: ViewElement)
        ensures
            view@ == ViewShape::Line(self.spec_label()),
    {
        ViewElement::Line(self.label())
    }
}

} // verus!

verus! {

impl ResourceChange {
    /// What the value shows as text.
    pub open spec fn spec_label(self) -> Seq<char> {
        match self {
            ResourceChange::Apt(inner) => inner.spec_label(),
            ResourceChange::File(inner) => inner.spec_label(),
            ResourceChange::Pacman(inner) => inner.spec_label(),
            ResourceChange::Command(inner) => inner.spec_label(),
            ResourceChange::Git(inner) => inner.spec_label(),
        }
    }

    /// What the value shows as text.
    pub fn label(&self) -> (text: String)
        ensures
            text@ == self.spec_label(),
    {
        let mut text = String::new();
        match self {
            ResourceChange::Apt(inner) => {
                text.append(inner.label().as_str());
            },
            ResourceChange::File(inner) => {
                text.append(inner.label().as_str());
            },
            ResourceChange::Pacman(inner) => {
                text.append(inner.label().as_str());
            },
            ResourceChange::Command(inner) => {
                text.append(inner.label().as_str());
            },
            ResourceChange::Git(inner) => {
                text.append(inner.label().as_str());
            },
        }
        text
    }
}

} // verus!

verus! {

impl Render for ResourceChange {
    /// A line with the label.
    fn render(&self) -> (view: ViewElement)
        ensures
            view@ == ViewShape::Line(self.spec_label()),
    {
        ViewElement::Line(self.label())
    }
}

} // verus!
