//! Packages of the pacman package manager.

use crate::cmd::{Command, CommandShape};
use crate::causality::meta::{
    leaf_after, meta_after, named_leaf, named_meta, plain_leaf, plain_meta, CausalityMeta,
};
use crate::operation::pacman::PacmanOperation;
use crate::operation::Operation;
use crate::text::{blank, chars_of, contains_text, is_blank, occurs_in};
use crate::tree::Tree;
use crate::view::{Render, ViewElement, ViewShape};
use crate::text::{join_texts, joined_with, texts};
use crate::params::schema::{
    literal, optional, required, schema_shape, FieldShape, ParamType, ParamTypes, ParamsStruct,
    SchemaBuilder, TypeShape,
};
use crate::params::value::{Spanned, Value};
use vstd::prelude::*;
use vstd::string::StringExecFns;

verus! {

/// What a plan may ask of pacman: one package or several.
#[derive(Debug, Clone)]
pub enum PacmanParams {
    Package { package: String },
    Packages { packages: Vec<String> },
}

/// One package that shall be installed.
#[derive(Debug, Clone)]
pub struct PacmanResource {
    pub package: String,
}

/// Whether a package is installed.
#[derive(Debug, Clone, Copy, PartialEq, Eq, Structural)]
pub enum PacmanState {
    NotInstalled,
    Installed,
}

/// Why the state of a package is not known: the query printed nothing.
#[derive(Debug, Clone)]
pub enum PacmanStateError {
    /// The query printed nothing.
    ParseStatus { output: String },
    /// The query failed, and not because it does not find the package.
    Command { stderr: String },
}

/// What has to change for a package.
#[derive(Debug, Clone)]
pub enum PacmanChange {
    Install { package: String },
}

/// The packages of pacman, as a kind of resource.
#[derive(Debug, Clone)]
pub struct Pacman;

impl Pacman {
    /// The name of the kind in a plan.
    pub fn id() -> (id: &'static str)
        ensures
            id@ == "pacman"@,
    {
        "pacman"
    }

    /// One resource for every package asked for, in the order given.
    pub fn resources(params: PacmanParams) -> (trees: Vec<Tree<PacmanResource, CausalityMeta<String>>>)
        ensures
            match params {
                PacmanParams::Package { package } => trees.len() == 1 && plain_leaf(trees[0])
                    && trees[0]->node.package@ == package@,
                PacmanParams::Packages { packages } => trees.len() == packages.len() && forall|
                    i: int,
                |
                    0 <= i < packages.len() ==> plain_leaf(#[trigger] trees[i])
                        && trees[i]->node.package@ == packages[i]@,
            },
    {
        let mut trees: Vec<Tree<PacmanResource, CausalityMeta<String>>> = Vec::new();
        match params {
            PacmanParams::Package { package } => {
                trees.push(Tree::Leaf { meta: plain_meta(), node: PacmanResource { package } });
            },
            PacmanParams::Packages { packages } => {
                let ghost list = packages@;
                for package in it: packages
                    invariant
                        it.seq() == list,
                        trees.len() == it.index(),
                        forall|i: int|
                            0 <= i < it.index() ==> plain_leaf(#[trigger] trees[i])
                                && trees[i]->node.package@ == list[i]@,
                {
                    assert(package == list[it.index() as int]);
                    trees.push(Tree::Leaf { meta: plain_meta(), node: PacmanResource { package } });
                }
            },
        }
        trees
    }

    /// The state that the output of a successful query tells: the package
    /// is installed. An empty output is an error and never counts as "not
    /// installed".
    pub fn state_from_output(output: &str) -> (state: Result<PacmanState, PacmanStateError>)
        ensures
            match state {
                Ok(state) => !blank(output@) && state == PacmanState::Installed,
                Err(PacmanStateError::ParseStatus { output: printed }) => blank(output@)
                    && printed@ == output@,
                Err(PacmanStateError::Command { .. }) => false,
            },
    {
        if is_blank(output) {
            Err(PacmanStateError::ParseStatus { output: String::from_str(output) })
        } else {
            Ok(PacmanState::Installed)
        }
    }

    /// The state that a query tells. Where the query succeeded the package
    /// is installed, and an empty output is an error. Where it failed, a
    /// package that the query does not find is not installed, and every
    /// other failure is an error that carries what the query wrote to its
    /// error output.
    pub fn state_of_query(success: bool, output: &str, error_output: &str) -> (state: Result<
        PacmanState,
        PacmanStateError,
    >)
        ensures
            match state {
                Ok(state) => if success {
                    !blank(output@) && state == PacmanState::Installed
                } else {
                    state == PacmanState::NotInstalled && occurs_in(
                        error_output@,
                        "was not found"@,
                    )
                },
                Err(PacmanStateError::ParseStatus { output: printed }) => success && blank(
                    output@,
                ) && printed@ == output@,
                Err(PacmanStateError::Command { stderr }) => !success && !occurs_in(
                    error_output@,
                    "was not found"@,
                ) && stderr@ == error_output@,
            },
    {
        if success {
            Pacman::state_from_output(output)
        } else {
            match Pacman::state_from_failure(error_output) {
                Some(state) => Ok(state),
                None => Err(PacmanStateError::Command { stderr: String::from_str(error_output) }),
            }
        }
    }

    /// The state that the error output of a failed query tells, if it
    /// tells one: a package that the query does not find is not installed.
    pub fn state_from_failure(error_output: &str) -> (state: Option<PacmanState>)
        ensures
            state == if occurs_in(error_output@, "was not found"@) {
                Some(PacmanState::NotInstalled)
            } else {
                None
            },
    {
        let chars = chars_of(error_output);
        let word = chars_of("was not found");
        if contains_text(&chars, &word) {
            Some(PacmanState::NotInstalled)
        } else {
            None
        }
    }

    /// What has to change: nothing for an installed package.
    pub fn change(resource: &PacmanResource, state: &PacmanState) -> (change: Option<PacmanChange>)
        ensures
            match *state {
                PacmanState::Installed => change is None,
                PacmanState::NotInstalled => change matches Some(PacmanChange::Install { package })
                    && package@ == resource.package@,
            },
    {
        match state {
            PacmanState::Installed => None,
            PacmanState::NotInstalled => Some(PacmanChange::Install { package: resource.package.clone() }),
        }
    }

    /// The operations of a change: an upgrade of the system named
    /// `upgrade`, and the install, which comes after it.
    pub fn operations(change: PacmanChange) -> (trees: Vec<Tree<Operation, CausalityMeta<String>>>)
        ensures
            trees.len() == 2,
            named_leaf(trees[0], "upgrade"@),
            trees[0]->node == Operation::Pacman(PacmanOperation::Upgrade),
            leaf_after(trees[1], "upgrade"@),
            trees[1]->node matches Operation::Pacman(PacmanOperation::Install { packages })
                && packages@.len() == 1 && packages[0]@ == change->package@,
    {
        match change {
            PacmanChange::Install { package } => {
                let mut packages: Vec<String> = Vec::new();
                packages.push(package);
                let mut trees: Vec<Tree<Operation, CausalityMeta<String>>> = Vec::new();
                trees.push(
                    Tree::Leaf {
                        meta: named_meta("upgrade"),
                        node: Operation::Pacman(PacmanOperation::Upgrade),
                    },
                );
                trees.push(
                    Tree::Leaf {
                        meta: meta_after("upgrade"),
                        node: Operation::Pacman(PacmanOperation::Install { packages }),
                    },
                );
                trees
            },
        }
    }
}

} // verus!

verus! {

impl Pacman {
    /// The command that asks whether the package is installed.
    pub fn query(resource: &PacmanResource) -> (command: Command)
        ensures
            command@ == (CommandShape {
                program: "pacman"@,
                args: seq!["-Q"@, resource.package@],
                envs: Seq::empty(),
                current_dir: None,
                stdout: false,
                stderr: false,
            }),
    {
        let mut command = Command::new("pacman");
        command.arg("-Q");
        command.arg(resource.package.as_str());
        assert(command@.args =~= seq!["-Q"@, resource.package@]);
        command
    }
}

} // verus!

verus! {

impl PacmanParams {
    /// What the value shows as text.
    pub open spec fn spec_label(self) -> Seq<char> {
        match self {
            PacmanParams::Package { package } => "Pacman(package = "@ + package@ + ")"@,
            PacmanParams::Packages { packages } => "Pacman(packages = ["@ + joined_with(texts(packages@), ", "@, packages.len() as int) + "])"@,
        }
    }

    /// What the value shows as text.
    pub fn label(&self) -> (text: String)
        ensures
            text@ == self.spec_label(),
    {
        let mut text = String::new();
        match self {
            PacmanParams::Package { package } => {
                text.append("Pacman(package = ");
                text.append(package.as_str());
                text.append(")");
            },
            PacmanParams::Packages { packages } => {
                text.append("Pacman(packages = [");
                text.append(join_texts(packages, ", ").as_str());
                text.append("])");
            },
        }
        text
    }
}

} // verus!

verus! {

impl PacmanResource {
    /// What the value shows as text.
    pub open spec fn spec_label(self) -> Seq<char> {
        "Pacman("@ + self.package@ + ")"@
    }

    /// What the value shows as text.
    pub fn label(&self) -> (text: String)
        ensures
            text@ == self.spec_label(),
    {
        let mut text = String::new();
        text.append("Pacman(");
        text.append(self.package.as_str());
        text.append(")");
        text
    }
}

} // verus!

verus! {

impl PacmanState {
    /// What the value shows as text.
    pub open spec fn spec_label(self) -> Seq<char> {
        match self {
            PacmanState::NotInstalled => "Pacman::NotInstalled"@,
            PacmanState::Installed => "Pacman::Installed"@,
        }
    }

    /// What the value shows as text.
    pub fn label(&self) -> (text: String)
        ensures
            text@ == self.spec_label(),
    {
        let mut text = String::new();
        match self {
            PacmanState::NotInstalled => {
                text.append("Pacman::NotInstalled");
            },
            PacmanState::Installed => {
                text.append("Pacman::Installed");
            },
        }
        text
    }
}

} // verus!

verus! {

impl PacmanChange {
    /// What the value shows as text.
    pub open spec fn spec_label(self) -> Seq<char> {
        match self {
            PacmanChange::Install { package } => "Pacman::Installed("@ + package@ + ")"@,
        }
    }

    /// What the value shows as text.
    pub fn label(&self) -> (text: String)
        ensures
            text@ == self.spec_label(),
    {
        let mut text = String::new();
        match self {
            PacmanChange::Install { package } => {
                text.append("Pacman::Installed(");
                text.append(package.as_str());
                text.append(")");
            },
        }
        text
    }
}

} // verus!

verus! {

impl Render for PacmanParams {
    /// A line with the label.
    fn render(&self) -> (view: ViewElement)
        ensures
            view@ == ViewShape::Line(self.spec_label()),
    {
        ViewElement::Line(self.label())
    }
}

} // verus!

verus! {

impl Render for PacmanResource {
    /// A line with the label.
    fn render(&self) -> (view: ViewElement)
        ensures
            view@ == ViewShape::Line(self.spec_label()),
    {
        ViewElement::Line(self.label())
    }
}

} // verus!

verus! {

impl Render for PacmanState {
    /// A line with the label.
    fn render(&self) -> (view: ViewElement)
        ensures
            view@ == ViewShape::Line(self.spec_label()),
    {
        ViewElement::Line(self.label())
    }
}

} // verus!

verus! {

impl Render for PacmanChange {
    /// A line with the label.
    fn render(&self) -> (view: ViewElement)
        ensures
            view@ == ViewShape::Line(self.spec_label()),
    {
        ViewElement::Line(self.label())
    }
}

} // verus!

verus! {

/// The fields of the first case of the schema.
fn pacman_package_case() -> (fields: ParamsStruct)
    ensures
        schema_shape(fields) == pacman_package_fields(),
{
    let mut builder = SchemaBuilder::new();
    proof {
        reveal_with_fuel(crate::params::schema::type_shape, 3);
        reveal_strlit("package");
        assert("package"@.len() == 7);
        assert("package"@[0] == 'p' && "package"@[1] == 'a');
    }
    builder.field("package", ParamType::String, true);
    assert(schema_shape(builder.fields) =~= seq![required("package"@, TypeShape::String)]);
    builder.fields
}

/// The fields of the first case of the schema.
pub open spec fn pacman_package_fields() -> Seq<FieldShape> {
    seq![
        required("package"@, TypeShape::String),
    ]
}

/// The fields of the second case of the schema.
fn pacman_packages_case() -> (fields: ParamsStruct)
    ensures
        schema_shape(fields) == pacman_packages_fields(),
{
    let mut builder = SchemaBuilder::new();
    proof {
        reveal_with_fuel(crate::params::schema::type_shape, 3);
        reveal_strlit("packages");
        assert("packages"@.len() == 8);
        assert("packages"@[0] == 'p' && "packages"@[1] == 'a');
    }
    builder.field("packages", ParamType::List { item: Box::new(Spanned { inner: ParamType::String, span: crate::params::schema::nowhere() }) }, true);
    assert(schema_shape(builder.fields) =~= seq![required("packages"@, TypeShape::List(Box::new(TypeShape::String)))]);
    builder.fields
}

/// The fields of the second case of the schema.
pub open spec fn pacman_packages_fields() -> Seq<FieldShape> {
    seq![
        required("packages"@, TypeShape::List(Box::new(TypeShape::String))),
    ]
}

impl Pacman {
    /// What a plan may hand to pacman: one package, or a list of packages.
    pub fn param_types() -> (types: ParamTypes)
        ensures
            types matches ParamTypes::Union(cases) && cases.len() == 2 && schema_shape(
                cases[0],
            ) == pacman_package_fields() && schema_shape(
                cases[1],
            ) == pacman_packages_fields(),
    {
        let mut cases: Vec<ParamsStruct> = Vec::new();
        cases.push(pacman_package_case());
        cases.push(pacman_packages_case());
        ParamTypes::Union(cases)
    }
}

} // verus!
