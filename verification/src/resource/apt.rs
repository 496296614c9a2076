//! Packages of the apt package manager.

use crate::cmd::{Command, CommandShape};
use crate::causality::meta::{
    leaf_after, meta_after, named_leaf, named_meta, plain_leaf, plain_meta, CausalityMeta,
};
use crate::operation::apt::AptOperation;
use crate::operation::Operation;
use crate::text::{
    chars_of, contains_text, field_span, find_field, occurs_in, spells, strip_mark, unmarked,
};
use crate::tree::Tree;
use crate::view::{Render, ViewElement, ViewShape};
use crate::text::{join_texts, joined_with, texts};
use crate::params::schema::{
    literal, optional, required, schema_shape, FieldShape, ParamType, ParamTypes, ParamsStruct,
    SchemaBuilder, TypeShape,
};
use crate::params::value::{Spanned, Value};
use vstd::prelude::*;
use vstd::string::StringExecFns;

verus! {

/// What a plan may ask of apt: one package or several.
#[derive(Debug, Clone)]
pub enum AptParams {
    Package { package: String },
    Packages { packages: Vec<String> },
}

/// One package that shall be installed.
#[derive(Debug, Clone)]
pub struct AptResource {
    pub package: String,
}

/// Whether a package is installed.
#[derive(Debug, Clone, Copy, PartialEq, Eq, Structural)]
pub enum AptState {
    NotInstalled,
    Installed,
}

/// Why the state of a package is not known: the status that the query
/// printed is not understood.
#[derive(Debug, Clone)]
pub enum AptStateError {
    /// The status that the query printed is not understood.
    ParseStatus { status: String },
    /// The query failed, and not because it does not know the package.
    Command { stderr: String },
}

/// What has to change for a package.
#[derive(Debug, Clone)]
pub enum AptChange {
    Install { package: String },
}

/// The packages of apt, as a kind of resource.
#[derive(Debug, Clone)]
pub struct Apt;

/// The state that a status word stands for, if it is one.
pub open spec fn word_state(word: Seq<char>) -> Option<AptState> {
    if word == "not-installed"@ || word == "unpacked"@ || word == "half-installed"@ || word
        == "config-files"@ {
        Some(AptState::NotInstalled)
    } else if word == "installed"@ {
        Some(AptState::Installed)
    } else {
        None
    }
}

/// The state that the output of the status query tells: the output
/// without apostrophes around it is cut at every blank, and the third word
/// is the status.
pub open spec fn told_state(output: Seq<char>) -> Option<AptState> {
    let status = unmarked(output, '\'');
    match field_span(status, ' ', 0, 2) {
        Some((from, to)) => word_state(status.subrange(from, to)),
        None => None,
    }
}

impl Apt {
    /// The name of the kind in a plan.
    pub fn id() -> (id: &'static str)
        ensures
            id@ == "apt"@,
    {
        "apt"
    }

    /// One resource for every package asked for, in the order given.
    pub fn resources(params: AptParams) -> (trees: Vec<Tree<AptResource, CausalityMeta<String>>>)
        ensures
            match params {
                AptParams::Package { package } => trees.len() == 1 && plain_leaf(trees[0])
                    && trees[0]->node.package@ == package@,
                AptParams::Packages { packages } => trees.len() == packages.len() && forall|
                    i: int,
                |
                    0 <= i < packages.len() ==> plain_leaf(#[trigger] trees[i])
                        && trees[i]->node.package@ == packages[i]@,
            },
    {
        let mut trees: Vec<Tree<AptResource, CausalityMeta<String>>> = Vec::new();
        match params {
            AptParams::Package { package } => {
                trees.push(Tree::Leaf { meta: plain_meta(), node: AptResource { package } });
            },
            AptParams::Packages { packages } => {
                let ghost list = packages@;
                for package in it: packages
                    invariant
                        it.seq() == list,
                        trees.len() == it.index(),
                        forall|i: int|
                            0 <= i < it.index() ==> plain_leaf(#[trigger] trees[i])
                                && trees[i]->node.package@ == list[i]@,
                {
                    assert(package == list[it.index() as int]);
                    trees.push(Tree::Leaf { meta: plain_meta(), node: AptResource { package } });
                }
            },
        }
        trees
    }

    /// The state that the output of a successful status query tells. An
    /// output that is not understood is an error and never counts as "not
    /// installed".
    pub fn state_from_output(output: &str) -> (state: Result<AptState, AptStateError>)
        ensures
            match state {
                Ok(state) => told_state(output@) == Some(state),
                Err(AptStateError::ParseStatus { status }) => told_state(output@) is None
                    && status@ == output@,
                Err(AptStateError::Command { .. }) => false,
            },
    {
        let chars = chars_of(output);
        let status = strip_mark(&chars, '\'');
        let found = match find_field(&status, ' ', 0, 2) {
            Some((from, to)) => {
                if spells(&status, from, to, "not-installed") || spells(&status, from, to, "unpacked")
                    || spells(&status, from, to, "half-installed") || spells(
                    &status,
                    from,
                    to,
                    "config-files",
                ) {
                    Some(AptState::NotInstalled)
                } else if spells(&status, from, to, "installed") {
                    Some(AptState::Installed)
                } else {
                    None
                }
            },
            None => None,
        };
        match found {
            Some(state) => Ok(state),
            None => Err(AptStateError::ParseStatus { status: String::from_str(output) }),
        }
    }

    /// The state that a status query tells. Where the query succeeded its
    /// output tells the state, and an output that is not understood is an
    /// error. Where it failed, a package that the query does not know is
    /// not installed, and every other failure is an error that carries
    /// what the query wrote to its error output.
    pub fn state_of_query(success: bool, output: &str, error_output: &str) -> (state: Result<
        AptState,
        AptStateError,
    >)
        ensures
            match state {
                Ok(state) => if success {
                    told_state(output@) == Some(state)
                } else {
                    state == AptState::NotInstalled && occurs_in(
                        error_output@,
                        "no packages found matching"@,
                    )
                },
                Err(AptStateError::ParseStatus { status }) => success && told_state(output@) is None
                    && status@ == output@,
                Err(AptStateError::Command { stderr }) => !success && !occurs_in(
                    error_output@,
                    "no packages found matching"@,
                ) && stderr@ == error_output@,
            },
    {
        if success {
            Apt::state_from_output(output)
        } else {
            match Apt::state_from_failure(error_output) {
                Some(state) => Ok(state),
                None => Err(AptStateError::Command { stderr: String::from_str(error_output) }),
            }
        }
    }

    /// The state that the error output of a failed status query tells, if
    /// it tells one: a package that the query does not know is not installed.
    pub fn state_from_failure(error_output: &str) -> (state: Option<AptState>)
        ensures
            state == if occurs_in(error_output@, "no packages found matching"@) {
                Some(AptState::NotInstalled)
            } else {
                None
            },
    {
        let chars = chars_of(error_output);
        let word = chars_of("no packages found matching");
        if contains_text(&chars, &word) {
            Some(AptState::NotInstalled)
        } else {
            None
        }
    }

    /// What has to change: nothing for an installed package.
    pub fn change(resource: &AptResource, state: &AptState) -> (change: Option<AptChange>)
        ensures
            match *state {
                AptState::Installed => change is None,
                AptState::NotInstalled => change matches Some(AptChange::Install { package })
                    && package@ == resource.package@,
            },
    {
        match state {
            AptState::Installed => None,
            AptState::NotInstalled => Some(AptChange::Install { package: resource.package.clone() }),
        }
    }

    /// The operations of a change: a refresh of the package index named
    /// `update`, and the install, which comes after it.
    pub fn operations(change: AptChange) -> (trees: Vec<Tree<Operation, CausalityMeta<String>>>)
        ensures
            trees.len() == 2,
            named_leaf(trees[0], "update"@),
            trees[0]->node == Operation::Apt(AptOperation::Update),
            leaf_after(trees[1], "update"@),
            trees[1]->node matches Operation::Apt(AptOperation::Install { packages })
                && packages@.len() == 1 && packages[0]@ == change->package@,
    {
        match change {
            AptChange::Install { package } => {
                let mut packages: Vec<String> = Vec::new();
                packages.push(package);
                let mut trees: Vec<Tree<Operation, CausalityMeta<String>>> = Vec::new();
                trees.push(
                    Tree::Leaf {
                        meta: named_meta("update"),
                        node: Operation::Apt(AptOperation::Update),
                    },
                );
                trees.push(
                    Tree::Leaf {
                        meta: meta_after("update"),
                        node: Operation::Apt(AptOperation::Install { packages }),
                    },
                );
                trees
            },
        }
    }
}

} // verus!

verus! {

impl Apt {
    /// The command that asks for the status of the package.
    pub fn query(resource: &AptResource) -> (command: Command)
        ensures
            command@ == (CommandShape {
                program: "dpkg-query"@,
                args: seq!["-W"@, "-f='${Status}'"@, resource.package@],
                envs: Seq::empty(),
                current_dir: None,
                stdout: false,
                stderr: false,
            }),
    {
        let mut command = Command::new("dpkg-query");
        command.arg("-W");
        command.arg("-f='${Status}'");
        command.arg(resource.package.as_str());
        assert(command@.args =~= seq!["-W"@, "-f='${Status}'"@, resource.package@]);
        command
    }
}

} // verus!

verus! {

impl AptParams {
    /// What the value shows as text.
    pub open spec fn spec_label(self) -> Seq<char> {
        match self {
            AptParams::Package { package } => "Apt(package = "@ + package@ + ")"@,
            AptParams::Packages { packages } => "Apt(packages = ["@ + joined_with(texts(packages@), ", "@, packages.len() as int) + "])"@,
        }
    }

    /// What the value shows as text.
    pub fn label(&self) -> (text: String)
        ensures
            text@ == self.spec_label(),
    {
        let mut text = String::new();
        match self {
            AptParams::Package { package } => {
                text.append("Apt(package = ");
                text.append(package.as_str());
                text.append(")");
            },
            AptParams::Packages { packages } => {
                text.append("Apt(packages = [");
                text.append(join_texts(packages, ", ").as_str());
                text.append("])");
            },
        }
        text
    }
}

} // verus!

verus! {

impl AptResource {
    /// What the value shows as text.
    pub open spec fn spec_label(self) -> Seq<char> {
        "Apt("@ + self.package@ + ")"@
    }

    /// What the value shows as text.
    pub fn label(&self) -> (text: String)
        ensures
            text@ == self.spec_label(),
    {
        let mut text = String::new();
        text.append("Apt(");
        text.append(self.package.as_str());
        text.append(")");
        text
    }
}

} // verus!

verus! {

impl AptState {
    /// What the value shows as text.
    pub open spec fn spec_label(self) -> Seq<char> {
        match self {
            AptState::NotInstalled => "Apt::NotInstalled"@,
            AptState::Installed => "Apt::Installed"@,
        }
    }

    /// What the value shows as text.
    pub fn label(&self) -> (text: String)
        ensures
            text@ == self.spec_label(),
    {
        let mut text = String::new();
        match self {
            AptState::NotInstalled => {
                text.append("Apt::NotInstalled");
            },
            AptState::Installed => {
                text.append("Apt::Installed");
            },
        }
        text
    }
}

} // verus!

verus! {

impl AptChange {
    /// What the value shows as text.
    pub open spec fn spec_label(self) -> Seq<char> {
        match self {
            AptChange::Install { package } => "Apt::Installed("@ + package@ + ")"@,
        }
    }

    /// What the value shows as text.
    pub fn label(&self) -> (text: String)
        ensures
            text@ == self.spec_label(),
    {
        let mut text = String::new();
        match self {
            AptChange::Install { package } => {
                text.append("Apt::Installed(");
                text.append(package.as_str());
                text.append(")");
            },
        }
        text
    }
}

} // verus!

verus! {

impl Render for AptParams {
    /// A line with the label.
    fn render(&self) -> (view: ViewElement)
        ensures
            view@ == ViewShape::Line(self.spec_label()),
    {
        ViewElement::Line(self.label())
    }
}

} // verus!

verus! {

impl Render for AptResource {
    /// A line with the label.
    fn render(&self) -> (view: ViewElement)
        ensures
            view@ == ViewShape::Line(self.spec_label()),
    {
        ViewElement::Line(self.label())
    }
}

} // verus!

verus! {

impl Render for AptState {
    /// A line with the label.
    fn render(&self) -> (view: ViewElement)
        ensures
            view@ == ViewShape::Line(self.spec_label()),
    {
        ViewElement::Line(self.label())
    }
}

} // verus!

verus! {

impl Render for AptChange {
    /// A line with the label.
    fn render(&self) -> (view: ViewElement)
        ensures
            view@ == ViewShape::Line(self.spec_label()),
    {
        ViewElement::Line(self.label())
    }
}

} // verus!

verus! {

/// The fields of the first case of the schema.
fn apt_package_case() -> (fields: ParamsStruct)
    ensures
        schema_shape(fields) == apt_package_fields(),
{
    let mut builder = SchemaBuilder::new();
    proof {
        reveal_with_fuel(crate::params::schema::type_shape, 3);
        reveal_strlit("package");
        assert("package"@.len() == 7);
        assert("package"@[0] == 'p' && "package"@[1] == 'a');
    }
    builder.field("package", ParamType::String, true);
    assert(schema_shape(builder.fields) =~= seq![required("package"@, TypeShape::String)]);
    builder.fields
}

/// The fields of the first case of the schema.
pub open spec fn apt_package_fields() -> Seq<FieldShape> {
    seq![
        required("package"@, TypeShape::String),
    ]
}

/// The fields of the second case of the schema.
fn apt_packages_case() -> (fields: ParamsStruct)
    ensures
        schema_shape(fields) == apt_packages_fields(),
{
    let mut builder = SchemaBuilder::new();
    proof {
        reveal_with_fuel(crate::params::schema::type_shape, 3);
        reveal_strlit("packages");
        assert("packages"@.len() == 8);
        assert("packages"@[0] == 'p' && "packages"@[1] == 'a');
    }
    builder.field("packages", ParamType::List { item: Box::new(Spanned { inner: ParamType::String, span: crate::params::schema::nowhere() }) }, true);
    assert(schema_shape(builder.fields) =~= seq![required("packages"@, TypeShape::List(Box::new(TypeShape::String)))]);
    builder.fields
}

/// The fields of the second case of the schema.
pub open spec fn apt_packages_fields() -> Seq<FieldShape> {
    seq![
        required("packages"@, TypeShape::List(Box::new(TypeShape::String))),
    ]
}

impl Apt {
    /// What a plan may hand to apt: one package, or a list of packages.
    pub fn param_types() -> (types: ParamTypes)
        ensures
            types matches ParamTypes::Union(cases) && cases.len() == 2 && schema_shape(
                cases[0],
            ) == apt_package_fields() && schema_shape(
                cases[1],
            ) == apt_packages_fields(),
    {
        let mut cases: Vec<ParamsStruct> = Vec::new();
        cases.push(apt_package_case());
        cases.push(apt_packages_case());
        ParamTypes::Union(cases)
    }
}

} // verus!
