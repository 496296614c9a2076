//! Software that a plan installs and removes with commands of its own.

use crate::causality::meta::{plain_leaf, plain_meta, CausalityMeta};
use crate::operation::command::CommandOperation;
use crate::operation::Operation;
use crate::text::{blank, is_blank};
use crate::tree::Tree;
use crate::view::{Render, ViewElement, ViewShape};
use crate::text::{debug_option, option_text, show_option};
use crate::params::schema::{
    literal, optional, required, schema_shape, FieldShape, ParamType, ParamTypes, ParamsStruct,
    SchemaBuilder, TypeShape,
};
use crate::params::value::{Spanned, Value};
use vstd::prelude::*;
use vstd::string::StringExecFns;

verus! {

/// What a plan may ask: that something is installed, or that it is not.
#[derive(Debug, Clone)]
pub enum CommandParams {
    Install { is_installed: Option<String>, install: String, uninstall: Option<String> },
    Uninstall { is_installed: Option<String>, install: Option<String>, uninstall: String },
}

/// Whether the software shall be installed or not.
#[derive(Debug, Clone, Copy, PartialEq, Eq, Structural)]
pub enum CommandStatus {
    Install,
    Uninstall,
}

/// The wanted status with the commands that test, install and remove.
#[derive(Debug, Clone)]
pub struct CommandResource {
    pub status: CommandStatus,
    pub is_installed: Option<String>,
    pub install: Option<String>,
    pub uninstall: Option<String>,
}

/// Whether the software is installed, as far as the test tells.
#[derive(Debug, Clone, Copy, PartialEq, Eq, Structural)]
pub enum CommandState {
    Installed,
    NotInstalled,
    Unknown,
}

/// The command that has to run.
#[derive(Debug, Clone)]
pub enum CommandChange {
    Install { command: String },
    Uninstall { command: String },
}

/// Software handled by commands, as a kind of resource.
#[derive(Debug, Clone)]
pub struct Command;

impl Command {
    /// The name of the kind in a plan.
    pub fn id() -> (id: &'static str)
        ensures
            id@ == "command"@,
    {
        "command"
    }

    /// The one resource that the parameters describe.
    pub fn resources(params: CommandParams) -> (trees: Vec<
        Tree<CommandResource, CausalityMeta<String>>,
    >)
        ensures
            trees.len() == 1,
            plain_leaf(trees[0]),
            match params {
                CommandParams::Install { is_installed, install, uninstall } => {
                    &&& trees[0]->node.status == CommandStatus::Install
                    &&& trees[0]->node.is_installed == is_installed
                    &&& trees[0]->node.install == Some(install)
                    &&& trees[0]->node.uninstall == uninstall
                },
                CommandParams::Uninstall { is_installed, install, uninstall } => {
                    &&& trees[0]->node.status == CommandStatus::Uninstall
                    &&& trees[0]->node.is_installed == is_installed
                    &&& trees[0]->node.install == install
                    &&& trees[0]->node.uninstall == Some(uninstall)
                },
            },
    {
        let resource = match params {
            CommandParams::Install { is_installed, install, uninstall } => CommandResource {
                status: CommandStatus::Install,
                is_installed,
                install: Some(install),
                uninstall,
            },
            CommandParams::Uninstall { is_installed, install, uninstall } => CommandResource {
                status: CommandStatus::Uninstall,
                is_installed,
                install,
                uninstall: Some(uninstall),
            },
        };
        let mut trees: Vec<Tree<CommandResource, CausalityMeta<String>>> = Vec::new();
        trees.push(Tree::Leaf { meta: plain_meta(), node: resource });
        trees
    }

    /// The command that tests whether the software is installed. Without
    /// one, or with a blank one, the state is unknown and nothing is run.
    pub fn probe(resource: &CommandResource) -> (test: Option<&String>)
        ensures
            match test {
                Some(test) => resource.is_installed == Some(*test) && !blank(test@),
                None => resource.is_installed matches Some(test) ==> blank(test@),
            },
    {
        match &resource.is_installed {
            Some(test) => {
                if is_blank(test.as_str()) {
                    None
                } else {
                    Some(test)
                }
            },
            None => None,
        }
    }

    /// The state that running the test tells: unknown where nothing was
    /// run, installed where the test succeeded, and not installed where it
    /// failed.
    pub fn state_of_probe(ran: Option<bool>) -> (state: CommandState)
        ensures
            state == match ran {
                None => CommandState::Unknown,
                Some(true) => CommandState::Installed,
                Some(false) => CommandState::NotInstalled,
            },
    {
        match ran {
            None => CommandState::Unknown,
            Some(success) => Command::state_from_exit(success),
        }
    }

    /// The state of a resource, from how its test ended. A resource
    /// without a test, or with a blank one, has nothing to run and its
    /// state is unknown, whatever is wanted of it; else the state is what
    /// running the test tells.
    pub fn state(resource: &CommandResource, ran: Option<bool>) -> (state: CommandState)
        ensures
            state == if resource.is_installed matches Some(test) && !blank(test@) {
                match ran {
                    None => CommandState::Unknown,
                    Some(true) => CommandState::Installed,
                    Some(false) => CommandState::NotInstalled,
                }
            } else {
                CommandState::Unknown
            },
    {
        match Command::probe(resource) {
            Some(_) => Command::state_of_probe(ran),
            None => CommandState::Unknown,
        }
    }

    /// The state that the outcome of the test tells.
    pub fn state_from_exit(success: bool) -> (state: CommandState)
        ensures
            state == if success {
                CommandState::Installed
            } else {
                CommandState::NotInstalled
            },
    {
        if success {
            CommandState::Installed
        } else {
            CommandState::NotInstalled
        }
    }

    /// What has to change: nothing where the state is as wanted or
    /// unknown, or where there is no command for the change.
    pub fn change(resource: &CommandResource, state: &CommandState) -> (change: Option<
        CommandChange,
    >)
        ensures
            match (resource.status, *state) {
                (CommandStatus::Install, CommandState::NotInstalled) => match resource.install {
                    Some(install) => change matches Some(CommandChange::Install { command })
                        && command@ == install@,
                    None => change is None,
                },
                (CommandStatus::Uninstall, CommandState::Installed) => match resource.uninstall {
                    Some(uninstall) => change matches Some(CommandChange::Uninstall { command })
                        && command@ == uninstall@,
                    None => change is None,
                },
                _ => change is None,
            },
    {
        match (resource.status, state) {
            (CommandStatus::Install, CommandState::NotInstalled) => match &resource.install {
                Some(install) => Some(CommandChange::Install { command: install.clone() }),
                None => None,
            },
            (CommandStatus::Uninstall, CommandState::Installed) => match &resource.uninstall {
                Some(uninstall) => Some(CommandChange::Uninstall { command: uninstall.clone() }),
                None => None,
            },
            _ => None,
        }
    }

    /// The one operation of a change: to run its command.
    pub fn operations(change: CommandChange) -> (trees: Vec<Tree<Operation, CausalityMeta<String>>>)
        ensures
            trees.len() == 1,
            plain_leaf(trees[0]),
            trees[0]->node matches Operation::Command(operation) && operation.command == match change {
                CommandChange::Install { command } => command,
                CommandChange::Uninstall { command } => command,
            },
    {
        let command = match change {
            CommandChange::Install { command } => command,
            CommandChange::Uninstall { command } => command,
        };
        let mut trees: Vec<Tree<Operation, CausalityMeta<String>>> = Vec::new();
        trees.push(
            Tree::Leaf {
                meta: plain_meta(),
                node: Operation::Command(CommandOperation { command }),
            },
        );
        trees
    }
}

} // verus!

verus! {

impl CommandParams {
    /// What the value shows as text.
    pub open spec fn spec_label(self) -> Seq<char> {
        match self {
            CommandParams::Install { is_installed, install, uninstall } => "Command(status = Install, is_installed = "@ + debug_option(option_text(is_installed)) + ", install = "@ + install@ + ", uninstall = "@ + debug_option(option_text(uninstall)) + ")"@,
            CommandParams::Uninstall { is_installed, install, uninstall } => "Command(status = Uninstall, is_installed = "@ + debug_option(option_text(is_installed)) + ", install = "@ + debug_option(option_text(install)) + ", uninstall = "@ + uninstall@ + ")"@,
        }
    }

    /// What the value shows as text.
    pub fn label(&self) -> (text: String)
        ensures
            text@ == self.spec_label(),
    {
        let mut text = String::new();
        match self {
            CommandParams::Install { is_installed, install, uninstall } => {
                text.append("Command(status = Install, is_installed = ");
                text.append(show_option(is_installed).as_str());
                text.append(", install = ");
                text.append(install.as_str());
                text.append(", uninstall = ");
                text.append(show_option(uninstall).as_str());
                text.append(")");
            },
            CommandParams::Uninstall { is_installed, install, uninstall } => {
                text.append("Command(status = Uninstall, is_installed = ");
                text.append(show_option(is_installed).as_str());
                text.append(", install = ");
                text.append(show_option(install).as_str());
                text.append(", uninstall = ");
                text.append(uninstall.as_str());
                text.append(")");
            },
        }
        text
    }
}

} // verus!

verus! {

impl CommandStatus {
    /// What the value shows as text.
    pub open spec fn spec_label(self) -> Seq<char> {
        match self {
            CommandStatus::Install => "Install"@,
            CommandStatus::Uninstall => "Uninstall"@,
        }
    }

    /// What the value shows as text.
    pub fn label(&self) -> (text: String)
        ensures
            text@ == self.spec_label(),
    {
        let mut text = String::new();
        match self {
            CommandStatus::Install => {
                text.append("Install");
            },
            CommandStatus::Uninstall => {
                text.append("Uninstall");
            },
        }
        text
    }
}

} // verus!

verus! {

impl CommandResource {
    /// What the value shows as text.
    pub open spec fn spec_label(self) -> Seq<char> {
        "Command(status = "@ + self.status.spec_label() + ", is_installed = "@ + debug_option(option_text(self.is_installed)) + ", install = "@ + debug_option(option_text(self.install)) + ", uninstall = "@ + debug_option(option_text(self.uninstall)) + ")"@
    }

    /// What the value shows as text.
    pub fn label(&self) -> (text: String)
        ensures
            text@ == self.spec_label(),
    {
        let mut text = String::new();
        text.append("Command(status = ");
        text.append(self.status.label().as_str());
        text.append(", is_installed = ");
        text.append(show_option(&self.is_installed).as_str());
        text.append(", install = ");
        text.append(show_option(&self.install).as_str());
        text.append(", uninstall = ");
        text.append(show_option(&self.uninstall).as_str());
        text.append(")");
        text
    }
}

} // verus!

verus! {

impl CommandState {
    /// What the value shows as text.
    pub open spec fn spec_label(self) -> Seq<char> {
        match self {
            CommandState::NotInstalled => "Command::NotInstalled"@,
            CommandState::Installed => "Command::Installed"@,
            CommandState::Unknown => "Command::Unknown"@,
        }
    }

    /// What the value shows as text.
    pub fn label(&self) -> (text: String)
        ensures
            text@ == self.spec_label(),
    {
        let mut text = String::new();
        match self {
            CommandState::NotInstalled => {
                text.append("Command::NotInstalled");
            },
            CommandState::Installed => {
                text.append("Command::Installed");
            },
            CommandState::Unknown => {
                text.append("Command::Unknown");
            },
        }
        text
    }
}

} // verus!

verus! {

impl CommandChange {
    /// What the value shows as text.
    pub open spec fn spec_label(self) -> Seq<char> {
        match self {
            CommandChange::Install { command } => "Command::Install("@ + command@ + ")"@,
            CommandChange::Uninstall { command } => "Command::Uninstall("@ + command@ + ")"@,
        }
    }

    /// What the value shows as text.
    pub fn label(&self) -> (text: String)
        ensures
            text@ == self.spec_label(),
    {
        let mut text = String::new();
        match self {
            CommandChange::Install { command } => {
                text.append("Command::Install(");
                text.append(command.as_str());
                text.append(")");
            },
            CommandChange::Uninstall { command } => {
                text.append("Command::Uninstall(");
                text.append(command.as_str());
                text.append(")");
            },
        }
        text
    }
}

} // verus!

verus! {

impl Render for CommandParams {
    /// A line with the label.
    fn render(&self) -> (view: ViewElement)
        ensures
            view@ == ViewShape::Line(self.spec_label()),
    {
        ViewElement::Line(self.label())
    }
}

} // verus!

verus! {

impl Render for CommandResource {
    /// A line with the label.
    fn render(&self) -> (view: ViewElement)
        ensures
            view@ == ViewShape::Line(self.spec_label()),
    {
        ViewElement::Line(self.label())
    }
}

} // verus!

verus! {

impl Render for CommandState {
    /// A line with the label.
    fn render(&self) -> (view: ViewElement)
        ensures
            view@ == ViewShape::Line(self.spec_label()),
    {
        ViewElement::Line(self.label())
    }
}

} // verus!

verus! {

impl Render for CommandChange {
    /// A line with the label.
    fn render(&self) -> (view: ViewElement)
        ensures
            view@ == ViewShape::Line(self.spec_label()),
    {
        ViewElement::Line(self.label())
    }
}

} // verus!

verus! {

/// The fields of the first case of the schema.
fn command_install_case() -> (fields: ParamsStruct)
    ensures
        schema_shape(fields) == command_install_fields(),
{
    let mut builder = SchemaBuilder::new();
    proof {
        reveal_with_fuel(crate::params::schema::type_shape, 3);
        reveal_strlit("status");
        assert("status"@.len() == 6);
        assert("status"@[0] == 's' && "status"@[1] == 't');
        reveal_strlit("is_installed");
        assert("is_installed"@.len() == 12);
        assert("is_installed"@[0] == 'i' && "is_installed"@[1] == 's');
        reveal_strlit("install");
        assert("install"@.len() == 7);
        assert("install"@[0] == 'i' && "install"@[1] == 'n');
        reveal_strlit("uninstall");
        assert("uninstall"@.len() == 9);
        assert("uninstall"@[0] == 'u' && "uninstall"@[1] == 'n');
    }
    builder.field("status", ParamType::String, true);
    assert(schema_shape(builder.fields) =~= seq![required("status"@, TypeShape::String)]);
    builder.field("is_installed", ParamType::String, false);
    assert(schema_shape(builder.fields) =~= seq![required("status"@, TypeShape::String), optional("is_installed"@, TypeShape::String)]);
    builder.field("install", ParamType::String, true);
    assert(schema_shape(builder.fields) =~= seq![required("status"@, TypeShape::String), optional("is_installed"@, TypeShape::String), required("install"@, TypeShape::String)]);
    builder.field("uninstall", ParamType::String, false);
    assert(schema_shape(builder.fields) =~= seq![required("status"@, TypeShape::String), optional("is_installed"@, TypeShape::String), required("install"@, TypeShape::String), optional("uninstall"@, TypeShape::String)]);
    builder.fields
}

/// The fields of the first case of the schema.
pub open spec fn command_install_fields() -> Seq<FieldShape> {
    seq![
        required("status"@, TypeShape::String),
        optional("is_installed"@, TypeShape::String),
        required("install"@, TypeShape::String),
        optional("uninstall"@, TypeShape::String),
    ]
}

/// The fields of the second case of the schema.
fn command_uninstall_case() -> (fields: ParamsStruct)
    ensures
        schema_shape(fields) == command_uninstall_fields(),
{
    let mut builder = SchemaBuilder::new();
    proof {
        reveal_with_fuel(crate::params::schema::type_shape, 3);
        reveal_strlit("status");
        assert("status"@.len() == 6);
        assert("status"@[0] == 's' && "status"@[1] == 't');
        reveal_strlit("is_installed");
        assert("is_installed"@.len() == 12);
        assert("is_installed"@[0] == 'i' && "is_installed"@[1] == 's');
        reveal_strlit("uninstall");
        assert("uninstall"@.len() == 9);
        assert("uninstall"@[0] == 'u' && "uninstall"@[1] == 'n');
        reveal_strlit("install");
        assert("install"@.len() == 7);
        assert("install"@[0] == 'i' && "install"@[1] == 'n');
    }
    builder.field("status", ParamType::String, true);
    assert(schema_shape(builder.fields) =~= seq![required("status"@, TypeShape::String)]);
    builder.field("is_installed", ParamType::String, false);
    assert(schema_shape(builder.fields) =~= seq![required("status"@, TypeShape::String), optional("is_installed"@, TypeShape::String)]);
    builder.field("uninstall", ParamType::String, true);
    assert(schema_shape(builder.fields) =~= seq![required("status"@, TypeShape::String), optional("is_installed"@, TypeShape::String), required("uninstall"@, TypeShape::String)]);
    builder.field("install", ParamType::String, false);
    assert(schema_shape(builder.fields) =~= seq![required("status"@, TypeShape::String), optional("is_installed"@, TypeShape::String), required("uninstall"@, TypeShape::String), optional("install"@, TypeShape::String)]);
    builder.fields
}

/// The fields of the second case of the schema.
pub open spec fn command_uninstall_fields() -> Seq<FieldShape> {
    seq![
        required("status"@, TypeShape::String),
        optional("is_installed"@, TypeShape::String),
        required("uninstall"@, TypeShape::String),
        optional("install"@, TypeShape::String),
    ]
}

impl Command {
    /// What a plan may hand over: the status wanted with the commands that test,
    /// install and remove.
    pub fn param_types() -> (types: ParamTypes)
        ensures
            types matches ParamTypes::Union(cases) && cases.len() == 2 && schema_shape(
                cases[0],
            ) == command_install_fields() && schema_shape(
                cases[1],
            ) == command_uninstall_fields(),
    {
        let mut cases: Vec<ParamsStruct> = Vec::new();
        cases.push(command_install_case());
        cases.push(command_uninstall_case());
        ParamTypes::Union(cases)
    }
}

} // verus!
