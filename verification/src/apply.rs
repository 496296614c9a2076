//! The stages of an apply: what each stage makes of the tree of the stage
//! before it, and what is reported of it.

use crate::causality::meta::CausalityMeta;
use crate::operation::Operation;
use crate::params::schema::{nowhere, ParamTypes, ParamsStruct};
use crate::params::validate::{validate, validated, ParamsValidationError};
use crate::params::value::{Spanned, Value};
use crate::params::values::{ParamValue, ParamValues, ParamValuesFromRimuError};
use crate::resource::apt::AptParams;
use crate::resource::command::CommandParams;
use crate::resource::file::FileParams;
use crate::resource::git::GitParams;
use crate::resource::pacman::PacmanParams;
use crate::resource::read::{command_asked, file_asked, git_asked, packages_asked};
use crate::plan::tree::{holds_subitems, map_plan_subitems, PlanMeta, PlanTree};
use crate::resource::apt::Apt;
use crate::resource::command::Command;
use crate::resource::file::File;
use crate::resource::git::Git;
use crate::resource::pacman::Pacman;
use crate::resource::{Resource, ResourceChange, ResourceParams, ResourceState};
use crate::text::{chars_of, spells};
use crate::tree::Tree;
use crate::view::{Render, ViewElement, ViewShape};
use vstd::prelude::*;
use vstd::string::StringExecFns;

verus! {

/// The built-in kinds of resources.
#[derive(Debug, Clone, Copy, PartialEq, Eq, Structural)]
pub enum CoreKind {
    Apt,
    File,
    Pacman,
    Command,
    Git,
}

impl CoreKind {
    /// The kind with the name, if there is one.
    pub open spec fn named(name: Seq<char>) -> Option<CoreKind> {
        if name == "apt"@ {
            Some(CoreKind::Apt)
        } else if name == "file"@ {
            Some(CoreKind::File)
        } else if name == "pacman"@ {
            Some(CoreKind::Pacman)
        } else if name == "command"@ {
            Some(CoreKind::Command)
        } else if name == "git"@ {
            Some(CoreKind::Git)
        } else {
            None
        }
    }

    /// The kind that a plan names behind `@core/`, if it names one.
    pub fn from_name(name: &str) -> (kind: Option<CoreKind>)
        ensures
            kind == CoreKind::named(name@),
    {
        let chars = chars_of(name);
        assert(chars@.subrange(0, chars.len() as int) =~= chars@);
        if spells(&chars, 0, chars.len(), "apt") {
            Some(CoreKind::Apt)
        } else if spells(&chars, 0, chars.len(), "file") {
            Some(CoreKind::File)
        } else if spells(&chars, 0, chars.len(), "pacman") {
            Some(CoreKind::Pacman)
        } else if spells(&chars, 0, chars.len(), "command") {
            Some(CoreKind::Command)
        } else if spells(&chars, 0, chars.len(), "git") {
            Some(CoreKind::Git)
        } else {
            None
        }
    }

    /// The schema against which the parameters of the kind are held
    /// before they become resources.
    pub fn param_types(self) -> (types: ParamTypes)
        ensures
            match self {
                CoreKind::Apt => call_ensures(Apt::param_types, (), types),
                CoreKind::File => call_ensures(File::param_types, (), types),
                CoreKind::Pacman => call_ensures(Pacman::param_types, (), types),
                CoreKind::Command => call_ensures(Command::param_types, (), types),
                CoreKind::Git => call_ensures(Git::param_types, (), types),
            },
    {
        match self {
            CoreKind::Apt => Apt::param_types(),
            CoreKind::File => File::param_types(),
            CoreKind::Pacman => Pacman::param_types(),
            CoreKind::Command => Command::param_types(),
            CoreKind::Git => Git::param_types(),
        }
    }
}

impl CoreKind {
    /// Whether `params` is what the values ask of the kind: the
    /// parameters of the kind that they describe, or nothing where they
    /// describe none.
    pub open spec fn reads(
        self,
        values: Seq<(String, Spanned<ParamValue>)>,
        params: Option<ResourceParams>,
    ) -> bool {
        match self {
            CoreKind::Apt => match params {
                Some(ResourceParams::Apt(params)) => packages_asked(values) == Some(params.asked()),
                None => packages_asked(values) is None,
                _ => false,
            },
            CoreKind::Pacman => match params {
                Some(ResourceParams::Pacman(params)) => packages_asked(values) == Some(
                    params.asked(),
                ),
                None => packages_asked(values) is None,
                _ => false,
            },
            CoreKind::File => match params {
                Some(ResourceParams::File(params)) => file_asked(values) == Some(params.asked()),
                None => file_asked(values) is None,
                _ => false,
            },
            CoreKind::Command => match params {
                Some(ResourceParams::Command(params)) => command_asked(values) == Some(
                    params.asked(),
                ),
                None => command_asked(values) is None,
                _ => false,
            },
            CoreKind::Git => match params {
                Some(ResourceParams::Git(params)) => git_asked(values) == Some(params.asked()),
                None => git_asked(values) is None,
                _ => false,
            },
        }
    }

    /// Reads the parameters of the kind from the values of a plan item.
    pub fn params(self, values: &ParamValues) -> (params: Option<ResourceParams>)
        ensures
            self.reads(values.0@, params),
    {
        match self {
            CoreKind::Apt => match AptParams::from_values(values) {
                Some(params) => Some(ResourceParams::Apt(params)),
                None => None,
            },
            CoreKind::Pacman => match PacmanParams::from_values(values) {
                Some(params) => Some(ResourceParams::Pacman(params)),
                None => None,
            },
            CoreKind::File => match FileParams::from_values(values) {
                Some(params) => Some(ResourceParams::File(params)),
                None => None,
            },
            CoreKind::Command => match CommandParams::from_values(values) {
                Some(params) => Some(ResourceParams::Command(params)),
                None => None,
            },
            CoreKind::Git => match GitParams::from_values(values) {
                Some(params) => Some(ResourceParams::Git(params)),
                None => None,
            },
        }
    }
}

/// Why a plan item that names a built-in kind is no resource.
#[derive(Debug)]
pub enum PlanItemToResourceError {
    /// The item has no parameters.
    MissingParams,
    /// The parameters do not fit the schema of the kind.
    ParamsValidation(ParamsValidationError),
    /// The parameters cannot be taken in under the schema of the kind.
    ParamsValueFromRimu(Spanned<ParamValuesFromRimuError>),
    /// The parameters do not have the form that the kind asks for.
    ParamsIntoType,
    /// No built-in kind has the name.
    UnsupportedCoreModuleId { id: String },
}

/// What reading the parameters of a kind from a value under the schema
/// `types` yields: the value is held against the schema, taken in under
/// the fields of the case that fits, and read as parameters of the kind.
pub open spec fn read_under(
    kind: CoreKind,
    types: Spanned<ParamTypes>,
    value: Spanned<Value>,
    out: Result<ResourceParams, PlanItemToResourceError>,
) -> bool {
    match out {
        Err(PlanItemToResourceError::ParamsValidation(error)) => validated(
            Some(&types),
            Some(&value),
            Err(error),
        ),
        Err(PlanItemToResourceError::ParamsValueFromRimu(error)) => exists|fields: &ParamsStruct|
            #[trigger] validated(Some(&types), Some(&value), Ok(Some(fields))) && call_ensures(
                ParamValues::from_rimu_spanned,
                (&value, fields),
                Err(error),
            ),
        Err(PlanItemToResourceError::ParamsIntoType) => exists|
            fields: &ParamsStruct,
            values: Spanned<ParamValues>,
        |
            validated(Some(&types), Some(&value), Ok(Some(fields))) && #[trigger] call_ensures(
                ParamValues::from_rimu_spanned,
                (&value, fields),
                Ok(values),
            ) && kind.reads(values.inner.0@, None),
        Ok(params) => exists|fields: &ParamsStruct, values: Spanned<ParamValues>|
            validated(Some(&types), Some(&value), Ok(Some(fields))) && #[trigger] call_ensures(
                ParamValues::from_rimu_spanned,
                (&value, fields),
                Ok(values),
            ) && kind.reads(values.inner.0@, Some(params)),
        Err(_) => false,
    }
}

/// The parameters of a resource of the built-in kind with the name
/// `core_module_id`, read from the parameters of a plan item. The kind has
/// to be known and the parameters have to be there; they are held against
/// the schema of the kind before they are read.
pub fn core_module(core_module_id: &str, params: Option<&Spanned<Value>>) -> (out: Result<
    ResourceParams,
    PlanItemToResourceError,
>)
    ensures
        match CoreKind::named(core_module_id@) {
            None => out matches Err(PlanItemToResourceError::UnsupportedCoreModuleId { id })
                && id@ == core_module_id@,
            Some(kind) => match params {
                None => out matches Err(PlanItemToResourceError::MissingParams),
                Some(value) => exists|types: Spanned<ParamTypes>|
                    call_ensures(CoreKind::param_types, (kind,), types.inner) && #[trigger] read_under(
                        kind,
                        types,
                        *value,
                        out,
                    ),
            },
        },
{
    let kind = match CoreKind::from_name(core_module_id) {
        Some(kind) => kind,
        None => {
            return Err(
                PlanItemToResourceError::UnsupportedCoreModuleId {
                    id: String::from_str(core_module_id),
                },
            );
        },
    };
    let value = match params {
        Some(value) => value,
        None => {
            return Err(PlanItemToResourceError::MissingParams);
        },
    };
    let types = Spanned { inner: kind.param_types(), span: nowhere() };
    let out = match validate(Some(&types), Some(value)) {
        Err(error) => Err(PlanItemToResourceError::ParamsValidation(error)),
        Ok(None) => Err(PlanItemToResourceError::ParamsIntoType),
        Ok(Some(fields)) => match ParamValues::from_rimu_spanned(value, fields) {
            Err(error) => Err(PlanItemToResourceError::ParamsValueFromRimu(error)),
            Ok(values) => {
                let read = kind.params(&values.inner);
                proof {
                    assert(call_ensures(
                        ParamValues::from_rimu_spanned,
                        (value, fields),
                        Ok::<Spanned<ParamValues>, Spanned<ParamValuesFromRimuError>>(values),
                    ));
                }
                match read {
                    Some(params) => Ok(params),
                    None => Err(PlanItemToResourceError::ParamsIntoType),
                }
            },
        },
    };
    proof {
        assert(read_under(kind, types, *value, out));
    }
    out
}

/// What comes behind the stage of the changes.
#[derive(Debug, Clone, Copy, PartialEq, Eq)]
pub enum AfterChanges {
    /// Nothing has to change: the apply ends here.
    Stop,
    /// Something has to change: the operations come next.
    Operations,
}

/// What the tree of changes tells once every change is known: the update
/// that ends the stage, which says whether anything has to change, and
/// what comes next. Nothing has to change where the tree has no root.
pub fn after_changes<Node, Meta>(changes: &crate::tree::FlatTree<Node, Meta>) -> (next: (
    crate::apply_stdio::AppUpdate,
    AfterChanges,
))
    ensures
        next.0 matches crate::apply_stdio::AppUpdate::ResourceChangesComplete { has_changes }
            && has_changes == !(changes@.len() == 0 || changes@[0] is None),
        next.1 == if changes@.len() == 0 || changes@[0] is None {
            AfterChanges::Stop
        } else {
            AfterChanges::Operations
        },
{
    if changes.is_empty() {
        (
            crate::apply_stdio::AppUpdate::ResourceChangesComplete { has_changes: false },
            AfterChanges::Stop,
        )
    } else {
        (
            crate::apply_stdio::AppUpdate::ResourceChangesComplete { has_changes: true },
            AfterChanges::Operations,
        )
    }
}

/// The resources that the parameters of an item expand to, below the
/// item: a branch with the metadata of the item, its children named within
/// a scope of their own.
pub fn resources_of(params: ResourceParams, meta: PlanMeta) -> (tree: PlanTree<Resource>)
    ensures
        exists|made: Vec<Tree<Resource, CausalityMeta<String>>>, scope: Seq<char>|
            call_ensures(ResourceParams::resources, (params,), made) && #[trigger] holds_subitems(
                tree@,
                meta,
                made@,
                scope,
            ),
{
    let made = params.resources();
    let tree = map_plan_subitems(meta, made);
    proof {
        let scope = choose|scope: Seq<char>| holds_subitems(tree@, meta, made@, scope);
        assert(holds_subitems(tree@, meta, made@, scope));
    }
    tree
}

/// The operations that a change expands to, below the node of the
/// change: a branch with the metadata of the node, its children named
/// within a scope of their own.
pub fn operations_of(change: ResourceChange, meta: PlanMeta) -> (tree: PlanTree<Operation>)
    ensures
        exists|made: Vec<Tree<Operation, CausalityMeta<String>>>, scope: Seq<char>|
            call_ensures(ResourceChange::operations, (change,), made) && #[trigger] holds_subitems(
                tree@,
                meta,
                made@,
                scope,
            ),
{
    let made = change.operations();
    let tree = map_plan_subitems(meta, made);
    proof {
        let scope = choose|scope: Seq<char>| holds_subitems(tree@, meta, made@, scope);
        assert(holds_subitems(tree@, meta, made@, scope));
    }
    tree
}

/// What has to change for a resource in the state observed. Nothing
/// comes back for a state that is not one of the resource.
pub fn change_of(resource: &Resource, state: &ResourceState) -> (change: Option<
    Option<ResourceChange>,
>)
    ensures
        match change {
            Some(change) => crate::resource::state_fits(*resource, *state) && call_ensures(
                Resource::change,
                (resource, state),
                change,
            ),
            None => !crate::resource::state_fits(*resource, *state),
        },
{
    if resource.accepts_state(state) {
        Some(resource.change(state))
    } else {
        None
    }
}

/// What is reported of the epochs before they are applied: the label
/// of every operation, epoch by epoch.
pub fn epoch_labels(epochs: &Vec<Vec<Operation>>) -> (labels: Vec<Vec<ViewElement>>)
    ensures
        labels.len() == epochs.len(),
        forall|e: int|
            0 <= e < epochs.len() ==> (#[trigger] labels[e]).len() == epochs[e].len() && forall|
                o: int,
            |
                0 <= o < epochs[e].len() ==> (#[trigger] labels[e][o])@ == ViewShape::Line(
                    epochs[e][o].spec_label(),
                ),
{
    let mut labels: Vec<Vec<ViewElement>> = Vec::new();
    let mut e: usize = 0;
    while e < epochs.len()
        invariant
            e <= epochs.len(),
            labels.len() == e,
            forall|k: int|
                0 <= k < e ==> (#[trigger] labels[k]).len() == epochs[k].len() && forall|o: int|
                    0 <= o < epochs[k].len() ==> (#[trigger] labels[k][o])@ == ViewShape::Line(
                        epochs[k][o].spec_label(),
                    ),
        decreases epochs.len() - e,
    {
        let epoch = &epochs[e];
        let mut row: Vec<ViewElement> = Vec::new();
        let mut o: usize = 0;
        while o < epoch.len()
            invariant
                o <= epoch.len(),
                row.len() == o,
                forall|k: int|
                    0 <= k < o ==> (#[trigger] row[k])@ == ViewShape::Line(epoch[k].spec_label()),
            decreases epoch.len() - o,
        {
            row.push(epoch[o].render());
            o += 1;
        }
        labels.push(row);
        e += 1;
    }
    labels
}

/// The error of an operation that has run: none where it succeeded, else
/// what it wrote to its error output.
pub fn operation_error(success: bool, error_output: String) -> (error: Option<String>)
    ensures
        error == if success {
            None
        } else {
            Some(error_output)
        },
{
    if success {
        None
    } else {
        Some(error_output)
    }
}

/// The operations of every epoch, merged kind by kind.
pub fn merge_epochs(epochs: Vec<Vec<Operation>>) -> (merged: Vec<Vec<Operation>>)
    ensures
        merged.len() == epochs.len(),
        forall|e: int|
            0 <= e < epochs.len() ==> call_ensures(
                Operation::merge,
                (epochs[e],),
                #[trigger] merged[e],
            ),
{
    let ghost given = epochs@;
    let mut merged: Vec<Vec<Operation>> = Vec::new();
    for operations in it: epochs
        invariant
            it.seq() == given,
            merged.len() == it.index(),
            forall|e: int|
                0 <= e < it.index() ==> call_ensures(
                    Operation::merge,
                    (given[e],),
                    #[trigger] merged[e],
                ),
    {
        assert(operations == given[it.index() as int]);
        merged.push(Operation::merge(operations));
    }
    merged
}

/// How running the operations of a plan ended.
#[derive(Debug)]
pub enum RunOutcome {
    /// Every operation was run and succeeded.
    Completed,
    /// The operation at `index` failed and wrote `error`; no operation
    /// behind it was run.
    Failed { index: (usize, usize), error: String },
}

/// `run` may report of the operation at `index` that it succeeded.
pub open spec fn runs_well<Error, F: Fn(&Operation, (usize, usize)) -> Result<(bool, String), Error>>(
    run: F,
    operation: Operation,
    index: (usize, usize),
) -> bool {
    exists|output: String| #[trigger] run.ensures((&operation, index), Ok((true, output)))
}

/// `run` may report of the operation at `index` that it failed and wrote `error`.
pub open spec fn runs_badly<Error, F: Fn(&Operation, (usize, usize)) -> Result<(bool, String), Error>>(
    run: F,
    operation: Operation,
    index: (usize, usize),
    error: String,
) -> bool {
    run.ensures((&operation, index), Ok((false, error)))
}

/// The place `(e, o)` comes before the place `index`: in an earlier epoch,
/// or earlier in the same epoch.
pub open spec fn comes_before(e: int, o: int, index: (usize, usize)) -> bool {
    e < index.0 || (e == index.0 && o < index.1)
}

/// Some call of one of the three fails with `error`.
pub open spec fn run_breaks<Error, StartFn, RunFn, CompleteFn>(
    start: StartFn,
    run: RunFn,
    complete: CompleteFn,
    error: Error,
) -> bool where
    StartFn: Fn((usize, usize)) -> Result<(), Error>,
    RunFn: Fn(&Operation, (usize, usize)) -> Result<(bool, String), Error>,
    CompleteFn: Fn((usize, usize), Option<&String>) -> Result<(), Error>,
 {
    ||| exists|index: (usize, usize)| #[trigger] start.ensures((index,), Err(error))
    ||| exists|operation: &Operation, index: (usize, usize)| #[trigger]
        run.ensures((operation, index), Err(error))
    ||| exists|index: (usize, usize), failure: Option<&String>| #[trigger]
        complete.ensures((index, failure), Err(error))
}

/// Runs the operations epoch by epoch, each epoch in the order given. Of
/// every operation the place is first handed to `start`, then the operation
/// to `run`, which says whether it succeeded and what it wrote to its
/// error output, and then the place to `complete`, with what was written
/// where the operation failed. The first operation that fails ends the
/// run, and so does the first call that fails. The three are where a
/// caller does the work on the host and reports it.
pub fn run_epochs<Error, StartFn, RunFn, CompleteFn>(
    epochs: &Vec<Vec<Operation>>,
    start: StartFn,
    run: RunFn,
    complete: CompleteFn,
) -> (done: Result<RunOutcome, Error>) where
    StartFn: Fn((usize, usize)) -> Result<(), Error>,
    RunFn: Fn(&Operation, (usize, usize)) -> Result<(bool, String), Error>,
    CompleteFn: Fn((usize, usize), Option<&String>) -> Result<(), Error>,

    requires
        forall|index: (usize, usize)| start.requires((index,)),
        forall|operation: &Operation, index: (usize, usize)| run.requires((operation, index)),
        forall|index: (usize, usize), failure: Option<&String>|
            complete.requires((index, failure)),
    ensures
        match done {
            Ok(RunOutcome::Completed) => forall|e: int, o: int|
                0 <= e < epochs.len() && 0 <= o < epochs[e].len() ==> runs_well(
                    run,
                    #[trigger] epochs[e][o],
                    (e as usize, o as usize),
                ),
            Ok(RunOutcome::Failed { index, error }) => {
                &&& index.0 < epochs.len()
                &&& index.1 < epochs[index.0 as int].len()
                &&& runs_badly(run, epochs[index.0 as int][index.1 as int], index, error)
                &&& forall|e: int, o: int|
                    0 <= e < epochs.len() && 0 <= o < epochs[e].len() && comes_before(e, o, index)
                        ==> runs_well(run, #[trigger] epochs[e][o], (e as usize, o as usize))
            },
            Err(error) => run_breaks(start, run, complete, error),
        },
{
    let mut e: usize = 0;
    while e < epochs.len()
        invariant
            e <= epochs.len(),
            forall|index: (usize, usize)| start.requires((index,)),
            forall|operation: &Operation, index: (usize, usize)| run.requires((operation, index)),
            forall|index: (usize, usize), failure: Option<&String>|
                complete.requires((index, failure)),
            forall|d: int, o: int|
                0 <= d < e && 0 <= o < epochs[d].len() ==> runs_well(
                    run,
                    #[trigger] epochs[d][o],
                    (d as usize, o as usize),
                ),
        decreases epochs.len() - e,
    {
        let operations = &epochs[e];
        let mut o: usize = 0;
        while o < operations.len()
            invariant
                e < epochs.len(),
                operations == &epochs[e as int],
                o <= operations.len(),
                forall|index: (usize, usize)| start.requires((index,)),
                forall|operation: &Operation, index: (usize, usize)|
                    run.requires((operation, index)),
                forall|index: (usize, usize), failure: Option<&String>|
                    complete.requires((index, failure)),
                forall|d: int, p: int|
                    0 <= d < e && 0 <= p < epochs[d].len() ==> runs_well(
                        run,
                        #[trigger] epochs[d][p],
                        (d as usize, p as usize),
                    ),
                forall|p: int|
                    0 <= p < o ==> runs_well(run, #[trigger] operations[p], (e, p as usize)),
            decreases operations.len() - o,
        {
            let index = (e, o);
            match start(index) {
                Ok(()) => {},
                Err(error) => {
                    assert(start.ensures((index,), Err(error)));
                    return Err(error);
                },
            }
            let (success, error_output) = match run(&operations[o], index) {
                Ok(ended) => ended,
                Err(error) => {
                    assert(run.ensures((&operations[o as int], index), Err(error)));
                    return Err(error);
                },
            };
            let ghost written = error_output;
            let failure = operation_error(success, error_output);
            let told: Option<&String> = failure.as_ref();
            match complete(index, told) {
                Ok(()) => {},
                Err(error) => {
                    assert(complete.ensures((index, told), Err(error)));
                    return Err(error);
                },
            }
            match failure {
                Some(error) => {
                    proof {
                        assert(run.ensures((&operations[o as int], index), Ok((false, written))));
                        assert forall|d: int, p: int|
                            0 <= d < epochs.len() && 0 <= p < epochs[d].len() && comes_before(
                                d,
                                p,
                                index,
                            ) implies runs_well(
                            run,
                            #[trigger] epochs[d][p],
                            (d as usize, p as usize),
                        ) by {
                            if d == e {
                                assert(runs_well(run, operations[p], (e, p as usize)));
                            }
                        }
                    }
                    return Ok(RunOutcome::Failed { index, error });
                },
                None => {
                    assert(run.ensures((&operations[o as int], index), Ok((true, written))));
                },
            }
            o += 1;
        }
        e += 1;
    }
    Ok(RunOutcome::Completed)
}

} // verus!
