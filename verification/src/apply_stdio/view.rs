//! The view that a reader builds from the updates of an apply.
//!
//! The view passes through the phases in order and keeps what the earlier
//! phases gathered. An update that does not belong to the phase is refused.

use crate::apply_stdio::flat_view_tree::{
    completed, is_branch_slot, templated, with_leaf, FlatViewTree, FlatViewTreeError, ViewArena,
    ViewNode,
};
use crate::apply_stdio::update::AppUpdate;
use crate::tree::{flatten, padded, replaced};
use crate::view::ViewElement;
use crate::text::option_text;
use vstd::prelude::*;
use vstd::string::StringExecFns;

verus! {

/// The phases of an apply, in order.
#[derive(Debug, Clone, Copy, PartialEq, Eq, Structural)]
pub enum Phase {
    Start,
    ResourceParams,
    Resources,
    ResourceStates,
    ResourceChanges,
    Operations,
    OperationsApply,
    Done,
}

impl Phase {
    /// The place of the phase in the order.
    pub open spec fn rank(self) -> nat {
        match self {
            Phase::Start => 0,
            Phase::ResourceParams => 1,
            Phase::Resources => 2,
            Phase::ResourceStates => 3,
            Phase::ResourceChanges => 4,
            Phase::Operations => 5,
            Phase::OperationsApply => 6,
            Phase::Done => 7,
        }
    }

    /// The name of the phase.
    pub open spec fn spec_name(self) -> Seq<char> {
        match self {
            Phase::Start => "Start"@,
            Phase::ResourceParams => "ResourceParams"@,
            Phase::Resources => "Resources"@,
            Phase::ResourceStates => "ResourceStates"@,
            Phase::ResourceChanges => "ResourceChanges"@,
            Phase::Operations => "Operations"@,
            Phase::OperationsApply => "OperationsApply"@,
            Phase::Done => "Done"@,
        }
    }

    /// The name of the phase.
    pub fn name(self) -> (name: String)
        ensures
            name@ == self.spec_name(),
    {
        let text = match self {
            Phase::Start => "Start",
            Phase::ResourceParams => "ResourceParams",
            Phase::Resources => "Resources",
            Phase::ResourceStates => "ResourceStates",
            Phase::ResourceChanges => "ResourceChanges",
            Phase::Operations => "Operations",
            Phase::OperationsApply => "OperationsApply",
            Phase::Done => "Done",
        };
        String::from_str(text)
    }

    /// Whether an update of this kind belongs to the phase.
    pub open spec fn accepts(self, update: AppUpdate) -> bool {
        match self {
            Phase::Start => update is ResourceParams,
            Phase::ResourceParams => update is ResourcesStart,
            Phase::Resources => update is ResourcesNode || update is ResourcesComplete
                || update is ResourceStatesStart,
            Phase::ResourceStates => update is ResourceStatesNodeStart
                || update is ResourceStatesNodeComplete || update is ResourceStatesComplete
                || update is ResourceChangesStart,
            Phase::ResourceChanges => update is ResourceChangesNode
                || update is ResourceChangesComplete || update is OperationsStart,
            Phase::Operations => update is OperationsNode || update is OperationsComplete
                || update is OperationsApplyStart,
            Phase::OperationsApply => update is OperationApplyStart
                || update is OperationApplyStdout || update is OperationApplyStderr
                || update is OperationApplyComplete || update is OperationsApplyComplete,
            Phase::Done => false,
        }
    }

    /// The phase after the update, if the update belongs to this phase.
    pub fn step(self, update: &AppUpdate) -> (next: Option<Phase>)
        ensures
            next == if self.accepts(*update) {
                Some(self.after(*update))
            } else {
                None
            },
    {
        match (self, update) {
            (Phase::Start, AppUpdate::ResourceParams { .. }) => Some(Phase::ResourceParams),
            (Phase::ResourceParams, AppUpdate::ResourcesStart) => Some(Phase::Resources),
            (Phase::Resources, AppUpdate::ResourcesNode { .. }) => Some(Phase::Resources),
            (Phase::Resources, AppUpdate::ResourcesComplete) => Some(Phase::Resources),
            (Phase::Resources, AppUpdate::ResourceStatesStart) => Some(Phase::ResourceStates),
            (Phase::ResourceStates, AppUpdate::ResourceStatesNodeStart { .. }) => Some(
                Phase::ResourceStates,
            ),
            (Phase::ResourceStates, AppUpdate::ResourceStatesNodeComplete { .. }) => Some(
                Phase::ResourceStates,
            ),
            (Phase::ResourceStates, AppUpdate::ResourceStatesComplete) => Some(
                Phase::ResourceStates,
            ),
            (Phase::ResourceStates, AppUpdate::ResourceChangesStart) => Some(
                Phase::ResourceChanges,
            ),
            (Phase::ResourceChanges, AppUpdate::ResourceChangesNode { .. }) => Some(
                Phase::ResourceChanges,
            ),
            (Phase::ResourceChanges, AppUpdate::ResourceChangesComplete { .. }) => Some(
                Phase::ResourceChanges,
            ),
            (Phase::ResourceChanges, AppUpdate::OperationsStart) => Some(Phase::Operations),
            (Phase::Operations, AppUpdate::OperationsNode { .. }) => Some(Phase::Operations),
            (Phase::Operations, AppUpdate::OperationsComplete) => Some(Phase::Operations),
            (Phase::Operations, AppUpdate::OperationsApplyStart { .. }) => Some(
                Phase::OperationsApply,
            ),
            (Phase::OperationsApply, AppUpdate::OperationApplyStart { .. }) => Some(
                Phase::OperationsApply,
            ),
            (Phase::OperationsApply, AppUpdate::OperationApplyStdout { .. }) => Some(
                Phase::OperationsApply,
            ),
            (Phase::OperationsApply, AppUpdate::OperationApplyStderr { .. }) => Some(
                Phase::OperationsApply,
            ),
            (Phase::OperationsApply, AppUpdate::OperationApplyComplete { .. }) => Some(
                Phase::OperationsApply,
            ),
            (Phase::OperationsApply, AppUpdate::OperationsApplyComplete) => Some(Phase::Done),
            _ => None,
        }
    }

    /// The phase after an update that belongs to this phase.
    pub open spec fn after(self, update: AppUpdate) -> Phase {
        match update {
            AppUpdate::ResourceParams { .. } => Phase::ResourceParams,
            AppUpdate::ResourcesStart => Phase::Resources,
            AppUpdate::ResourceStatesStart => Phase::ResourceStates,
            AppUpdate::ResourceChangesStart => Phase::ResourceChanges,
            AppUpdate::OperationsStart => Phase::Operations,
            AppUpdate::OperationsApplyStart { .. } => Phase::OperationsApply,
            AppUpdate::OperationsApplyComplete => Phase::Done,
            _ => self,
        }
    }
}

/// What is known of one operation while it is applied.
#[derive(Debug)]
pub struct OperationView {
    pub label: ViewElement,
    pub stdout: String,
    pub stderr: String,
    pub is_complete: bool,
    pub error: Option<String>,
}

/// The mathematical shape of an [`OperationView`].
pub ghost struct OperationShape {
    pub label: ViewElement,
    pub stdout: Seq<char>,
    pub stderr: Seq<char>,
    pub is_complete: bool,
    pub error: Option<Seq<char>>,
}

impl View for OperationView {
    type V = OperationShape;

    open spec fn view(&self) -> OperationShape {
        OperationShape {
            label: self.label,
            stdout: self.stdout@,
            stderr: self.stderr@,
            is_complete: self.is_complete,
            error: option_text(self.error),
        }
    }
}

impl OperationView {
    /// An operation that has not started.
    pub fn new(label: ViewElement) -> (operation: Self)
        ensures
            operation@ == fresh_operation(label),
    {
        OperationView {
            label,
            stdout: String::new(),
            stderr: String::new(),
            is_complete: false,
            error: None,
        }
    }
}

/// The shape of an operation that has not started.
pub open spec fn fresh_operation(label: ViewElement) -> OperationShape {
    OperationShape {
        label,
        stdout: Seq::empty(),
        stderr: Seq::empty(),
        is_complete: false,
        error: None,
    }
}

/// The shapes of the operations of the epochs.
pub open spec fn epoch_shapes(epochs: Seq<Vec<OperationView>>) -> Seq<Seq<OperationShape>> {
    Seq::new(epochs.len(), |e: int| Seq::new(epochs[e].len() as nat, |o: int| epochs[e][o]@))
}

/// The operations of the epochs before any has started.
pub open spec fn fresh_epochs(labels: Seq<Vec<ViewElement>>) -> Seq<Seq<OperationShape>> {
    Seq::new(
        labels.len(),
        |e: int| Seq::new(labels[e].len() as nat, |o: int| fresh_operation(labels[e][o])),
    )
}

/// The view of an apply, by phase; each phase keeps what the earlier ones gathered.
#[derive(Debug)]
pub enum AppView {
    Start,
    ResourceParams { resource_params: FlatViewTree },
    Resources { resource_params: FlatViewTree, resources: FlatViewTree },
    ResourceStates {
        resource_params: FlatViewTree,
        resources: FlatViewTree,
        resource_states: FlatViewTree,
    },
    ResourceChanges {
        resource_params: FlatViewTree,
        resources: FlatViewTree,
        resource_states: FlatViewTree,
        resource_changes: FlatViewTree,
        has_changes: Option<bool>,
    },
    Operations {
        resource_params: FlatViewTree,
        resources: FlatViewTree,
        resource_states: FlatViewTree,
        resource_changes: FlatViewTree,
        has_changes: Option<bool>,
        operations_tree: FlatViewTree,
    },
    OperationsApply {
        resource_params: FlatViewTree,
        resources: FlatViewTree,
        resource_states: FlatViewTree,
        resource_changes: FlatViewTree,
        has_changes: Option<bool>,
        operations_tree: FlatViewTree,
        operations_epochs: Vec<Vec<OperationView>>,
    },
    Done {
        resource_params: FlatViewTree,
        resources: FlatViewTree,
        resource_states: FlatViewTree,
        resource_changes: FlatViewTree,
        has_changes: Option<bool>,
        operations_tree: FlatViewTree,
        operations_epochs: Vec<Vec<OperationView>>,
    },
}

/// The mathematical shape of an [`AppView`]. What a phase has not reached is empty.
pub ghost struct AppShape {
    pub phase: Phase,
    pub resource_params: ViewArena,
    pub resources: ViewArena,
    pub resource_states: ViewArena,
    pub resource_changes: ViewArena,
    pub has_changes: Option<bool>,
    pub operations_tree: ViewArena,
    pub operations_epochs: Seq<Seq<OperationShape>>,
}

impl View for AppView {
    type V = AppShape;

    open spec fn view(&self) -> AppShape {
        match self {
            AppView::Start => AppShape {
                phase: Phase::Start,
                resource_params: Seq::empty(),
                resources: Seq::empty(),
                resource_states: Seq::empty(),
                resource_changes: Seq::empty(),
                has_changes: None,
                operations_tree: Seq::empty(),
                operations_epochs: Seq::empty(),
            },
            AppView::ResourceParams { resource_params } => AppShape {
                phase: Phase::ResourceParams,
                resource_params: resource_params@,
                resources: Seq::empty(),
                resource_states: Seq::empty(),
                resource_changes: Seq::empty(),
                has_changes: None,
                operations_tree: Seq::empty(),
                operations_epochs: Seq::empty(),
            },
            AppView::Resources { resource_params, resources } => AppShape {
                phase: Phase::Resources,
                resource_params: resource_params@,
                resources: resources@,
                resource_states: Seq::empty(),
                resource_changes: Seq::empty(),
                has_changes: None,
                operations_tree: Seq::empty(),
                operations_epochs: Seq::empty(),
            },
            AppView::ResourceStates { resource_params, resources, resource_states } => AppShape {
                phase: Phase::ResourceStates,
                resource_params: resource_params@,
                resources: resources@,
                resource_states: resource_states@,
                resource_changes: Seq::empty(),
                has_changes: None,
                operations_tree: Seq::empty(),
                operations_epochs: Seq::empty(),
            },
            AppView::ResourceChanges {
                resource_params,
                resources,
                resource_states,
                resource_changes,
                has_changes,
            } => AppShape {
                phase: Phase::ResourceChanges,
                resource_params: resource_params@,
                resources: resources@,
                resource_states: resource_states@,
                resource_changes: resource_changes@,
                has_changes: *has_changes,
                operations_tree: Seq::empty(),
                operations_epochs: Seq::empty(),
            },
            AppView::Operations {
                resource_params,
                resources,
                resource_states,
                resource_changes,
                has_changes,
                operations_tree,
            } => AppShape {
                phase: Phase::Operations,
                resource_params: resource_params@,
                resources: resources@,
                resource_states: resource_states@,
                resource_changes: resource_changes@,
                has_changes: *has_changes,
                operations_tree: operations_tree@,
                operations_epochs: Seq::empty(),
            },
            AppView::OperationsApply {
                resource_params,
                resources,
                resource_states,
                resource_changes,
                has_changes,
                operations_tree,
                operations_epochs,
            } => AppShape {
                phase: Phase::OperationsApply,
                resource_params: resource_params@,
                resources: resources@,
                resource_states: resource_states@,
                resource_changes: resource_changes@,
                has_changes: *has_changes,
                operations_tree: operations_tree@,
                operations_epochs: epoch_shapes(operations_epochs@),
            },
            AppView::Done {
                resource_params,
                resources,
                resource_states,
                resource_changes,
                has_changes,
                operations_tree,
                operations_epochs,
            } => AppShape {
                phase: Phase::Done,
                resource_params: resource_params@,
                resources: resources@,
                resource_states: resource_states@,
                resource_changes: resource_changes@,
                has_changes: *has_changes,
                operations_tree: operations_tree@,
                operations_epochs: epoch_shapes(operations_epochs@),
            },
        }
    }
}

/// Why an update was refused.
#[derive(Debug)]
pub enum AppViewError {
    InvalidTransition { from: String, update: String },
    FlatTree(FlatViewTreeError),
    OperationIndexOutOfBounds(usize, usize),
}

/// The operation at place `o` of epoch `e` exists.
pub open spec fn has_operation(epochs: Seq<Seq<OperationShape>>, e: int, o: int) -> bool {
    0 <= e < epochs.len() && 0 <= o < epochs[e].len()
}

/// The epochs with the operation at place `o` of epoch `e` replaced.
pub open spec fn with_operation(
    epochs: Seq<Seq<OperationShape>>,
    e: int,
    o: int,
    operation: OperationShape,
) -> Seq<Seq<OperationShape>> {
    epochs.update(e, epochs[e].update(o, operation))
}

/// The place of the operation that an update speaks of.
pub open spec fn operation_index(update: AppUpdate) -> Option<(usize, usize)> {
    match update {
        AppUpdate::OperationApplyStart { index } => Some(index),
        AppUpdate::OperationApplyStdout { index, .. } => Some(index),
        AppUpdate::OperationApplyStderr { index, .. } => Some(index),
        AppUpdate::OperationApplyComplete { index, .. } => Some(index),
        _ => None,
    }
}

/// The slot of the leaf that an update sets.
pub open spec fn leaf_index(update: AppUpdate) -> Option<usize> {
    match update {
        AppUpdate::ResourceStatesNodeStart { index } => Some(index),
        AppUpdate::ResourceStatesNodeComplete { index, .. } => Some(index),
        AppUpdate::ResourceChangesNode { index, node: Some(_) } => Some(index),
        _ => None,
    }
}

/// The tree in which an update sets a leaf.
pub open spec fn leaf_tree(before: AppShape, update: AppUpdate) -> ViewArena {
    match update {
        AppUpdate::ResourceChangesNode { .. } => before.resource_changes,
        _ => before.resource_states,
    }
}

/// The update speaks of an operation that does not exist.
pub open spec fn misses_operation(before: AppShape, update: AppUpdate) -> bool {
    operation_index(update) matches Some(index) && !has_operation(
        before.operations_epochs,
        index.0 as int,
        index.1 as int,
    )
}

/// The slot of the tree that an update writes.
pub open spec fn slot_index(update: AppUpdate) -> Option<usize> {
    match update {
        AppUpdate::ResourcesNode { index, .. } => Some(index),
        AppUpdate::ResourceStatesNodeStart { index } => Some(index),
        AppUpdate::ResourceStatesNodeComplete { index, .. } => Some(index),
        AppUpdate::ResourceChangesNode { index, .. } => Some(index),
        AppUpdate::OperationsNode { index, .. } => Some(index),
        _ => None,
    }
}

/// The tree that an update writes a slot of.
pub open spec fn slot_tree(before: AppShape, update: AppUpdate) -> ViewArena {
    match update {
        AppUpdate::ResourcesNode { .. } => before.resources,
        AppUpdate::ResourceChangesNode { .. } => before.resource_changes,
        AppUpdate::OperationsNode { .. } => before.operations_tree,
        _ => before.resource_states,
    }
}

/// The update writes a slot that lies outside the tree.
pub open spec fn misses_slot(before: AppShape, update: AppUpdate) -> bool {
    slot_index(update) matches Some(index) && index >= slot_tree(before, update).len()
}

/// The update sets a leaf where the tree holds a branch.
pub open spec fn hits_branch(before: AppShape, update: AppUpdate) -> bool {
    leaf_index(update) matches Some(index) && is_branch_slot(
        leaf_tree(before, update),
        index as int,
    )
}

/// `after` is the view that follows `before` on an update that the phase
/// of `before` accepts.
pub open spec fn follows(before: AppShape, update: AppUpdate, after: AppShape) -> bool {
    match update {
        AppUpdate::ResourceParams { resource_params } => after == AppShape {
            phase: Phase::ResourceParams,
            resource_params: flatten(completed(resource_params), 0),
            ..before
        },
        AppUpdate::ResourcesStart => {
            &&& after == AppShape { phase: Phase::Resources, resources: after.resources, ..before }
            &&& templated(before.resource_params, after.resources)
        },
        AppUpdate::ResourcesNode { index, tree } => after == AppShape {
            resources: replaced(before.resources, Some(completed(tree)), index as int),
            ..before
        },
        AppUpdate::ResourcesComplete => after == before,
        AppUpdate::ResourceStatesStart => {
            &&& after == AppShape {
                phase: Phase::ResourceStates,
                resource_states: after.resource_states,
                ..before
            }
            &&& templated(before.resources, after.resource_states)
        },
        AppUpdate::ResourceStatesNodeStart { index } => after == AppShape {
            resource_states: with_leaf(before.resource_states, index as int, ViewNode::Started),
            ..before
        },
        AppUpdate::ResourceStatesNodeComplete { index, node } => after == AppShape {
            resource_states: with_leaf(
                before.resource_states,
                index as int,
                ViewNode::Complete(node),
            ),
            ..before
        },
        AppUpdate::ResourceStatesComplete => after == before,
        AppUpdate::ResourceChangesStart => {
            &&& after == AppShape {
                phase: Phase::ResourceChanges,
                resource_changes: after.resource_changes,
                has_changes: None,
                ..before
            }
            &&& templated(before.resource_states, after.resource_changes)
        },
        AppUpdate::ResourceChangesNode { index, node: Some(view) } => after == AppShape {
            resource_changes: with_leaf(
                before.resource_changes,
                index as int,
                ViewNode::Complete(view),
            ),
            ..before
        },
        AppUpdate::ResourceChangesNode { index, node: None } => after == AppShape {
            resource_changes: before.resource_changes.update(index as int, None),
            ..before
        },
        AppUpdate::ResourceChangesComplete { has_changes } => after == AppShape {
            has_changes: Some(has_changes),
            ..before
        },
        AppUpdate::OperationsStart => {
            &&& after == AppShape {
                phase: Phase::Operations,
                operations_tree: after.operations_tree,
                ..before
            }
            &&& templated(before.resource_changes, after.operations_tree)
        },
        AppUpdate::OperationsNode { index, operations } => after == AppShape {
            operations_tree: replaced(
                before.operations_tree,
                Some(completed(operations)),
                index as int,
            ),
            ..before
        },
        AppUpdate::OperationsComplete => after == before,
        AppUpdate::OperationsApplyStart { operations } => after == AppShape {
            phase: Phase::OperationsApply,
            operations_epochs: fresh_epochs(operations@),
            ..before
        },
        AppUpdate::OperationApplyStart { index } => {
            let operation = before.operations_epochs[index.0 as int][index.1 as int];
            after == AppShape {
                operations_epochs: with_operation(
                    before.operations_epochs,
                    index.0 as int,
                    index.1 as int,
                    OperationShape {
                        stdout: Seq::empty(),
                        stderr: Seq::empty(),
                        is_complete: false,
                        ..operation
                    },
                ),
                ..before
            }
        },
        AppUpdate::OperationApplyStdout { index, stdout } => {
            let operation = before.operations_epochs[index.0 as int][index.1 as int];
            after == AppShape {
                operations_epochs: with_operation(
                    before.operations_epochs,
                    index.0 as int,
                    index.1 as int,
                    OperationShape { stdout: operation.stdout + stdout@ + seq!['\n'], ..operation },
                ),
                ..before
            }
        },
        AppUpdate::OperationApplyStderr { index, stderr } => {
            let operation = before.operations_epochs[index.0 as int][index.1 as int];
            after == AppShape {
                operations_epochs: with_operation(
                    before.operations_epochs,
                    index.0 as int,
                    index.1 as int,
                    OperationShape { stderr: operation.stderr + stderr@ + seq!['\n'], ..operation },
                ),
                ..before
            }
        },
        AppUpdate::OperationApplyComplete { index, error } => {
            let operation = before.operations_epochs[index.0 as int][index.1 as int];
            after == AppShape {
                operations_epochs: with_operation(
                    before.operations_epochs,
                    index.0 as int,
                    index.1 as int,
                    OperationShape { is_complete: true, error: option_text(error), ..operation },
                ),
                ..before
            }
        },
        AppUpdate::OperationsApplyComplete => after == AppShape { phase: Phase::Done, ..before },
    }
}

/// What an update makes of a view: the view that follows, or why the
/// update is refused.
pub open spec fn updated(
    before: AppShape,
    update: AppUpdate,
    after: Result<AppShape, AppViewError>,
) -> bool {
    match after {
        Ok(after) => {
            &&& before.phase.accepts(update)
            &&& !misses_operation(before, update)
            &&& !misses_slot(before, update)
            &&& !hits_branch(before, update)
            &&& follows(before, update, after)
        },
        Err(AppViewError::InvalidTransition { from, update: refused }) => {
            &&& !before.phase.accepts(update)
            &&& from@ == before.phase.spec_name()
            &&& refused@ == update.spec_name()
        },
        Err(AppViewError::OperationIndexOutOfBounds(e, o)) => {
            &&& before.phase.accepts(update)
            &&& misses_operation(before, update)
            &&& operation_index(update) == Some((e, o))
        },
        Err(AppViewError::FlatTree(FlatViewTreeError::NotALeaf(index))) => {
            &&& before.phase.accepts(update)
            &&& hits_branch(before, update)
            &&& leaf_index(update) == Some(index)
        },
        Err(AppViewError::FlatTree(FlatViewTreeError::IndexOutOfBounds(index))) => {
            &&& before.phase.accepts(update)
            &&& misses_slot(before, update)
            &&& slot_index(update) == Some(index)
        },
        Err(AppViewError::FlatTree(FlatViewTreeError::NodeMissing(_))) => false,
    }
}

} // verus!

verus! {

/// The operations of the epochs before any has started.
fn start_epochs(labels: Vec<Vec<ViewElement>>) -> (epochs: Vec<Vec<OperationView>>)
    ensures
        epoch_shapes(epochs@) == fresh_epochs(labels@),
{
    let ghost all = labels@;
    let mut epochs: Vec<Vec<OperationView>> = Vec::new();
    for epoch_labels in outer: labels
        invariant
            outer.seq() == all,
            epochs.len() == outer.index(),
            forall|e: int|
                0 <= e < outer.index() ==> (#[trigger] epochs[e]).len() == all[e].len()
                    && forall|o: int|
                    0 <= o < all[e].len() ==> (#[trigger] epochs[e][o])@ == fresh_operation(
                        all[e][o],
                    ),
    {
        let ghost row = epoch_labels@;
        assert(epoch_labels == all[outer.index() as int]);
        let mut epoch: Vec<OperationView> = Vec::new();
        for label in inner: epoch_labels
            invariant
                inner.seq() == row,
                epoch.len() == inner.index(),
                forall|o: int|
                    0 <= o < inner.index() ==> (#[trigger] epoch[o])@ == fresh_operation(row[o]),
        {
            assert(label == row[inner.index() as int]);
            epoch.push(OperationView::new(label));
        }
        epochs.push(epoch);
    }
    assert(epoch_shapes(epochs@) =~~= fresh_epochs(all)) by {
        assert forall|e: int| 0 <= e < all.len() implies #[trigger] epoch_shapes(epochs@)[e]
            =~= fresh_epochs(all)[e] by {
            assert(epochs[e].len() == all[e].len());
            assert forall|o: int| 0 <= o < all[e].len() implies epoch_shapes(epochs@)[e][o]
                == fresh_epochs(all)[e][o] by {
                assert(epochs[e][o]@ == fresh_operation(all[e][o]));
            }
        }
    }
    epochs
}

/// Whether the operation at place `o` of epoch `e` exists.
fn holds_operation(epochs: &Vec<Vec<OperationView>>, e: usize, o: usize) -> (holds: bool)
    ensures
        holds == has_operation(epoch_shapes(epochs@), e as int, o as int),
{
    e < epochs.len() && o < epochs[e].len()
}

/// The epochs with one operation changed are the epochs with its shape replaced.
proof fn lemma_epoch_shapes_update(
    before: Seq<Vec<OperationView>>,
    after: Seq<Vec<OperationView>>,
    e: int,
    o: int,
)
    requires
        0 <= e < before.len(),
        0 <= o < before[e].len(),
        after.len() == before.len(),
        after[e].len() == before[e].len(),
        forall|i: int| 0 <= i < before.len() && i != e ==> after[i] == before[i],
        forall|j: int| 0 <= j < before[e].len() && j != o ==> after[e][j] == before[e][j],
    ensures
        epoch_shapes(after) == with_operation(epoch_shapes(before), e, o, after[e][o]@),
{
    let left = epoch_shapes(after);
    let right = with_operation(epoch_shapes(before), e, o, after[e][o]@);
    assert forall|i: int| 0 <= i < left.len() implies #[trigger] left[i] =~= right[i] by {}
    assert(left =~= right);
}

/// Forgets what the operation printed so far.
fn restart_operation(epochs: &mut Vec<Vec<OperationView>>, e: usize, o: usize)
    requires
        has_operation(epoch_shapes(old(epochs)@), e as int, o as int),
    ensures
        epoch_shapes(final(epochs)@) == with_operation(
            epoch_shapes(old(epochs)@),
            e as int,
            o as int,
            OperationShape {
                stdout: Seq::empty(),
                stderr: Seq::empty(),
                is_complete: false,
                ..epoch_shapes(old(epochs)@)[e as int][o as int]
            },
        ),
{
    let epoch = &mut epochs[e];
    let operation = &mut epoch[o];
    operation.stdout = String::new();
    operation.stderr = String::new();
    operation.is_complete = false;
    proof {
        lemma_epoch_shapes_update(old(epochs)@, epochs@, e as int, o as int);
    }
}

/// Adds a line to what the operation printed.
fn print_line(epochs: &mut Vec<Vec<OperationView>>, e: usize, o: usize, line: &str, to_stderr: bool)
    requires
        has_operation(epoch_shapes(old(epochs)@), e as int, o as int),
    ensures
        epoch_shapes(final(epochs)@) == with_operation(
            epoch_shapes(old(epochs)@),
            e as int,
            o as int,
            if to_stderr {
                OperationShape {
                    stderr: epoch_shapes(old(epochs)@)[e as int][o as int].stderr + line@
                        + seq!['\n'],
                    ..epoch_shapes(old(epochs)@)[e as int][o as int]
                }
            } else {
                OperationShape {
                    stdout: epoch_shapes(old(epochs)@)[e as int][o as int].stdout + line@
                        + seq!['\n'],
                    ..epoch_shapes(old(epochs)@)[e as int][o as int]
                }
            },
        ),
{
    proof {
        reveal_strlit("\n");
        assert("\n"@ =~= seq!['\n']);
    }
    let epoch = &mut epochs[e];
    let operation = &mut epoch[o];
    if to_stderr {
        operation.stderr.append(line);
        operation.stderr.append("\n");
    } else {
        operation.stdout.append(line);
        operation.stdout.append("\n");
    }
    proof {
        lemma_epoch_shapes_update(old(epochs)@, epochs@, e as int, o as int);
    }
}

/// Marks the operation as complete, with its error if it failed.
fn complete_operation(
    epochs: &mut Vec<Vec<OperationView>>,
    e: usize,
    o: usize,
    error: Option<String>,
)
    requires
        has_operation(epoch_shapes(old(epochs)@), e as int, o as int),
    ensures
        epoch_shapes(final(epochs)@) == with_operation(
            epoch_shapes(old(epochs)@),
            e as int,
            o as int,
            OperationShape {
                is_complete: true,
                error: option_text(error),
                ..epoch_shapes(old(epochs)@)[e as int][o as int]
            },
        ),
{
    let epoch = &mut epochs[e];
    let operation = &mut epoch[o];
    operation.is_complete = true;
    operation.error = error;
    proof {
        lemma_epoch_shapes_update(old(epochs)@, epochs@, e as int, o as int);
    }
}

} // verus!

verus! {

impl Default for AppView {
    fn default() -> (view: Self)
        ensures
            view == AppView::Start,
    {
        AppView::Start
    }
}

impl AppView {
    /// The phase that the view is in.
    pub fn phase(&self) -> (phase: Phase)
        ensures
            phase == self@.phase,
    {
        match self {
            AppView::Start => Phase::Start,
            AppView::ResourceParams { .. } => Phase::ResourceParams,
            AppView::Resources { .. } => Phase::Resources,
            AppView::ResourceStates { .. } => Phase::ResourceStates,
            AppView::ResourceChanges { .. } => Phase::ResourceChanges,
            AppView::Operations { .. } => Phase::Operations,
            AppView::OperationsApply { .. } => Phase::OperationsApply,
            AppView::Done { .. } => Phase::Done,
        }
    }

    /// The step of a view before anything was reported.
    fn step_start(self, update: AppUpdate) -> (next: Result<AppView, (AppView, AppViewError)>)
        requires
            self is Start,
        ensures
            match next {
                Ok(after) => updated(self@, update, Ok(after@)),
                Err((before, error)) => before == self && updated(self@, update, Err(error)),
            },
    {
        match (self, update) {
            (AppView::Start, AppUpdate::ResourceParams { resource_params }) => Ok(AppView::ResourceParams { resource_params: FlatViewTree::from_view_tree_completed(resource_params) }),
            (state, update) => {
                let from = state.phase().name();
                let refused = update.name();
                Err((state, AppViewError::InvalidTransition { from, update: refused }))
            },
        }
    }

    /// The step of a view once the plan is known.
    fn step_resource_params(self, update: AppUpdate) -> (next: Result<AppView, (AppView, AppViewError)>)
        requires
            self is ResourceParams,
        ensures
            match next {
                Ok(after) => updated(self@, update, Ok(after@)),
                Err((before, error)) => before == self && updated(self@, update, Err(error)),
            },
    {
        match (self, update) {
            (AppView::ResourceParams { resource_params }, AppUpdate::ResourcesStart) => { let resources = resource_params.template(); Ok(AppView::Resources { resource_params, resources }) },
            (state, update) => {
                let from = state.phase().name();
                let refused = update.name();
                Err((state, AppViewError::InvalidTransition { from, update: refused }))
            },
        }
    }

    /// The step of a view while the resources are listed.
    fn step_resources(self, update: AppUpdate) -> (next: Result<AppView, (AppView, AppViewError)>)
        requires
            self is Resources,
        ensures
            match next {
                Ok(after) => updated(self@, update, Ok(after@)),
                Err((before, error)) => before == self && updated(self@, update, Err(error)),
            },
    {
        match (self, update) {
            (AppView::Resources { resource_params, mut resources }, AppUpdate::ResourcesNode { index, tree }) => match resources.replace_subtree_completed(index, tree) { Ok(()) => Ok(AppView::Resources { resource_params, resources }), Err(error) => Err((AppView::Resources { resource_params, resources }, AppViewError::FlatTree(error))), },
            (AppView::Resources { resource_params, resources }, AppUpdate::ResourcesComplete) => Ok(AppView::Resources { resource_params, resources }),
            (AppView::Resources { resource_params, resources }, AppUpdate::ResourceStatesStart) => { let resource_states = resources.template(); Ok(AppView::ResourceStates { resource_params, resources, resource_states }) },
            (state, update) => {
                let from = state.phase().name();
                let refused = update.name();
                Err((state, AppViewError::InvalidTransition { from, update: refused }))
            },
        }
    }

    /// The step of a view while the states are observed.
    fn step_resource_states(self, update: AppUpdate) -> (next: Result<AppView, (AppView, AppViewError)>)
        requires
            self is ResourceStates,
        ensures
            match next {
                Ok(after) => updated(self@, update, Ok(after@)),
                Err((before, error)) => before == self && updated(self@, update, Err(error)),
            },
    {
        match (self, update) {
            (AppView::ResourceStates { resource_params, resources, mut resource_states }, AppUpdate::ResourceStatesNodeStart { index }) => match resource_states.set_leaf_started(index) { Ok(()) => Ok(AppView::ResourceStates { resource_params, resources, resource_states }), Err(error) => Err((AppView::ResourceStates { resource_params, resources, resource_states }, AppViewError::FlatTree(error))), },
            (AppView::ResourceStates { resource_params, resources, mut resource_states }, AppUpdate::ResourceStatesNodeComplete { index, node }) => match resource_states.set_leaf_view(index, ViewNode::Complete(node)) { Ok(()) => Ok(AppView::ResourceStates { resource_params, resources, resource_states }), Err(error) => Err((AppView::ResourceStates { resource_params, resources, resource_states }, AppViewError::FlatTree(error))), },
            (AppView::ResourceStates { resource_params, resources, resource_states }, AppUpdate::ResourceStatesComplete) => Ok(AppView::ResourceStates { resource_params, resources, resource_states }),
            (AppView::ResourceStates { resource_params, resources, resource_states }, AppUpdate::ResourceChangesStart) => { let resource_changes = resource_states.template(); let has_changes: Option<bool> = None; Ok(AppView::ResourceChanges { resource_params, resources, resource_states, resource_changes, has_changes }) },
            (state, update) => {
                let from = state.phase().name();
                let refused = update.name();
                Err((state, AppViewError::InvalidTransition { from, update: refused }))
            },
        }
    }

    /// The step of a view while the changes are computed.
    fn step_resource_changes(self, update: AppUpdate) -> (next: Result<AppView, (AppView, AppViewError)>)
        requires
            self is ResourceChanges,
        ensures
            match next {
                Ok(after) => updated(self@, update, Ok(after@)),
                Err((before, error)) => before == self && updated(self@, update, Err(error)),
            },
    {
        match (self, update) {
            (AppView::ResourceChanges { resource_params, resources, resource_states, mut resource_changes, has_changes }, AppUpdate::ResourceChangesNode { index, node }) => match node {
                    Some(view) => match resource_changes.set_leaf_view(index, ViewNode::Complete(view)) {
                        Ok(()) => Ok(AppView::ResourceChanges { resource_params, resources, resource_states, resource_changes, has_changes }),
                        Err(error) => Err((AppView::ResourceChanges { resource_params, resources, resource_states, resource_changes, has_changes }, AppViewError::FlatTree(error))),
                    },
                    None => match resource_changes.set_node_none(index) {
                        Ok(()) => Ok(AppView::ResourceChanges { resource_params, resources, resource_states, resource_changes, has_changes }),
                        Err(error) => Err((AppView::ResourceChanges { resource_params, resources, resource_states, resource_changes, has_changes }, AppViewError::FlatTree(error))),
                    },
                },
            (AppView::ResourceChanges { resource_params, resources, resource_states, resource_changes, has_changes: _ }, AppUpdate::ResourceChangesComplete { has_changes: changed }) => { let has_changes = Some(changed); Ok(AppView::ResourceChanges { resource_params, resources, resource_states, resource_changes, has_changes }) },
            (AppView::ResourceChanges { resource_params, resources, resource_states, resource_changes, has_changes }, AppUpdate::OperationsStart) => { let operations_tree = resource_changes.template(); Ok(AppView::Operations { resource_params, resources, resource_states, resource_changes, has_changes, operations_tree }) },
            (state, update) => {
                let from = state.phase().name();
                let refused = update.name();
                Err((state, AppViewError::InvalidTransition { from, update: refused }))
            },
        }
    }

    /// The step of a view while the operations are listed.
    fn step_operations(self, update: AppUpdate) -> (next: Result<AppView, (AppView, AppViewError)>)
        requires
            self is Operations,
        ensures
            match next {
                Ok(after) => updated(self@, update, Ok(after@)),
                Err((before, error)) => before == self && updated(self@, update, Err(error)),
            },
    {
        match (self, update) {
            (AppView::Operations { resource_params, resources, resource_states, resource_changes, has_changes, mut operations_tree }, AppUpdate::OperationsNode { index, operations }) => match operations_tree.replace_subtree_completed(index, operations) { Ok(()) => Ok(AppView::Operations { resource_params, resources, resource_states, resource_changes, has_changes, operations_tree }), Err(error) => Err((AppView::Operations { resource_params, resources, resource_states, resource_changes, has_changes, operations_tree }, AppViewError::FlatTree(error))), },
            (AppView::Operations { resource_params, resources, resource_states, resource_changes, has_changes, operations_tree }, AppUpdate::OperationsComplete) => Ok(AppView::Operations { resource_params, resources, resource_states, resource_changes, has_changes, operations_tree }),
            (AppView::Operations { resource_params, resources, resource_states, resource_changes, has_changes, operations_tree }, AppUpdate::OperationsApplyStart { operations }) => { let operations_epochs = start_epochs(operations); Ok(AppView::OperationsApply { resource_params, resources, resource_states, resource_changes, has_changes, operations_tree, operations_epochs }) },
            (state, update) => {
                let from = state.phase().name();
                let refused = update.name();
                Err((state, AppViewError::InvalidTransition { from, update: refused }))
            },
        }
    }

    /// The step of a view while the operations are applied.
    fn step_operations_apply(self, update: AppUpdate) -> (next: Result<AppView, (AppView, AppViewError)>)
        requires
            self is OperationsApply,
        ensures
            match next {
                Ok(after) => updated(self@, update, Ok(after@)),
                Err((before, error)) => before == self && updated(self@, update, Err(error)),
            },
    {
        match (self, update) {
            (AppView::OperationsApply { resource_params, resources, resource_states, resource_changes, has_changes, operations_tree, mut operations_epochs }, AppUpdate::OperationApplyStart { index }) => {
                let (e, o) = index;
                if !holds_operation(&operations_epochs, e, o) {
                    return Err((AppView::OperationsApply { resource_params, resources, resource_states, resource_changes, has_changes, operations_tree, operations_epochs }, AppViewError::OperationIndexOutOfBounds(e, o)));
                }
                restart_operation(&mut operations_epochs, e, o);
                Ok(AppView::OperationsApply { resource_params, resources, resource_states, resource_changes, has_changes, operations_tree, operations_epochs })
            },
            (AppView::OperationsApply { resource_params, resources, resource_states, resource_changes, has_changes, operations_tree, mut operations_epochs }, AppUpdate::OperationApplyStdout { index, stdout }) => {
                let (e, o) = index;
                if !holds_operation(&operations_epochs, e, o) {
                    return Err((AppView::OperationsApply { resource_params, resources, resource_states, resource_changes, has_changes, operations_tree, operations_epochs }, AppViewError::OperationIndexOutOfBounds(e, o)));
                }
                print_line(&mut operations_epochs, e, o, stdout.as_str(), false);
                Ok(AppView::OperationsApply { resource_params, resources, resource_states, resource_changes, has_changes, operations_tree, operations_epochs })
            },
            (AppView::OperationsApply { resource_params, resources, resource_states, resource_changes, has_changes, operations_tree, mut operations_epochs }, AppUpdate::OperationApplyStderr { index, stderr }) => {
                let (e, o) = index;
                if !holds_operation(&operations_epochs, e, o) {
                    return Err((AppView::OperationsApply { resource_params, resources, resource_states, resource_changes, has_changes, operations_tree, operations_epochs }, AppViewError::OperationIndexOutOfBounds(e, o)));
                }
                print_line(&mut operations_epochs, e, o, stderr.as_str(), true);
                Ok(AppView::OperationsApply { resource_params, resources, resource_states, resource_changes, has_changes, operations_tree, operations_epochs })
            },
            (AppView::OperationsApply { resource_params, resources, resource_states, resource_changes, has_changes, operations_tree, mut operations_epochs }, AppUpdate::OperationApplyComplete { index, error }) => {
                let (e, o) = index;
                if !holds_operation(&operations_epochs, e, o) {
                    return Err((AppView::OperationsApply { resource_params, resources, resource_states, resource_changes, has_changes, operations_tree, operations_epochs }, AppViewError::OperationIndexOutOfBounds(e, o)));
                }
                complete_operation(&mut operations_epochs, e, o, error);
                Ok(AppView::OperationsApply { resource_params, resources, resource_states, resource_changes, has_changes, operations_tree, operations_epochs })
            },
            (AppView::OperationsApply { resource_params, resources, resource_states, resource_changes, has_changes, operations_tree, operations_epochs }, AppUpdate::OperationsApplyComplete) => Ok(AppView::Done { resource_params, resources, resource_states, resource_changes, has_changes, operations_tree, operations_epochs }),
            (state, update) => {
                let from = state.phase().name();
                let refused = update.name();
                Err((state, AppViewError::InvalidTransition { from, update: refused }))
            },
        }
    }

    /// The view after `update`, or the view as it was together with the
    /// reason why the update is refused.
    pub fn step(self, update: AppUpdate) -> (next: Result<AppView, (AppView, AppViewError)>)
        ensures
            match next {
                Ok(after) => updated(self@, update, Ok(after@)),
                Err((before, error)) => before == self && updated(self@, update, Err(error)),
            },
    {
        match self.phase() {
            Phase::Start => self.step_start(update),
            Phase::ResourceParams => self.step_resource_params(update),
            Phase::Resources => self.step_resources(update),
            Phase::ResourceStates => self.step_resource_states(update),
            Phase::ResourceChanges => self.step_resource_changes(update),
            Phase::Operations => self.step_operations(update),
            Phase::OperationsApply => self.step_operations_apply(update),
            Phase::Done => {
                let from = self.phase().name();
                let refused = update.name();
                Err((self, AppViewError::InvalidTransition { from, update: refused }))
            },
        }
    }

    /// The view after `update`.
    pub fn update(self, update: AppUpdate) -> (next: Result<AppView, AppViewError>)
        ensures
            match next {
                Ok(after) => updated(self@, update, Ok(after@)),
                Err(error) => updated(self@, update, Err(error)),
            },
    {
        match self.step(update) {
            Ok(after) => Ok(after),
            Err((_, error)) => Err(error),
        }
    }

    /// Takes `update` in. A refused update leaves the view as it was.
    pub fn try_update(&mut self, update: AppUpdate) -> (done: Result<(), AppViewError>)
        ensures
            match done {
                Ok(()) => updated(old(self)@, update, Ok(final(self)@)),
                Err(error) => *final(self) == *old(self) && updated(old(self)@, update, Err(error)),
            },
    {
        let mut state = AppView::Start;
        core::mem::swap(self, &mut state);
        match state.step(update) {
            Ok(after) => {
                *self = after;
                Ok(())
            },
            Err((before, error)) => {
                *self = before;
                Err(error)
            },
        }
    }
}

} // verus!

verus! {

impl AppView {
    /// The tree of the parameters, once the plan is known.
    pub fn resource_params(&self) -> (found: Option<&FlatViewTree>)
        ensures
            found is Some <==> self@.phase.rank() >= 1,
            found matches Some(tree) ==> tree@ == self@.resource_params,
    {
        match self {
            AppView::Start => None,
            AppView::ResourceParams { resource_params, .. } | AppView::Resources { resource_params, .. } | AppView::ResourceStates { resource_params, .. } | AppView::ResourceChanges { resource_params, .. } | AppView::Operations { resource_params, .. } | AppView::OperationsApply { resource_params, .. } | AppView::Done { resource_params, .. } => Some(resource_params),
        }
    }

    /// The tree of the resources, once they are listed.
    pub fn resources(&self) -> (found: Option<&FlatViewTree>)
        ensures
            found is Some <==> self@.phase.rank() >= 2,
            found matches Some(tree) ==> tree@ == self@.resources,
    {
        match self {
            AppView::Start | AppView::ResourceParams { .. } => None,
            AppView::Resources { resources, .. } | AppView::ResourceStates { resources, .. } | AppView::ResourceChanges { resources, .. } | AppView::Operations { resources, .. } | AppView::OperationsApply { resources, .. } | AppView::Done { resources, .. } => Some(resources),
        }
    }

    /// The tree of the states, once they are observed.
    pub fn resource_states(&self) -> (found: Option<&FlatViewTree>)
        ensures
            found is Some <==> self@.phase.rank() >= 3,
            found matches Some(tree) ==> tree@ == self@.resource_states,
    {
        match self {
            AppView::Start | AppView::ResourceParams { .. } | AppView::Resources { .. } => None,
            AppView::ResourceStates { resource_states, .. } | AppView::ResourceChanges { resource_states, .. } | AppView::Operations { resource_states, .. } | AppView::OperationsApply { resource_states, .. } | AppView::Done { resource_states, .. } => Some(resource_states),
        }
    }

    /// The tree of the changes, once they are computed.
    pub fn resource_changes(&self) -> (found: Option<&FlatViewTree>)
        ensures
            found is Some <==> self@.phase.rank() >= 4,
            found matches Some(tree) ==> tree@ == self@.resource_changes,
    {
        match self {
            AppView::Start | AppView::ResourceParams { .. } | AppView::Resources { .. } | AppView::ResourceStates { .. } => None,
            AppView::ResourceChanges { resource_changes, .. } | AppView::Operations { resource_changes, .. } | AppView::OperationsApply { resource_changes, .. } | AppView::Done { resource_changes, .. } => Some(resource_changes),
        }
    }

    /// The tree of the operations, once they are listed.
    pub fn operations_tree(&self) -> (found: Option<&FlatViewTree>)
        ensures
            found is Some <==> self@.phase.rank() >= 5,
            found matches Some(tree) ==> tree@ == self@.operations_tree,
    {
        match self {
            AppView::Start | AppView::ResourceParams { .. } | AppView::Resources { .. } | AppView::ResourceStates { .. } | AppView::ResourceChanges { .. } => None,
            AppView::Operations { operations_tree, .. } | AppView::OperationsApply { operations_tree, .. } | AppView::Done { operations_tree, .. } => Some(operations_tree),
        }
    }

    /// The operations by epoch, once they are applied.
    pub fn operations_epochs(&self) -> (found: Option<&Vec<Vec<OperationView>>>)
        ensures
            found is Some <==> self@.phase.rank() >= 6,
            found matches Some(epochs) ==> epoch_shapes(epochs@) == self@.operations_epochs,
    {
        match self {
            AppView::Start | AppView::ResourceParams { .. } | AppView::Resources { .. } | AppView::ResourceStates { .. } | AppView::ResourceChanges { .. } | AppView::Operations { .. } => None,
            AppView::OperationsApply { operations_epochs, .. } | AppView::Done { operations_epochs, .. } => Some(operations_epochs),
        }
    }

}

} // verus!

verus! {

/// An update that is taken in leaves the view in its phase or takes it to
/// the next: no phase is left out, and none is gone back to.
pub proof fn lemma_phase_goes_forward(before: AppShape, update: AppUpdate, after: AppShape)
    requires
        updated(before, update, Ok(after)),
    ensures
        after.phase == before.phase.after(update),
        before.phase.rank() <= after.phase.rank() <= before.phase.rank() + 1,
{
}

/// The views that a transcript leads through: the first has the phase of
/// the start, and every update is taken in and leads to the next view.
pub open spec fn leads_through(views: Seq<AppShape>, updates: Seq<AppUpdate>) -> bool {
    &&& views.len() == updates.len() + 1
    &&& views[0].phase == Phase::Start
    &&& forall|i: int|
        0 <= i < updates.len() ==> updated(views[i], #[trigger] updates[i], Ok(views[i + 1]))
}

/// After every part of a transcript the view has reached every phase that
/// it had reached before, and no more phases than updates were taken in.
pub proof fn lemma_phases_accumulate(
    views: Seq<AppShape>,
    updates: Seq<AppUpdate>,
    earlier: int,
    later: int,
)
    requires
        leads_through(views, updates),
        0 <= earlier <= later <= updates.len(),
    ensures
        views[earlier].phase.rank() <= views[later].phase.rank() <= later,
    decreases later,
{
    if later > 0 {
        assert(updated(views[later - 1], updates[later - 1], Ok(views[later])));
        lemma_phase_goes_forward(views[later - 1], updates[later - 1], views[later]);
        if earlier < later {
            lemma_phases_accumulate(views, updates, earlier, later - 1);
        } else {
            lemma_phases_accumulate(views, updates, later - 1, later - 1);
        }
    }
}

} // verus!
