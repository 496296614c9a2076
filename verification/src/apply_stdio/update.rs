//! The updates that the apply engine reports, one per line.

use crate::view::{ViewElement, ViewTree};
use vstd::prelude::*;
use vstd::string::StringExecFns;

verus! {

/// One update of the progress of an apply. The `index` of a node update is
/// a slot of the flat tree of its stage; the `index` of an operation is its
/// epoch and its place within the epoch.
#[derive(Debug)]
pub enum AppUpdate {
    ResourceParams { resource_params: ViewTree },
    ResourcesStart,
    ResourcesNode { index: usize, tree: ViewTree },
    ResourcesComplete,
    ResourceStatesStart,
    ResourceStatesNodeStart { index: usize },
    ResourceStatesNodeComplete { index: usize, node: ViewElement },
    ResourceStatesComplete,
    ResourceChangesStart,
    ResourceChangesNode { index: usize, node: Option<ViewElement> },
    ResourceChangesComplete { has_changes: bool },
    OperationsStart,
    OperationsNode { index: usize, operations: ViewTree },
    OperationsComplete,
    OperationsApplyStart { operations: Vec<Vec<ViewElement>> },
    OperationApplyStart { index: (usize, usize) },
    OperationApplyStdout { index: (usize, usize), stdout: String },
    OperationApplyStderr { index: (usize, usize), stderr: String },
    OperationApplyComplete { index: (usize, usize), error: Option<String> },
    OperationsApplyComplete,
}

impl AppUpdate {
    /// The name of the kind of update.
    pub open spec fn spec_name(self) -> Seq<char> {
        match self {
            AppUpdate::ResourceParams { .. } => "ResourceParams"@,
            AppUpdate::ResourcesStart => "ResourcesStart"@,
            AppUpdate::ResourcesNode { .. } => "ResourcesNode"@,
            AppUpdate::ResourcesComplete => "ResourcesComplete"@,
            AppUpdate::ResourceStatesStart => "ResourceStatesStart"@,
            AppUpdate::ResourceStatesNodeStart { .. } => "ResourceStatesNodeStart"@,
            AppUpdate::ResourceStatesNodeComplete { .. } => "ResourceStatesNodeComplete"@,
            AppUpdate::ResourceStatesComplete => "ResourceStatesComplete"@,
            AppUpdate::ResourceChangesStart => "ResourceChangesStart"@,
            AppUpdate::ResourceChangesNode { .. } => "ResourceChangesNode"@,
            AppUpdate::ResourceChangesComplete { .. } => "ResourceChangesComplete"@,
            AppUpdate::OperationsStart => "OperationsStart"@,
            AppUpdate::OperationsNode { .. } => "OperationsNode"@,
            AppUpdate::OperationsComplete => "OperationsComplete"@,
            AppUpdate::OperationsApplyStart { .. } => "OperationsApplyStart"@,
            AppUpdate::OperationApplyStart { .. } => "OperationApplyStart"@,
            AppUpdate::OperationApplyStdout { .. } => "OperationApplyStdout"@,
            AppUpdate::OperationApplyStderr { .. } => "OperationApplyStderr"@,
            AppUpdate::OperationApplyComplete { .. } => "OperationApplyComplete"@,
            AppUpdate::OperationsApplyComplete => "OperationsApplyComplete"@,
        }
    }

    /// The name of the kind of update.
    pub fn name(&self) -> (name: String)
        ensures
            name@ == self.spec_name(),
    {
        let text = match self {
            AppUpdate::ResourceParams { .. } => "ResourceParams",
            AppUpdate::ResourcesStart => "ResourcesStart",
            AppUpdate::ResourcesNode { .. } => "ResourcesNode",
            AppUpdate::ResourcesComplete => "ResourcesComplete",
            AppUpdate::ResourceStatesStart => "ResourceStatesStart",
            AppUpdate::ResourceStatesNodeStart { .. } => "ResourceStatesNodeStart",
            AppUpdate::ResourceStatesNodeComplete { .. } => "ResourceStatesNodeComplete",
            AppUpdate::ResourceStatesComplete => "ResourceStatesComplete",
            AppUpdate::ResourceChangesStart => "ResourceChangesStart",
            AppUpdate::ResourceChangesNode { .. } => "ResourceChangesNode",
            AppUpdate::ResourceChangesComplete { .. } => "ResourceChangesComplete",
            AppUpdate::OperationsStart => "OperationsStart",
            AppUpdate::OperationsNode { .. } => "OperationsNode",
            AppUpdate::OperationsComplete => "OperationsComplete",
            AppUpdate::OperationsApplyStart { .. } => "OperationsApplyStart",
            AppUpdate::OperationApplyStart { .. } => "OperationApplyStart",
            AppUpdate::OperationApplyStdout { .. } => "OperationApplyStdout",
            AppUpdate::OperationApplyStderr { .. } => "OperationApplyStderr",
            AppUpdate::OperationApplyComplete { .. } => "OperationApplyComplete",
            AppUpdate::OperationsApplyComplete => "OperationsApplyComplete",
        };
        String::from_str(text)
    }
}

} // verus!
