//! The names of plans and of the nodes of a plan.

use crate::causality::meta::NodeKey;
use crate::paths::{join_path, joined_path, parent_of, parent_path};
use crate::view::{Render, ViewElement, ViewShape};
use vstd::prelude::*;
use vstd::string::StringExecFns;

verus! {

/// Where a plan comes from: a path, or a path in a git repository.
#[derive(Debug, Clone, PartialEq, Eq, PartialOrd, Ord, Hash)]
pub enum PlanId {
    Path(String),
    Git(String, String),
}

/// What identifies a plan.
pub ghost enum PlanKey {
    Path(Seq<char>),
    Git(Seq<char>, Seq<char>),
}

impl View for PlanId {
    type V = PlanKey;

    open spec fn view(&self) -> PlanKey {
        match self {
            PlanId::Path(path) => PlanKey::Path(path@),
            PlanId::Git(url, path) => PlanKey::Git(url@, path@),
        }
    }
}

/// The path `next` as seen from the plan at `current`: joined to the
/// parent of `current`, or to the empty path where it has no parent.
pub open spec fn relative_path(current: Seq<char>, next: Seq<char>) -> Seq<char> {
    joined_path(
        match parent_of(current) {
            Some(directory) => directory,
            None => Seq::empty(),
        },
        next,
    )
}

/// The path `next` as seen from the plan at `current`: joined to the
/// directory of `current`.
fn relative(current: &str, next: &str) -> (path: String)
    ensures
        path@ == relative_path(current@, next@),
{
    match parent_path(current) {
        Some(directory) => join_path(directory.as_str(), next),
        None => {
            let nothing = String::new();
            join_path(nothing.as_str(), next)
        },
    }
}

impl PlanId {
    /// The plan at `path` as seen from this plan: in the same place, at
    /// the path joined to the directory of this plan.
    pub fn join(&self, path: &str) -> (plan: PlanId)
        ensures
            plan@ == match *self {
                PlanId::Path(current) => PlanKey::Path(relative_path(current@, path@)),
                PlanId::Git(url, current) => PlanKey::Git(url@, relative_path(current@, path@)),
            },
    {
        match self {
            PlanId::Path(current) => PlanId::Path(relative(current.as_str(), path)),
            PlanId::Git(url, current) => PlanId::Git(url.clone(), relative(current.as_str(), path)),
        }
    }

    /// The path of a plan that comes from a path.
    pub fn as_path(self) -> (path: Option<String>)
        ensures
            path == match self {
                PlanId::Path(path) => Some(path),
                PlanId::Git(_, _) => None,
            },
    {
        match self {
            PlanId::Path(path) => Some(path),
            PlanId::Git(_, _) => None,
        }
    }

    /// Whether both name the same plan.
    pub fn same_as(&self, other: &Self) -> (same: bool)
        ensures
            same == (self@ == other@),
    {
        match (self, other) {
            (PlanId::Path(a), PlanId::Path(b)) => *a == *b,
            (PlanId::Git(a, c), PlanId::Git(b, d)) => *a == *b && *c == *d,
            _ => false,
        }
    }

    /// Another name of the same plan.
    pub fn duplicate(&self) -> (copy: Self)
        ensures
            copy@ == self@,
    {
        match self {
            PlanId::Path(path) => PlanId::Path(path.clone()),
            PlanId::Git(url, path) => PlanId::Git(url.clone(), path.clone()),
        }
    }

    /// The name as text: `Path(path)` or `Git(url, path)`.
    pub open spec fn spec_label(self) -> Seq<char> {
        match self {
            PlanId::Path(path) => "Path("@ + path@ + ")"@,
            PlanId::Git(url, path) => "Git("@ + url@ + ", "@ + path@ + ")"@,
        }
    }

    /// The name as text.
    pub fn label(&self) -> (text: String)
        ensures
            text@ == self.spec_label(),
    {
        match self {
            PlanId::Path(path) => {
                let mut text = String::from_str("Path(");
                text.append(path.as_str());
                text.append(")");
                text
            },
            PlanId::Git(url, path) => {
                let mut text = String::from_str("Git(");
                text.append(url.as_str());
                text.append(", ");
                text.append(path.as_str());
                text.append(")");
                text
            },
        }
    }
}

/// The name of a node of a plan: a plan, an item of a plan, or an item
/// below an item, which is named within a scope of its own.
#[derive(Debug, Clone, PartialEq, Eq, PartialOrd, Ord, Hash)]
pub enum PlanNodeId {
    Plan(PlanId),
    PlanItem { plan_id: PlanId, item_id: String },
    SubItem { scope_id: String, item_id: String },
}

/// What identifies a node of a plan.
pub ghost enum PlanNodeKey {
    Plan(PlanKey),
    PlanItem { plan: PlanKey, item: Seq<char> },
    SubItem { scope: Seq<char>, item: Seq<char> },
}

impl View for PlanNodeId {
    type V = PlanNodeKey;

    open spec fn view(&self) -> PlanNodeKey {
        match self {
            PlanNodeId::Plan(plan) => PlanNodeKey::Plan(plan@),
            PlanNodeId::PlanItem { plan_id, item_id } => PlanNodeKey::PlanItem {
                plan: plan_id@,
                item: item_id@,
            },
            PlanNodeId::SubItem { scope_id, item_id } => PlanNodeKey::SubItem {
                scope: scope_id@,
                item: item_id@,
            },
        }
    }
}

impl NodeKey for PlanNodeId {
    fn same_as(&self, other: &Self) -> (same: bool) {
        match (self, other) {
            (PlanNodeId::Plan(a), PlanNodeId::Plan(b)) => a.same_as(b),
            (
                PlanNodeId::PlanItem { plan_id: a, item_id: c },
                PlanNodeId::PlanItem { plan_id: b, item_id: d },
            ) => a.same_as(b) && *c == *d,
            (
                PlanNodeId::SubItem { scope_id: a, item_id: c },
                PlanNodeId::SubItem { scope_id: b, item_id: d },
            ) => *a == *b && *c == *d,
            _ => false,
        }
    }

    fn duplicate(&self) -> (copy: Self) {
        match self {
            PlanNodeId::Plan(plan) => PlanNodeId::Plan(plan.duplicate()),
            PlanNodeId::PlanItem { plan_id, item_id } => PlanNodeId::PlanItem {
                plan_id: plan_id.duplicate(),
                item_id: item_id.clone(),
            },
            PlanNodeId::SubItem { scope_id, item_id } => PlanNodeId::SubItem {
                scope_id: scope_id.clone(),
                item_id: item_id.clone(),
            },
        }
    }
}

impl PlanNodeId {
    /// The name as text.
    pub open spec fn spec_label(self) -> Seq<char> {
        match self {
            PlanNodeId::Plan(plan) => "Plan("@ + plan.spec_label() + ")"@,
            PlanNodeId::PlanItem { plan_id, item_id } => "PlanItem(plan = "@
                + plan_id.spec_label() + ", item = "@ + item_id@ + ")"@,
            PlanNodeId::SubItem { scope_id, item_id } => "SubItem(scope = "@ + scope_id@
                + ", item = "@ + item_id@ + ")"@,
        }
    }

    /// The name as text.
    pub fn label(&self) -> (text: String)
        ensures
            text@ == self.spec_label(),
    {
        match self {
            PlanNodeId::Plan(plan) => {
                let mut text = String::from_str("Plan(");
                text.append(plan.label().as_str());
                text.append(")");
                text
            },
            PlanNodeId::PlanItem { plan_id, item_id } => {
                let mut text = String::from_str("PlanItem(plan = ");
                text.append(plan_id.label().as_str());
                text.append(", item = ");
                text.append(item_id.as_str());
                text.append(")");
                text
            },
            PlanNodeId::SubItem { scope_id, item_id } => {
                let mut text = String::from_str("SubItem(scope = ");
                text.append(scope_id.as_str());
                text.append(", item = ");
                text.append(item_id.as_str());
                text.append(")");
                text
            },
        }
    }
}

impl Render for PlanNodeId {
    /// A line with the name.
    fn render(&self) -> (view: ViewElement)
        ensures
            view@ == ViewShape::Line(self.spec_label()),
    {
        ViewElement::Line(self.label())
    }
}

} // verus!
