//! Plans: what a plan module hands back, how its items are named, and
//! how the trees that resources and changes expand to are put below them.

pub mod id;
pub mod item;
pub mod model;
pub mod tree;

pub use id::{PlanId, PlanNodeId};
pub use item::{IntoPlanItemError, PlanItem};
pub use tree::{map_plan_subitems, render_plan_tree, PlanMeta, PlanTree};
