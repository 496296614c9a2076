//! The progress of an apply: the updates that the engine reports, and the
//! view that a reader of the updates builds from them.

pub mod flat_view_tree;
pub mod update;
pub mod view;

pub use flat_view_tree::{FlatViewTree, FlatViewTreeError, FlatViewTreeNode, ViewNode};
pub use update::AppUpdate;
pub use view::{AppView, AppViewError, OperationView, Phase};
