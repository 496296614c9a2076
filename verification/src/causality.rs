//! Causality between the nodes of a tree: who must come before whom, and
//! the layering of the leaves into epochs that respects it.

pub mod epoch;
pub mod graph;
pub mod meta;

pub use epoch::{compute_epochs, EpochError};
pub use meta::{CausalityMeta, CausalityTree, NodeKey};
