//! A declarative configuration engine: from a plan to the operations that
//! bring a host to the state that the plan describes, in an order that
//! respects what depends on what.

pub mod apply;
pub mod apply_stdio;
pub mod causality;
pub mod cmd;
pub mod operation;
pub mod params;
pub mod paths;
pub mod plan;
pub mod resource;
pub mod system;
pub mod text;
pub mod tree;
pub mod view;
pub mod vm;
