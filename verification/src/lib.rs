//! A node of a replicated filesystem.

pub mod actor;
pub mod agreement;
pub mod command;
pub mod config;
pub mod edge_laws;
pub mod mount;
pub mod node_laws;
pub mod repl;
pub mod roster;
pub mod router;
pub mod router_laws;
pub mod shared;
pub mod state_laws;
pub mod store;
pub mod tree;
pub mod tree_laws;
pub mod treestore;
