//! Core of a generator for synthetic build-benchmark workspaces.
//!
//! The workspace is a perfect n-ary tree of packages: every node is one
//! library package, addressed by a flat global index.  This crate holds the
//! addressing arithmetic (index to ancestor chain, package path and library
//! name), and the derivation of every file the generator writes: build
//! description files whose dependency lists are exactly the node's children,
//! and stub header/implementation pairs whose imports encode the same edges.
//! Writing the files to disk is left to the surrounding binary.

pub mod arith;
pub mod emit;
pub mod paths;
pub mod text;
pub mod tree;

pub use arith::num_nodes_in_ntree;
pub use paths::package;
pub use tree::ID;
