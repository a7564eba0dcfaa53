//! Pattern trees for sets of sample strings.
//!
//! The substrings shared by every sample are extracted, longest first, and
//! arranged under a wildcard root by literal containment of their patterns.
//! The tree can be laid out as a directed graph.

pub mod text;
pub mod escape;
pub mod extract;
pub mod tree;
pub mod graph;

pub use extract::find_common_substrings;
pub use graph::{count_nodes, fits_in_graph, tree_to_graph};
pub use tree::{build_tree, generate_regex_tree, wrap, Node};
