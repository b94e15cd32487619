//! `graphst` is a library to create and manipulate graphs. It also provides some
//! implementations of popular graph algorithms.
//!
//! Graphs are stored as dense adjacency matrices of integer weights, where a
//! weight of `0` means that there is no edge. Every operation carries a full
//! functional specification, stated over a mathematical view of the matrix.

pub mod graph;
pub use graph::Graph;
pub use graph::GraphError;

pub mod ugraph;
pub use ugraph::UGraph;

pub mod dgraph;
pub use dgraph::DGraph;

pub mod algorithm;
