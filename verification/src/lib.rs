//! A directed graph with labelled vertices, kept in memory and verified
//! with Verus.
//!
//! [`graph::Graph`] is the graph itself. [`model::GraphView`] is its
//! mathematical value, over which the contracts of the graph's functions are
//! stated, together with what holds of the operations on it.

mod adjacency;
pub mod graph;
pub mod model;
mod pair_set;
pub mod sequence;
