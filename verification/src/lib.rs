//! A clock tree is a directed graph of signal-processing blocks that carries a
//! frequency from its sources to its sinks. This crate holds the data model of
//! such a tree, the rules that keep it well formed, and the placement of its
//! vertices on a canvas.
//!
//! - `types`: frequencies, the constraints on them, endpoints and blocks.
//! - `model`: a tree as a mathematical value, and what holds of it.
//! - `tree`: the tree itself, which can only be edited within the port limits
//!   of its blocks.
//! - `graphics`: where each vertex stands on a canvas.
//! - `codec`: the structured form in which values, endpoints and blocks are
//!   stored.
//! - `text`: numbers as text.
//! - `stable_graph`: the `petgraph` storage under the tree, and what is taken
//!   for granted about it.

pub mod codec;
pub mod graphics;
pub mod model;
pub mod stable_graph;
pub mod text;
pub mod tree;
pub mod types;
