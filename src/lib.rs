//! Building blocks for graph and grid puzzles: a directed weighted graph built
//! from named vertices, its compression into a bidirectional graph with chains of
//! pass-through vertices contracted, and directions and points on a 2D grid.

/// Compression: chains of pass-through vertices contracted to single edges.
pub mod compress;
/// Directions on a grid.
pub mod dir;
/// Directed and bidirectional graphs, and building a directed graph from named vertices.
pub mod graph;
/// Points on a grid.
pub mod point;
/// Making every edge of a directed graph go both ways.
pub mod symmetrize;

pub use dir::{Dir, CARDINALS};
pub use graph::{BiGraph, Edge, GraphData, GraphError, UniGraph};
pub use point::Point;
