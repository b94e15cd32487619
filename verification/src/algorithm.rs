//! Implementations of popular graph algorithms.

pub mod dijkstra;

pub use dijkstra::Distance;
pub use dijkstra::dijkstra;
