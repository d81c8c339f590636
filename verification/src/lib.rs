pub mod graph;
pub mod laws;
pub mod order;
pub mod points;
pub mod text;
