pub mod value;
pub mod key;
pub mod graph;
pub mod laws;
