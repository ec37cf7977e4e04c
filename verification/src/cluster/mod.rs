pub mod node;
pub mod state;
