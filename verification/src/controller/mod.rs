pub mod boxes;
pub mod function;
pub mod model_claim;
pub mod node_session;
