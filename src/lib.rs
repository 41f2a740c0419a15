pub mod built_in_nodes;
pub mod deps;
pub mod error;
pub mod execution;
pub mod laws;
pub mod node_data;
pub mod node_instance;
pub mod state;
pub mod table;
pub mod value;
pub mod wiring;
