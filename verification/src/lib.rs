pub mod bits;
pub mod bvalue;
pub mod engine;
pub mod messages;
pub mod node_id;
pub mod scan;
pub mod table;
pub mod wire;
