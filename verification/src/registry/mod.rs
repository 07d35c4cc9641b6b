//! What is registered in the lake.

pub mod entity_type;
