//! The observation lake in memory.

pub mod store;
pub mod store_laws;
