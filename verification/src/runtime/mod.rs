//! How logical reads and writes of the lake map onto physical leaves.

pub mod keyspec_migration;
pub mod laws;
pub mod partition;
pub mod partition_laws;
pub mod resolver;
pub mod resolver_laws;
pub mod tree;
