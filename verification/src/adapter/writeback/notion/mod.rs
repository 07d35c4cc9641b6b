//! Pages of a Notion database, written from student profiles.

pub mod blocks;
pub mod blocks_laws;
pub mod client;
pub mod client_laws;
pub mod naming;
pub mod pictures;
pub mod properties;
pub mod properties_laws;
