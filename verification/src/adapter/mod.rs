//! The edges of the lake: where records come from, and where derived records are written back to.

pub mod conformance;
pub mod conformance_laws;
pub mod error;
pub mod writeback;
