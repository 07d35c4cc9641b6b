//! The durable lake: what is decided between its reads and its writes.

pub mod blobs;
pub mod cutover;
pub mod cutover_laws;
pub mod error;
pub mod generations;
pub mod generations_laws;
pub mod identity;
pub mod identity_laws;
pub mod inventory;
pub mod inventory_laws;
pub mod operational;
pub mod operational_laws;
pub mod pages;
pub mod partition_log;
pub mod partition_log_laws;
pub mod projection;
pub mod projection_laws;
pub mod refusal_laws;
pub mod request_laws;
pub mod schema;
pub mod schema_laws;
pub mod secrets;
pub mod slack;
pub mod slack_laws;
pub mod sql;
pub mod storage_laws;
