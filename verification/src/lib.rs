//! The lake's decision logic: where observations are routed, stored, deduplicated, migrated
//! and read back, with every rule stated as a contract and proved.

pub mod adapter;
pub mod attribute_inventory;
pub mod attribute_inventory_laws;
pub mod binary64;
pub mod digest;
pub mod domain;
pub mod inventory_review;
pub mod inventory_review_laws;
pub mod json;
pub mod json_laws;
pub mod lake;
pub mod persistence;
pub mod profile;
pub mod profile_laws;
pub mod qa;
pub mod qa_laws;
pub mod registry;
pub mod result_laws;
pub mod runtime;
pub mod sorting;
pub mod text;
pub mod text_laws;
pub mod text_map;
pub mod time;
