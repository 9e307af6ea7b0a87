//! Metadata engine for a sheet-music library kept in two stores: a relational
//! database and compressed sidecar files read by the sync layer.

pub mod error;
pub mod key;
pub mod text;
pub mod models;
pub mod resolve;
pub mod membership;
pub mod dict;
pub mod mirror;
pub mod edit;
pub mod orchestrate;
pub mod paths;
pub mod metadata;
pub mod exchange;
pub mod fixes;
pub mod search;
