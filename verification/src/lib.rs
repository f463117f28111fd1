//! Tagging of files and retrieval of them by queries over their tags.
//!
//! The library holds the data model, the query language, the rules on
//! implications between tags, and the planning of changes to a store of
//! tagged files. Every function carries a contract that is machine-checked.

pub mod errors;
pub mod text;
pub mod path;
pub mod entities;
pub mod query;
pub mod implication;
pub mod tree;
pub mod storage;
pub mod api;
