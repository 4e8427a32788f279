//! A lightweight document database: collections of JSON documents with
//! filtering queries, sorting and paging, per-field indexes and the pure
//! parts of storage layout and HTTP request handling.

pub mod number;
pub mod text;
pub mod storage;
pub mod errors;
pub mod api;
pub mod config;
pub mod json;
pub mod document;
pub mod query;
pub mod clock;
pub mod index;
pub mod collection;
pub mod dashmaps;
pub mod database;
pub mod laws;
