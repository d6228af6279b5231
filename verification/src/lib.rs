//! Ingestion pipeline for tabular and semi-structured text.
//!
//! The library turns a decoded input text (CSV, JSON-lines, LTSV,
//! regex-delimited or whitespace-delimited "simple" text) into a plan of SQL
//! statements that materialize the rows as a single relational table, and
//! decides, from file timestamps and a stored format fingerprint, whether a
//! previously built table can be reused.

pub mod app_options;
pub mod cache;
pub mod csv;
pub mod errors;
pub mod loader;
pub mod ltsv;
pub mod pattern;
pub mod pipeline;
pub mod plan;
pub mod simple;
pub mod types;
pub mod ui;
pub mod json;
pub mod sql;
pub mod text;
