//! Inspection of local Parquet files: command-line parsing, row and schema
//! rendering, and the read plans that decide which rows are shown.

pub mod text;
pub mod cli;
pub mod error;
pub mod model;
pub mod format;
pub mod json;
pub mod table;
pub mod schema;
pub mod plan;
pub mod input;
pub mod entry;
