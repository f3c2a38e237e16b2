//! Source preservation for Markdown constructs Flowmark recognizes but does
//! not model: regions are replaced by tokens before parsing and restored
//! verbatim afterwards, failing closed on anything unexpected.

pub mod model;
pub mod normalization;
pub mod tokens;
pub mod bridge;
pub mod inline_scan;
pub mod lines;
pub mod scanner;
pub mod round_trip;
