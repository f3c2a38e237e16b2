//! Flowmark: a Markdown auto-formatter for clean diffs and semantic line breaks.

pub mod escape_placeholders;
pub mod frontmatter;
pub mod text;
pub mod regex_scan;
pub mod wrapping;
pub mod typography;
pub mod settings;
pub mod formatter;
pub mod preservation;
pub mod error;
pub mod file_resolver;
pub mod config;
pub mod incremental_cache;
pub mod skills;
pub mod cli;
