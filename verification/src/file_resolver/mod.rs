//! File discovery settings.

pub mod config;
pub mod matching;
