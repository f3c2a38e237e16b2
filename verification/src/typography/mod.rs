//! Typography: ellipses and smart quotes.

pub mod ellipses;
pub mod quotes;
