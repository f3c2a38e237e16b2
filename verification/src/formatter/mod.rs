//! Text-level steps of Markdown filling: fenced code tracking, reference and
//! footnote definition markers, and label encoding.

pub mod fences;
pub mod ref_defs;
pub mod ref_links;
pub mod filling;
pub mod perf;
pub mod escapes;
pub mod protect;
pub mod rewrites;
pub mod text_passes;
pub mod blocks;
pub mod render;
pub mod parse;
pub mod tree_passes;
pub mod dedent;
pub mod markdown;
pub mod fndef;
