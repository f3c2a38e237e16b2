//! Line wrapping, sentence splitting, and text processing.

pub mod block_heuristics;
pub mod tag_handling;
pub mod atomic_patterns;
pub mod text_wrapping;
pub mod sentence;
pub mod text_filling;
pub mod atomic_sentences;
pub mod line_wrappers;
pub mod protected_wrapping;
