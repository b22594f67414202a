//! The stages, in the order in which a document passes through them.

pub mod common;
pub mod stats;
pub mod remove_repetitive_elements;
pub mod compact_lines;
pub mod detect_toc;
pub mod detect_code_blocks;
pub mod detect_headers;
pub mod to_markdown;
