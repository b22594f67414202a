//! Reconstruction of document structure from positioned text fragments.
//!
//! A document is a sequence of pages, each an ordered list of text fragments
//! with a position, a size and a font. The stages of this library compute
//! document-wide typography statistics, drop running headers and footers,
//! group fragments into lines, classify lines as code, table-of-contents
//! entries and headings, and render each page as Markdown.
//!
//! All lengths are integers that count thousandths of a layout unit
//! (see [`models::UNIT`]), so every comparison and rounding step is exact.

pub mod models;
pub mod units;
pub mod sorting;
pub mod text;
pub mod pattern;
pub mod unicode;
pub mod words;
pub mod runs;
pub mod fonts;
pub mod markup;
pub mod transformations;
pub mod converter;
