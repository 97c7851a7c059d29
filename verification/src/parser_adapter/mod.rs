//! Lowering of parsed paragraph data into the Semantic IR.
//!
//! The parser's paragraph and style records are held here as plain values
//! (`model`), so the lowering logic is independent of the parser crate.

pub mod inline;
pub mod model;
pub mod resources;
