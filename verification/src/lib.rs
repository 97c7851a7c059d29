//! Semantic extraction for HWP/HWPX documents: a parser-independent Semantic
//! IR and its Markdown and semantic-payload exporters, with loss reporting.

use vstd::prelude::*;

pub mod eqedit;
pub mod error;
pub mod ir;
pub mod loss;
pub mod markdown;
pub mod options;
pub mod parser_adapter;
pub mod payload;
pub mod resources;
pub mod text;

verus! {
} // verus!
