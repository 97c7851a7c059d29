//! Tables of the Semantic IR.

use vstd::prelude::*;

use super::block::Block;
use super::inline::Inline;
use super::prov::Prov;

verus! {

/// One cell of a table grid, anchored at `(row, col)`.
#[derive(Debug)]
pub struct TableCell {
    pub row: u16,
    pub col: u16,
    pub row_span: u16,
    pub col_span: u16,
    pub is_header: bool,
    pub content: Vec<Block>,
}

/// A table: grid size, optional caption and anchored cells.
#[derive(Debug)]
pub struct Table {
    pub rows: u16,
    pub cols: u16,
    pub caption: Option<Vec<Inline>>,
    pub prov: Option<Prov>,
    pub cells: Vec<TableCell>,
}

} // verus!
