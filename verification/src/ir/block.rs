//! Block-level nodes of the Semantic IR.

use vstd::prelude::*;

use super::formula::Formula;
use super::inline::Inline;
use super::prov::Prov;
use super::table::{Table, TableCell};

verus! {

/// Which pages a page header or footer applies to.
#[derive(Debug, Clone, Copy, PartialEq, Eq, Structural)]
pub enum HeaderFooterApply {
    All,
    Even,
    Odd,
    First,
}

/// Intrinsic size of a picture, in HWP units.
#[derive(Debug, Clone, Copy, PartialEq, Eq, Structural)]
pub struct Geometry {
    pub width: u32,
    pub height: u32,
}

/// One item of a list: a sequence of blocks.
#[derive(Debug)]
pub struct ListItem {
    pub content: Vec<Block>,
}

/// A block-level node of the Semantic IR.
///
/// `lost` carries a short description of source properties that DocLang
/// cannot express, kept for the preserving export mode.
#[derive(Debug)]
pub enum Block {
    Paragraph { content: Vec<Inline>, lost: Option<String>, prov: Option<Prov> },
    Heading { level: u8, content: Vec<Inline>, lost: Option<String>, prov: Option<Prov> },
    List { ordered: bool, items: Vec<ListItem>, lost: Option<String>, prov: Option<Prov> },
    Table(Table),
    Picture {
        data: Vec<u8>,
        extension: String,
        geometry: Option<Geometry>,
        lost: Option<String>,
        prov: Option<Prov>,
    },
    Formula(Formula),
    PageBreak,
    Footnote { number: usize, content: Vec<Block>, prov: Option<Prov> },
    PageHeader { content: Vec<Block>, apply: HeaderFooterApply, prov: Option<Prov> },
    PageFooter { content: Vec<Block>, apply: HeaderFooterApply, prov: Option<Prov> },
    ThreadStart { thread_id: String },
    ThreadContinuation { thread_id: String },
    Custom { namespace: String, body: String },
}

} // verus!

verus! {

/// Whether every picture in `b`, at any depth, is small enough that its
/// base64 text fits in memory.
pub open spec fn block_encodable(b: Block) -> bool
    decreases b,
{
    match b {
        Block::Picture { data, .. } => crate::resources::base64_fits(data@.len()),
        Block::List { items, .. } => items_encodable(items@),
        Block::Table(t) => cells_encodable(t.cells@),
        Block::Footnote { content, .. } => blocks_encodable(content@),
        Block::PageHeader { content, .. } => blocks_encodable(content@),
        Block::PageFooter { content, .. } => blocks_encodable(content@),
        _ => true,
    }
}

/// [`block_encodable`] for every block of `bs`.
pub open spec fn blocks_encodable(bs: Seq<Block>) -> bool
    decreases bs,
{
    bs.len() == 0 || (blocks_encodable(bs.drop_last()) && block_encodable(bs.last()))
}

/// [`block_encodable`] for every block of every list item.
pub open spec fn items_encodable(items: Seq<ListItem>) -> bool
    decreases items,
{
    items.len() == 0 || (items_encodable(items.drop_last()) && blocks_encodable(
        items.last().content@,
    ))
}

/// [`block_encodable`] for every block of every table cell.
pub open spec fn cells_encodable(cells: Seq<TableCell>) -> bool
    decreases cells,
{
    cells.len() == 0 || (cells_encodable(cells.drop_last()) && blocks_encodable(
        cells.last().content@,
    ))
}

/// Each block of an encodable sequence is encodable.
pub proof fn lemma_blocks_encodable(bs: Seq<Block>)
    requires
        blocks_encodable(bs),
    ensures
        forall|j: int| 0 <= j < bs.len() ==> block_encodable(#[trigger] bs[j]),
    decreases bs.len(),
{
    if bs.len() > 0 {
        lemma_blocks_encodable(bs.drop_last());
        assert forall|j: int| 0 <= j < bs.len() implies block_encodable(#[trigger] bs[j]) by {
            if j < bs.len() - 1 {
                assert(bs[j] == bs.drop_last()[j]);
            }
        }
    }
}

/// Each item of an encodable list holds encodable blocks.
pub proof fn lemma_items_encodable(items: Seq<ListItem>)
    requires
        items_encodable(items),
    ensures
        forall|j: int| 0 <= j < items.len() ==> blocks_encodable(#[trigger] items[j].content@),
    decreases items.len(),
{
    if items.len() > 0 {
        lemma_items_encodable(items.drop_last());
        assert forall|j: int| 0 <= j < items.len() implies blocks_encodable(
            #[trigger] items[j].content@,
        ) by {
            if j < items.len() - 1 {
                assert(items[j] == items.drop_last()[j]);
            }
        }
    }
}

/// Each cell of an encodable table holds encodable blocks.
pub proof fn lemma_cells_encodable(cells: Seq<TableCell>)
    requires
        cells_encodable(cells),
    ensures
        forall|j: int| 0 <= j < cells.len() ==> blocks_encodable(#[trigger] cells[j].content@),
    decreases cells.len(),
{
    if cells.len() > 0 {
        lemma_cells_encodable(cells.drop_last());
        assert forall|j: int| 0 <= j < cells.len() implies blocks_encodable(
            #[trigger] cells[j].content@,
        ) by {
            if j < cells.len() - 1 {
                assert(cells[j] == cells.drop_last()[j]);
            }
        }
    }
}

} // verus!
