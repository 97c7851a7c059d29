//! The rhwp-agnostic Semantic IR.

use vstd::prelude::*;

pub mod block;
pub mod formula;
pub mod inline;
pub mod prov;
pub mod style;
pub mod table;

use block::Block;

verus! {

/// One section of a document: its top-level blocks.
#[derive(Debug)]
pub struct Section {
    pub blocks: Vec<Block>,
}

/// A document lowered to the Semantic IR.
#[derive(Debug)]
pub struct SirDocument {
    pub sections: Vec<Section>,
    pub doclang_version: &'static str,
}

/// Whether every picture of `doc` is small enough that its base64 text fits
/// in memory.
pub open spec fn doc_encodable(doc: SirDocument) -> bool {
    forall|i: int|
        0 <= i < doc.sections@.len() ==> block::blocks_encodable(
            #[trigger] doc.sections@[i].blocks@,
        )
}

} // verus!
