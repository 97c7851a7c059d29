//! Stable semantic payload exported from the Semantic IR.
//!
//! The payload is intentionally separate from the internal IR. It gives
//! wrappers and downstream integrations a versioned contract while the
//! internal lowering model evolves.

use vstd::prelude::*;

use crate::ir::block::{
    Block, HeaderFooterApply, ListItem, block_encodable, blocks_encodable,
};
use crate::ir::inline::Inline;
use crate::ir::prov::{LOCATION_RESOLUTION, Location, LocationMap, Prov};
use crate::ir::style::StyleFlags;
use crate::ir::table::{Table, TableCell};
use crate::ir::{Section, SirDocument, doc_encodable};
use crate::loss::{LossEntry, LossEntryModel, LossKind, LossKindModel, LossReport, entries_model};
use crate::markdown::{child_loc, item_loc, join_nonempty, clamp_level, top_loc};
use crate::options::ConvertOptions;
use crate::resources::{
    AssetModel, PolicyModel, ResourceAsset, assets_model, resolve_resource, resolve_spec,
    spec_base64_standard,
};
use crate::text::{dec, owned, push_char, push_str, push_usize};

verus! {

/// Schema version for semantic payloads.
pub const PAYLOAD_SCHEMA_VERSION: &'static str = "hangulang.semantic.v1";

/// Top-level semantic extraction payload.
#[derive(Debug, Clone, PartialEq)]
pub struct SemanticPayload {
    pub schema_version: String,
    pub doclang_version: String,
    pub sections: Vec<PayloadSection>,
    pub assets: Vec<PayloadAsset>,
    pub losses: Vec<PayloadLoss>,
}

/// One section of the payload.
#[derive(Debug, Clone, PartialEq)]
pub struct PayloadSection {
    pub index: usize,
    pub blocks: Vec<PayloadBlock>,
}

/// One block of the payload.
#[derive(Debug, PartialEq)]
pub struct PayloadBlock {
    pub id: String,
    pub kind: String,
    pub text: Option<String>,
    pub inlines: Vec<PayloadInline>,
    pub level: Option<u8>,
    pub ordered: Option<bool>,
    pub location: PayloadLocation,
    pub children: Vec<PayloadBlock>,
    pub items: Vec<PayloadListItem>,
    pub table: Option<PayloadTable>,
    pub formula: Option<PayloadFormula>,
    pub resource: Option<PayloadResource>,
    pub thread_id: Option<String>,
    pub custom_namespace: Option<String>,
}

/// One inline node of the payload.
#[derive(Debug, PartialEq)]
pub struct PayloadInline {
    pub kind: String,
    pub text: Option<String>,
    pub styles: Option<PayloadStyleFlags>,
    pub footnote_number: Option<usize>,
    /// Link target for `kind == "href"`; `None` for every other inline kind.
    pub uri: Option<String>,
    pub children: Vec<PayloadInline>,
}

/// Formatting flags of a styled inline.
#[derive(Debug, Clone, Copy, PartialEq, Eq, Structural)]
pub struct PayloadStyleFlags {
    pub bold: bool,
    pub italic: bool,
    pub underline: bool,
    pub strike: bool,
    pub superscript: bool,
    pub subscript: bool,
}

/// One item of a list block.
#[derive(Debug, Clone, PartialEq)]
pub struct PayloadListItem {
    pub index: usize,
    pub blocks: Vec<PayloadBlock>,
}

/// The table of a table block.
#[derive(Debug, Clone, PartialEq)]
pub struct PayloadTable {
    pub rows: u16,
    pub cols: u16,
    pub caption: Option<String>,
    pub cells: Vec<PayloadTableCell>,
}

/// One cell of a payload table.
#[derive(Debug, Clone, PartialEq)]
pub struct PayloadTableCell {
    pub row: u16,
    pub col: u16,
    pub row_span: u16,
    pub col_span: u16,
    pub is_header: bool,
    pub blocks: Vec<PayloadBlock>,
}

/// The formula of a formula block.
#[derive(Debug, Clone, PartialEq, Eq)]
pub struct PayloadFormula {
    pub raw_eqedit: String,
    pub latex: Option<String>,
}

/// How a picture block's image is referenced.
#[derive(Debug, Clone, PartialEq, Eq)]
pub struct PayloadResource {
    pub uri: String,
    pub mime: String,
    pub asset_path: Option<String>,
}

/// A binary asset, base64-encoded.
#[derive(Debug, Clone, PartialEq, Eq)]
pub struct PayloadAsset {
    pub path: String,
    pub mime: String,
    pub data_base64: String,
}

/// Layout location of a block, or why there is none.
#[derive(Debug, Clone, PartialEq, Eq)]
pub struct PayloadLocation {
    pub status: String,
    pub page: Option<u32>,
    pub bbox: Option<PayloadBBox>,
    pub resolution: Option<u16>,
    pub reason: Option<String>,
}

/// A page-relative bounding box.
#[derive(Debug, Clone, Copy, PartialEq, Eq, Structural)]
pub struct PayloadBBox {
    pub x_min: u16,
    pub y_min: u16,
    pub x_max: u16,
    pub y_max: u16,
}

/// One loss entry of the payload.
#[derive(Debug, Clone, PartialEq, Eq)]
pub struct PayloadLoss {
    pub kind: String,
    pub location: String,
    pub detail: String,
}

// ---------------------------------------------------------------------------
// Models
// ---------------------------------------------------------------------------

/// Model of an optional string.
pub open spec fn opt_str(o: Option<String>) -> Option<Seq<char>> {
    match o {
        Some(s) => Some(s@),
        None => None,
    }
}

pub struct LocationModel {
    pub status: Seq<char>,
    pub page: Option<u32>,
    pub bbox: Option<PayloadBBox>,
    pub resolution: Option<u16>,
    pub reason: Option<Seq<char>>,
}

impl View for PayloadLocation {
    type V = LocationModel;

    open spec fn view(&self) -> LocationModel {
        LocationModel {
            status: self.status@,
            page: self.page,
            bbox: self.bbox,
            resolution: self.resolution,
            reason: opt_str(self.reason),
        }
    }
}

pub struct FormulaModel {
    pub raw_eqedit: Seq<char>,
    pub latex: Option<Seq<char>>,
}

impl View for PayloadFormula {
    type V = FormulaModel;

    open spec fn view(&self) -> FormulaModel {
        FormulaModel { raw_eqedit: self.raw_eqedit@, latex: opt_str(self.latex) }
    }
}

pub struct ResourceModel {
    pub uri: Seq<char>,
    pub mime: Seq<char>,
    pub asset_path: Option<Seq<char>>,
}

impl View for PayloadResource {
    type V = ResourceModel;

    open spec fn view(&self) -> ResourceModel {
        ResourceModel { uri: self.uri@, mime: self.mime@, asset_path: opt_str(self.asset_path) }
    }
}

pub struct PayloadAssetModel {
    pub path: Seq<char>,
    pub mime: Seq<char>,
    pub data_base64: Seq<char>,
}

impl View for PayloadAsset {
    type V = PayloadAssetModel;

    open spec fn view(&self) -> PayloadAssetModel {
        PayloadAssetModel { path: self.path@, mime: self.mime@, data_base64: self.data_base64@ }
    }
}

pub struct PayloadLossModel {
    pub kind: Seq<char>,
    pub location: Seq<char>,
    pub detail: Seq<char>,
}

impl View for PayloadLoss {
    type V = PayloadLossModel;

    open spec fn view(&self) -> PayloadLossModel {
        PayloadLossModel { kind: self.kind@, location: self.location@, detail: self.detail@ }
    }
}

pub struct PInlineModel {
    pub kind: Seq<char>,
    pub text: Option<Seq<char>>,
    pub styles: Option<PayloadStyleFlags>,
    pub footnote_number: Option<usize>,
    pub uri: Option<Seq<char>>,
    pub children: Seq<PInlineModel>,
}

pub open spec fn pinline_view(i: PayloadInline) -> PInlineModel
    decreases i,
{
    PInlineModel {
        kind: i.kind@,
        text: opt_str(i.text),
        styles: i.styles,
        footnote_number: i.footnote_number,
        uri: opt_str(i.uri),
        children: pinlines_view(i.children@),
    }
}

pub open spec fn pinlines_view(s: Seq<PayloadInline>) -> Seq<PInlineModel>
    decreases s,
{
    if s.len() == 0 {
        Seq::empty()
    } else {
        pinlines_view(s.drop_last()).push(pinline_view(s.last()))
    }
}

pub struct PBlockModel {
    pub id: Seq<char>,
    pub kind: Seq<char>,
    pub text: Option<Seq<char>>,
    pub inlines: Seq<PInlineModel>,
    pub level: Option<u8>,
    pub ordered: Option<bool>,
    pub location: LocationModel,
    pub children: Seq<PBlockModel>,
    pub items: Seq<PItemModel>,
    pub table: Option<PTableModel>,
    pub formula: Option<FormulaModel>,
    pub resource: Option<ResourceModel>,
    pub thread_id: Option<Seq<char>>,
    pub custom_namespace: Option<Seq<char>>,
}

pub struct PItemModel {
    pub index: usize,
    pub blocks: Seq<PBlockModel>,
}

pub struct PTableModel {
    pub rows: u16,
    pub cols: u16,
    pub caption: Option<Seq<char>>,
    pub cells: Seq<PCellModel>,
}

pub struct PCellModel {
    pub row: u16,
    pub col: u16,
    pub row_span: u16,
    pub col_span: u16,
    pub is_header: bool,
    pub blocks: Seq<PBlockModel>,
}

pub open spec fn pblock_view(b: PayloadBlock) -> PBlockModel
    decreases b,
{
    PBlockModel {
        id: b.id@,
        kind: b.kind@,
        text: opt_str(b.text),
        inlines: pinlines_view(b.inlines@),
        level: b.level,
        ordered: b.ordered,
        location: b.location@,
        children: pblocks_view(b.children@),
        items: pitems_view(b.items@),
        table: match b.table {
            Some(t) => Some(ptable_view(t)),
            None => None,
        },
        formula: match b.formula {
            Some(f) => Some(f@),
            None => None,
        },
        resource: match b.resource {
            Some(r) => Some(r@),
            None => None,
        },
        thread_id: opt_str(b.thread_id),
        custom_namespace: opt_str(b.custom_namespace),
    }
}

pub open spec fn pblocks_view(s: Seq<PayloadBlock>) -> Seq<PBlockModel>
    decreases s,
{
    if s.len() == 0 {
        Seq::empty()
    } else {
        pblocks_view(s.drop_last()).push(pblock_view(s.last()))
    }
}

pub open spec fn pitems_view(s: Seq<PayloadListItem>) -> Seq<PItemModel>
    decreases s,
{
    if s.len() == 0 {
        Seq::empty()
    } else {
        pitems_view(s.drop_last()).push(
            PItemModel { index: s.last().index, blocks: pblocks_view(s.last().blocks@) },
        )
    }
}

pub open spec fn ptable_view(t: PayloadTable) -> PTableModel
    decreases t,
{
    PTableModel {
        rows: t.rows,
        cols: t.cols,
        caption: opt_str(t.caption),
        cells: pcells_view(t.cells@),
    }
}

pub open spec fn pcells_view(s: Seq<PayloadTableCell>) -> Seq<PCellModel>
    decreases s,
{
    if s.len() == 0 {
        Seq::empty()
    } else {
        let c = s.last();
        pcells_view(s.drop_last()).push(
            PCellModel {
                row: c.row,
                col: c.col,
                row_span: c.row_span,
                col_span: c.col_span,
                is_header: c.is_header,
                blocks: pblocks_view(c.blocks@),
            },
        )
    }
}

impl View for PayloadInline {
    type V = PInlineModel;

    open spec fn view(&self) -> PInlineModel {
        pinline_view(*self)
    }
}

impl View for PayloadBlock {
    type V = PBlockModel;

    open spec fn view(&self) -> PBlockModel {
        pblock_view(*self)
    }
}

pub struct PSectionModel {
    pub index: usize,
    pub blocks: Seq<PBlockModel>,
}

pub open spec fn psections_view(s: Seq<PayloadSection>) -> Seq<PSectionModel> {
    s.map_values(|x: PayloadSection| PSectionModel { index: x.index, blocks: pblocks_view(x.blocks@) })
}

pub struct PayloadModel {
    pub schema_version: Seq<char>,
    pub doclang_version: Seq<char>,
    pub sections: Seq<PSectionModel>,
    pub assets: Seq<PayloadAssetModel>,
    pub losses: Seq<PayloadLossModel>,
}

impl View for SemanticPayload {
    type V = PayloadModel;

    open spec fn view(&self) -> PayloadModel {
        PayloadModel {
            schema_version: self.schema_version@,
            doclang_version: self.doclang_version@,
            sections: psections_view(self.sections@),
            assets: self.assets@.map_values(|a: PayloadAsset| a@),
            losses: self.losses@.map_values(|l: PayloadLoss| l@),
        }
    }
}

// ---------------------------------------------------------------------------
// Deep copies
// ---------------------------------------------------------------------------

/// A copy of an optional string.
fn clone_opt_string(o: &Option<String>) -> (r: Option<String>)
    ensures
        opt_str(r) == opt_str(*o),
{
    match o {
        Some(s) => Some(s.clone()),
        None => None,
    }
}

/// A deep copy of a payload inline.
pub fn clone_pinline(x: &PayloadInline) -> (r: PayloadInline)
    ensures
        r@ == x@,
    decreases x,
{
    PayloadInline {
        kind: x.kind.clone(),
        text: clone_opt_string(&x.text),
        styles: x.styles,
        footnote_number: x.footnote_number,
        uri: clone_opt_string(&x.uri),
        children: clone_pinlines(&x.children),
    }
}

/// A deep copy of a sequence of payload inlines.
pub fn clone_pinlines(v: &Vec<PayloadInline>) -> (r: Vec<PayloadInline>)
    ensures
        pinlines_view(r@) == pinlines_view(v@),
    decreases v,
{
    let mut r: Vec<PayloadInline> = Vec::new();
    let mut i: usize = 0;
    assert(pinlines_view(r@) =~= pinlines_view(v@.take(0)));
    while i < v.len()
        invariant
            i <= v@.len(),
            pinlines_view(r@) == pinlines_view(v@.take(i as int)),
        decreases v.len() - i,
    {
        proof {
            vstd::std_specs::vec::axiom_vec_index_decreases(*v, i as int);
        }
        let c = clone_pinline(&v[i]);
        let ghost r0 = r@;
        r.push(c);
        assert(r@.drop_last() =~= r0);
        assert(v@.take(i + 1).drop_last() =~= v@.take(i as int));
        i += 1;
    }
    assert(v@.take(v@.len() as int) =~= v@);
    r
}

/// A copy of a payload location.
fn clone_plocation(l: &PayloadLocation) -> (r: PayloadLocation)
    ensures
        r@ == l@,
{
    PayloadLocation {
        status: l.status.clone(),
        page: l.page,
        bbox: l.bbox,
        resolution: l.resolution,
        reason: clone_opt_string(&l.reason),
    }
}

/// A deep copy of a payload block.
pub fn clone_pblock(b: &PayloadBlock) -> (r: PayloadBlock)
    ensures
        r@ == b@,
    decreases b,
{
    let table = match &b.table {
        Some(t) => Some(clone_ptable(t)),
        None => None,
    };
    let formula = match &b.formula {
        Some(f) => Some(PayloadFormula { raw_eqedit: f.raw_eqedit.clone(), latex: clone_opt_string(&f.latex) }),
        None => None,
    };
    let resource = match &b.resource {
        Some(res) => Some(
            PayloadResource {
                uri: res.uri.clone(),
                mime: res.mime.clone(),
                asset_path: clone_opt_string(&res.asset_path),
            },
        ),
        None => None,
    };
    PayloadBlock {
        id: b.id.clone(),
        kind: b.kind.clone(),
        text: clone_opt_string(&b.text),
        inlines: clone_pinlines(&b.inlines),
        level: b.level,
        ordered: b.ordered,
        location: clone_plocation(&b.location),
        children: clone_pblocks(&b.children),
        items: clone_pitems(&b.items),
        table,
        formula,
        resource,
        thread_id: clone_opt_string(&b.thread_id),
        custom_namespace: clone_opt_string(&b.custom_namespace),
    }
}

/// A deep copy of a sequence of payload blocks.
pub fn clone_pblocks(v: &Vec<PayloadBlock>) -> (r: Vec<PayloadBlock>)
    ensures
        pblocks_view(r@) == pblocks_view(v@),
    decreases v,
{
    let mut r: Vec<PayloadBlock> = Vec::new();
    let mut i: usize = 0;
    assert(pblocks_view(r@) =~= pblocks_view(v@.take(0)));
    while i < v.len()
        invariant
            i <= v@.len(),
            pblocks_view(r@) == pblocks_view(v@.take(i as int)),
        decreases v.len() - i,
    {
        proof {
            vstd::std_specs::vec::axiom_vec_index_decreases(*v, i as int);
        }
        let c = clone_pblock(&v[i]);
        let ghost r0 = r@;
        r.push(c);
        assert(r@.drop_last() =~= r0);
        assert(v@.take(i + 1).drop_last() =~= v@.take(i as int));
        i += 1;
    }
    assert(v@.take(v@.len() as int) =~= v@);
    r
}

/// A deep copy of a sequence of list items.
pub fn clone_pitems(v: &Vec<PayloadListItem>) -> (r: Vec<PayloadListItem>)
    ensures
        pitems_view(r@) == pitems_view(v@),
    decreases v,
{
    let mut r: Vec<PayloadListItem> = Vec::new();
    let mut i: usize = 0;
    assert(pitems_view(r@) =~= pitems_view(v@.take(0)));
    while i < v.len()
        invariant
            i <= v@.len(),
            pitems_view(r@) == pitems_view(v@.take(i as int)),
        decreases v.len() - i,
    {
        proof {
            vstd::std_specs::vec::axiom_vec_index_decreases(*v, i as int);
        }
        let blocks = clone_pblocks(&v[i].blocks);
        let c = PayloadListItem { index: v[i].index, blocks };
        let ghost r0 = r@;
        r.push(c);
        assert(r@.drop_last() =~= r0);
        assert(v@.take(i + 1).drop_last() =~= v@.take(i as int));
        i += 1;
    }
    assert(v@.take(v@.len() as int) =~= v@);
    r
}

/// A deep copy of a payload table.
pub fn clone_ptable(t: &PayloadTable) -> (r: PayloadTable)
    ensures
        ptable_view(r) == ptable_view(*t),
    decreases t,
{
    PayloadTable {
        rows: t.rows,
        cols: t.cols,
        caption: clone_opt_string(&t.caption),
        cells: clone_pcells(&t.cells),
    }
}

/// A deep copy of a sequence of table cells.
pub fn clone_pcells(v: &Vec<PayloadTableCell>) -> (r: Vec<PayloadTableCell>)
    ensures
        pcells_view(r@) == pcells_view(v@),
    decreases v,
{
    let mut r: Vec<PayloadTableCell> = Vec::new();
    let mut i: usize = 0;
    assert(pcells_view(r@) =~= pcells_view(v@.take(0)));
    while i < v.len()
        invariant
            i <= v@.len(),
            pcells_view(r@) == pcells_view(v@.take(i as int)),
        decreases v.len() - i,
    {
        proof {
            vstd::std_specs::vec::axiom_vec_index_decreases(*v, i as int);
        }
        let cell = &v[i];
        let blocks = clone_pblocks(&cell.blocks);
        let c = PayloadTableCell {
            row: cell.row,
            col: cell.col,
            row_span: cell.row_span,
            col_span: cell.col_span,
            is_header: cell.is_header,
            blocks,
        };
        let ghost r0 = r@;
        r.push(c);
        assert(r@.drop_last() =~= r0);
        assert(v@.take(i + 1).drop_last() =~= v@.take(i as int));
        i += 1;
    }
    assert(v@.take(v@.len() as int) =~= v@);
    r
}

impl Clone for PayloadInline {
    fn clone(&self) -> (r: Self)
        ensures
            r@ == self@,
    {
        clone_pinline(self)
    }
}

impl Clone for PayloadBlock {
    fn clone(&self) -> (r: Self)
        ensures
            r@ == self@,
    {
        clone_pblock(self)
    }
}

} // verus!

verus! {

// ---------------------------------------------------------------------------
// Specification
// ---------------------------------------------------------------------------

/// What every block's payload depends on besides the block itself.
pub struct PCtx {
    pub with_location: bool,
    pub locs: Map<Prov, Location>,
    pub policy: PolicyModel,
}

/// A location that could not be resolved, with its status and reason.
pub open spec fn loc_fallback(status: Seq<char>, reason: Seq<char>) -> LocationModel {
    LocationModel {
        status,
        page: None,
        bbox: None,
        resolution: Some(LOCATION_RESOLUTION),
        reason: Some(reason),
    }
}

/// The location of a block kind that has no layout at all.
pub open spec fn loc_not_applicable(reason: Seq<char>) -> LocationModel {
    LocationModel {
        status: "not_applicable"@,
        page: None,
        bbox: None,
        resolution: None,
        reason: Some(reason),
    }
}

/// A resolved location.
pub open spec fn loc_exact(l: Location) -> LocationModel {
    LocationModel {
        status: "exact"@,
        page: Some(l.page),
        bbox: Some(PayloadBBox { x_min: l.x_min, y_min: l.y_min, x_max: l.x_max, y_max: l.y_max }),
        resolution: Some(LOCATION_RESOLUTION),
        reason: None,
    }
}

/// The payload location of a block with provenance `prov`: not requested,
/// without provenance, exact, or unresolved.
pub open spec fn location_spec(
    with_location: bool,
    locs: Map<Prov, Location>,
    prov: Option<Prov>,
) -> LocationModel {
    if !with_location {
        loc_fallback("not_requested"@, "ConvertOptions::with_location is false"@)
    } else {
        match prov {
            None => loc_fallback(
                "no_provenance"@,
                "IR block has no stable model provenance for layout join"@,
            ),
            Some(p) => if locs.contains_key(p) {
                loc_exact(locs[p])
            } else {
                loc_fallback(
                    "unresolved"@,
                    "layout pass did not resolve a bounding box for this provenance"@,
                )
            },
        }
    }
}

/// Plain text of one inline node.
pub open spec fn ptext_inline(i: Inline) -> Seq<char>
    decreases i,
{
    match i {
        Inline::Text(t) => t@,
        Inline::Styled(_, ch) => ptext_inlines(ch@),
        Inline::FootnoteRef(n) => "[^"@ + dec(n as nat) + "]"@,
        Inline::LineBreak => seq!['\n'],
        Inline::Tab => seq!['\t'],
        Inline::Href { content, .. } => ptext_inlines(content@),
    }
}

/// Plain text of a sequence of inline nodes.
pub open spec fn ptext_inlines(s: Seq<Inline>) -> Seq<char>
    decreases s,
{
    if s.len() == 0 {
        Seq::empty()
    } else {
        ptext_inlines(s.drop_last()) + ptext_inline(s.last())
    }
}

/// Payload flags of style flags.
pub open spec fn style_spec(f: StyleFlags) -> PayloadStyleFlags {
    PayloadStyleFlags {
        bold: f.bold,
        italic: f.italic,
        underline: f.underline,
        strike: f.strike,
        superscript: f.superscript,
        subscript: f.subscript,
    }
}

/// An inline payload node with only `kind` and `text` set.
pub open spec fn pinline_leaf(kind: Seq<char>, text: Option<Seq<char>>) -> PInlineModel {
    PInlineModel {
        kind,
        text,
        styles: None,
        footnote_number: None,
        uri: None,
        children: Seq::empty(),
    }
}

/// Payload of one inline node.
pub open spec fn pinline(i: Inline) -> PInlineModel
    decreases i,
{
    match i {
        Inline::Text(t) => pinline_leaf("text"@, Some(t@)),
        Inline::Styled(f, ch) => PInlineModel {
            kind: "styled"@,
            text: Some(ptext_inlines(ch@)),
            styles: Some(style_spec(f)),
            footnote_number: None,
            uri: None,
            children: pinlines(ch@),
        },
        Inline::FootnoteRef(n) => PInlineModel {
            footnote_number: Some(n),
            ..pinline_leaf("footnote_ref"@, None)
        },
        Inline::LineBreak => pinline_leaf("line_break"@, Some(seq!['\n'])),
        Inline::Tab => pinline_leaf("tab"@, Some(seq!['\t'])),
        Inline::Href { uri, content } => PInlineModel {
            kind: "href"@,
            text: Some(ptext_inlines(content@)),
            styles: None,
            footnote_number: None,
            uri: Some(uri@),
            children: pinlines(content@),
        },
    }
}

/// Payload of a sequence of inline nodes.
pub open spec fn pinlines(s: Seq<Inline>) -> Seq<PInlineModel>
    decreases s,
{
    if s.len() == 0 {
        Seq::empty()
    } else {
        pinlines(s.drop_last()).push(pinline(s.last()))
    }
}

/// Plain text of one block.
pub open spec fn btext(b: Block) -> Seq<char>
    decreases b,
{
    match b {
        Block::Paragraph { content, .. } => ptext_inlines(content@),
        Block::Heading { content, .. } => ptext_inlines(content@),
        Block::List { items, .. } => items_join(items@),
        Block::Table(t) => cells_join(t.cells@),
        Block::Formula(f) => match f.latex {
            Some(l) => l@,
            None => f.raw_eqedit@,
        },
        Block::Footnote { content, .. } => btexts_after(Seq::empty(), content@),
        Block::PageHeader { content, .. } => btexts_after(Seq::empty(), content@),
        Block::PageFooter { content, .. } => btexts_after(Seq::empty(), content@),
        _ => Seq::empty(),
    }
}

/// The non-empty texts of `bs` joined with newlines, appended to `acc` in
/// the same way.
pub open spec fn btexts_after(acc: Seq<char>, bs: Seq<Block>) -> Seq<char>
    decreases bs,
{
    if bs.len() == 0 {
        acc
    } else {
        join_nonempty(btexts_after(acc, bs.drop_last()), seq!['\n'], btext(bs.last()))
    }
}

/// The non-empty texts of `bs` joined with newlines.
pub open spec fn btexts(bs: Seq<Block>) -> Seq<char> {
    btexts_after(Seq::empty(), bs)
}

/// The texts of the items, joined with newlines, empty texts included.
pub open spec fn items_join(items: Seq<ListItem>) -> Seq<char>
    decreases items,
{
    if items.len() == 0 {
        Seq::empty()
    } else if items.len() == 1 {
        btexts_after(Seq::empty(), items[0].content@)
    } else {
        items_join(items.drop_last()) + seq!['\n'] + btexts_after(Seq::empty(), items.last().content@)
    }
}

/// The texts of the cells, joined with newlines, empty texts included.
pub open spec fn cells_join(cells: Seq<TableCell>) -> Seq<char>
    decreases cells,
{
    if cells.len() == 0 {
        Seq::empty()
    } else if cells.len() == 1 {
        btexts_after(Seq::empty(), cells[0].content@)
    } else {
        cells_join(cells.drop_last()) + seq!['\n'] + btexts_after(Seq::empty(), cells.last().content@)
    }
}

/// The non-empty texts of all blocks of all items, joined with newlines.
pub open spec fn items_flat_text(items: Seq<ListItem>) -> Seq<char>
    decreases items,
{
    if items.len() == 0 {
        Seq::empty()
    } else {
        btexts_after(items_flat_text(items.drop_last()), items.last().content@)
    }
}

/// The non-empty texts of all blocks of all cells, joined with newlines.
pub open spec fn cells_flat_text(cells: Seq<TableCell>) -> Seq<char>
    decreases cells,
{
    if cells.len() == 0 {
        Seq::empty()
    } else {
        btexts_after(cells_flat_text(cells.drop_last()), cells.last().content@)
    }
}

/// Page scope of a header or footer.
pub open spec fn apply_text_spec(a: HeaderFooterApply) -> Seq<char> {
    match a {
        HeaderFooterApply::All => "all"@,
        HeaderFooterApply::Even => "even"@,
        HeaderFooterApply::Odd => "odd"@,
        HeaderFooterApply::First => "first"@,
    }
}

/// A payload block with every optional part empty.
pub open spec fn pblock_base(id: Seq<char>, kind: Seq<char>, location: LocationModel) -> PBlockModel {
    PBlockModel {
        id,
        kind,
        text: None,
        inlines: Seq::empty(),
        level: None,
        ordered: None,
        location,
        children: Seq::empty(),
        items: Seq::empty(),
        table: None,
        formula: None,
        resource: None,
        thread_id: None,
        custom_namespace: None,
    }
}

/// Location of the `i`-th table cell under `loc`.
pub open spec fn cell_loc(loc: Seq<char>, i: nat) -> Seq<char> {
    loc + "/cell["@ + dec(i) + "]"@
}

/// Payload of one block at `loc`.
pub open spec fn pb(b: Block, loc: Seq<char>, ctx: PCtx) -> PBlockModel
    decreases b,
{
    match b {
        Block::Paragraph { content, prov, .. } => PBlockModel {
            text: Some(ptext_inlines(content@)),
            inlines: pinlines(content@),
            ..pblock_base(loc, "paragraph"@, location_spec(ctx.with_location, ctx.locs, prov))
        },
        Block::Heading { level, content, prov, .. } => PBlockModel {
            text: Some(ptext_inlines(content@)),
            inlines: pinlines(content@),
            level: Some(clamp_level(level) as u8),
            ..pblock_base(loc, "heading"@, location_spec(ctx.with_location, ctx.locs, prov))
        },
        Block::List { ordered, items, prov, .. } => PBlockModel {
            text: Some(items_flat_text(items@)),
            ordered: Some(ordered),
            items: pitems(items@, loc, ctx),
            ..pblock_base(loc, "list"@, location_spec(ctx.with_location, ctx.locs, prov))
        },
        Block::Table(t) => PBlockModel {
            text: Some(cells_flat_text(t.cells@)),
            table: Some(
                PTableModel {
                    rows: t.rows,
                    cols: t.cols,
                    caption: match t.caption {
                        Some(c) => Some(ptext_inlines(c@)),
                        None => None,
                    },
                    cells: pcells(t.cells@, loc, ctx),
                },
            ),
            ..pblock_base(loc, "table"@, location_spec(ctx.with_location, ctx.locs, t.prov))
        },
        Block::Picture { data, extension, prov, .. } => {
            let r = resolve_spec(ctx.policy, loc, extension@, data@);
            PBlockModel {
                resource: Some(
                    ResourceModel {
                        uri: r.uri,
                        mime: r.mime,
                        asset_path: match r.asset {
                            Some(a) => Some(a.path),
                            None => None,
                        },
                    },
                ),
                ..pblock_base(loc, "picture"@, location_spec(ctx.with_location, ctx.locs, prov))
            }
        },
        Block::Formula(f) => PBlockModel {
            text: Some(
                match f.latex {
                    Some(l) => l@,
                    None => f.raw_eqedit@,
                },
            ),
            formula: Some(FormulaModel { raw_eqedit: f.raw_eqedit@, latex: opt_str(f.latex) }),
            ..pblock_base(loc, "formula"@, location_spec(ctx.with_location, ctx.locs, f.prov))
        },
        Block::PageBreak => PBlockModel {
            ..pblock_base(loc, "page_break"@, loc_not_applicable("block type has no layout payload"@))
        },
        Block::Footnote { number, content, prov } => PBlockModel {
            text: Some("[^"@ + dec(number as nat) + "] "@ + btexts(content@)),
            children: pblocks(content@, loc, ctx),
            ..pblock_base(loc, "footnote"@, location_spec(ctx.with_location, ctx.locs, prov))
        },
        Block::PageHeader { content, apply, prov } => PBlockModel {
            text: Some(apply_text_spec(apply) + ": "@ + btexts(content@)),
            children: pblocks(content@, loc, ctx),
            ..pblock_base(loc, "page_header"@, location_spec(ctx.with_location, ctx.locs, prov))
        },
        Block::PageFooter { content, apply, prov } => PBlockModel {
            text: Some(apply_text_spec(apply) + ": "@ + btexts(content@)),
            children: pblocks(content@, loc, ctx),
            ..pblock_base(loc, "page_footer"@, location_spec(ctx.with_location, ctx.locs, prov))
        },
        Block::ThreadStart { thread_id } => PBlockModel {
            thread_id: Some(thread_id@),
            ..pblock_base(loc, "thread_start"@, loc_not_applicable("block type has no layout payload"@))
        },
        Block::ThreadContinuation { thread_id } => PBlockModel {
            thread_id: Some(thread_id@),
            ..pblock_base(
                loc,
                "thread_continuation"@,
                loc_not_applicable("block type has no layout payload"@),
            )
        },
        Block::Custom { namespace, .. } => PBlockModel {
            custom_namespace: Some(namespace@),
            ..pblock_base(loc, "custom"@, loc_not_applicable("custom block has no layout provenance"@))
        },
    }
}

/// Payload of child blocks under `loc`.
pub open spec fn pblocks(bs: Seq<Block>, loc: Seq<char>, ctx: PCtx) -> Seq<PBlockModel>
    decreases bs,
{
    if bs.len() == 0 {
        Seq::empty()
    } else {
        pblocks(bs.drop_last(), loc, ctx).push(
            pb(bs.last(), child_loc(loc, (bs.len() - 1) as nat), ctx),
        )
    }
}

/// Payload of list items under `loc`.
pub open spec fn pitems(items: Seq<ListItem>, loc: Seq<char>, ctx: PCtx) -> Seq<PItemModel>
    decreases items,
{
    if items.len() == 0 {
        Seq::empty()
    } else {
        let i = (items.len() - 1) as nat;
        pitems(items.drop_last(), loc, ctx).push(
            PItemModel { index: i as usize, blocks: pblocks(items.last().content@, item_loc(loc, i), ctx) },
        )
    }
}

/// Payload of table cells under `loc`.
pub open spec fn pcells(cells: Seq<TableCell>, loc: Seq<char>, ctx: PCtx) -> Seq<PCellModel>
    decreases cells,
{
    if cells.len() == 0 {
        Seq::empty()
    } else {
        let i = (cells.len() - 1) as nat;
        let c = cells.last();
        pcells(cells.drop_last(), loc, ctx).push(
            PCellModel {
                row: c.row,
                col: c.col,
                row_span: c.row_span,
                col_span: c.col_span,
                is_header: c.is_header,
                blocks: pblocks(c.content@, cell_loc(loc, i), ctx),
            },
        )
    }
}

/// The assets referenced by the payload of `b`, in document order.
pub open spec fn passets(b: Block, loc: Seq<char>, policy: PolicyModel) -> Seq<AssetModel>
    decreases b,
{
    match b {
        Block::List { items, .. } => items_assets(items@, loc, policy),
        Block::Table(t) => cells_assets(t.cells@, loc, policy),
        Block::Picture { data, extension, .. } => match resolve_spec(
            policy,
            loc,
            extension@,
            data@,
        ).asset {
            Some(a) => seq![a],
            None => Seq::empty(),
        },
        Block::Footnote { content, .. } => blocks_assets(content@, loc, policy),
        Block::PageHeader { content, .. } => blocks_assets(content@, loc, policy),
        Block::PageFooter { content, .. } => blocks_assets(content@, loc, policy),
        _ => Seq::empty(),
    }
}

/// [`passets`] of child blocks under `loc`.
pub open spec fn blocks_assets(bs: Seq<Block>, loc: Seq<char>, policy: PolicyModel) -> Seq<
    AssetModel,
>
    decreases bs,
{
    if bs.len() == 0 {
        Seq::empty()
    } else {
        blocks_assets(bs.drop_last(), loc, policy) + passets(
            bs.last(),
            child_loc(loc, (bs.len() - 1) as nat),
            policy,
        )
    }
}

/// [`passets`] of list items under `loc`.
pub open spec fn items_assets(items: Seq<ListItem>, loc: Seq<char>, policy: PolicyModel) -> Seq<
    AssetModel,
>
    decreases items,
{
    if items.len() == 0 {
        Seq::empty()
    } else {
        items_assets(items.drop_last(), loc, policy) + blocks_assets(
            items.last().content@,
            item_loc(loc, (items.len() - 1) as nat),
            policy,
        )
    }
}

/// [`passets`] of table cells under `loc`.
pub open spec fn cells_assets(cells: Seq<TableCell>, loc: Seq<char>, policy: PolicyModel) -> Seq<
    AssetModel,
>
    decreases cells,
{
    if cells.len() == 0 {
        Seq::empty()
    } else {
        cells_assets(cells.drop_last(), loc, policy) + blocks_assets(
            cells.last().content@,
            cell_loc(loc, (cells.len() - 1) as nat),
            policy,
        )
    }
}

/// Payload of the top-level blocks of section `si`.
pub open spec fn psection_blocks(bs: Seq<Block>, si: nat, ctx: PCtx) -> Seq<PBlockModel>
    decreases bs.len(),
{
    if bs.len() == 0 {
        Seq::empty()
    } else {
        psection_blocks(bs.drop_last(), si, ctx).push(
            pb(bs.last(), top_loc(si, (bs.len() - 1) as nat), ctx),
        )
    }
}

/// Assets of the top-level blocks of section `si`.
pub open spec fn psection_assets(bs: Seq<Block>, si: nat, policy: PolicyModel) -> Seq<AssetModel>
    decreases bs.len(),
{
    if bs.len() == 0 {
        Seq::empty()
    } else {
        psection_assets(bs.drop_last(), si, policy) + passets(
            bs.last(),
            top_loc(si, (bs.len() - 1) as nat),
            policy,
        )
    }
}

/// Payload of every section.
pub open spec fn psections(ss: Seq<Section>, ctx: PCtx) -> Seq<PSectionModel>
    decreases ss.len(),
{
    if ss.len() == 0 {
        Seq::empty()
    } else {
        let i = (ss.len() - 1) as nat;
        psections(ss.drop_last(), ctx).push(
            PSectionModel { index: i as usize, blocks: psection_blocks(ss.last().blocks@, i, ctx) },
        )
    }
}

/// Assets of every section, in document order.
pub open spec fn doc_assets(ss: Seq<Section>, policy: PolicyModel) -> Seq<AssetModel>
    decreases ss.len(),
{
    if ss.len() == 0 {
        Seq::empty()
    } else {
        doc_assets(ss.drop_last(), policy) + psection_assets(
            ss.last().blocks@,
            (ss.len() - 1) as nat,
            policy,
        )
    }
}

/// Payload name of a loss kind.
pub open spec fn loss_kind_name_spec(k: LossKindModel) -> Seq<char> {
    match k {
        LossKindModel::FontInfo => "font_info"@,
        LossKindModel::CharColor => "char_color"@,
        LossKindModel::NamedStyle => "named_style"@,
        LossKindModel::SectionSettings => "section_settings"@,
        LossKindModel::FloatingObject => "floating_object"@,
        LossKindModel::TextBox => "text_box"@,
        LossKindModel::TrackChanges => "track_changes"@,
        LossKindModel::FormulaFallback => "formula_fallback"@,
        LossKindModel::Caption => "caption"@,
        LossKindModel::Other(v) => "other:"@ + v,
    }
}

/// Payload of a loss entry.
pub open spec fn loss_payload_spec(e: LossEntryModel) -> PayloadLossModel {
    PayloadLossModel { kind: loss_kind_name_spec(e.kind), location: e.location, detail: e.detail }
}

/// Payload of an asset.
pub open spec fn asset_payload_spec(a: AssetModel) -> PayloadAssetModel {
    PayloadAssetModel { path: a.path, mime: a.mime, data_base64: spec_base64_standard(a.data) }
}

/// The whole semantic payload of `doc`.
pub open spec fn payload_spec(
    doc: SirDocument,
    ctx: PCtx,
    loss: Seq<LossEntryModel>,
) -> PayloadModel {
    PayloadModel {
        schema_version: "hangulang.semantic.v1"@,
        doclang_version: doc.doclang_version@,
        sections: psections(doc.sections@, ctx),
        assets: doc_assets(doc.sections@, ctx.policy).map_values(|a: AssetModel| asset_payload_spec(a)),
        losses: loss.map_values(|e: LossEntryModel| loss_payload_spec(e)),
    }
}

} // verus!

verus! {

// ---------------------------------------------------------------------------
// Builder
// ---------------------------------------------------------------------------

/// Plain text of a sequence of inline nodes.
fn inline_text(inlines: &Vec<Inline>) -> (s: String)
    ensures
        s@ == ptext_inlines(inlines@),
    decreases inlines@,
{
    let mut out = String::new();
    let mut i: usize = 0;
    while i < inlines.len()
        invariant
            i <= inlines@.len(),
            out@ == ptext_inlines(inlines@.take(i as int)),
        decreases inlines.len() - i,
    {
        assert(inlines@.take(i + 1).drop_last() == inlines@.take(i as int));
        assert(inlines@.take(i + 1).last() == inlines@[i as int]);
        let ghost before = out@;
        match &inlines[i] {
            Inline::Text(text) => push_str(&mut out, text.as_str()),
            Inline::Styled(_, children) => {
                assert(decreases_to!(inlines@ => children@)) by {
                    assert(decreases_to!(inlines@ => inlines@[i as int]));
                }
                let t = inline_text(children);
                push_str(&mut out, t.as_str());
            },
            Inline::FootnoteRef(number) => {
                push_str(&mut out, "[^");
                push_usize(&mut out, *number);
                push_str(&mut out, "]");
            },
            Inline::LineBreak => push_char(&mut out, '\n'),
            Inline::Tab => push_char(&mut out, '\t'),
            Inline::Href { content, .. } => {
                assert(decreases_to!(inlines@ => content@)) by {
                    assert(decreases_to!(inlines@ => inlines@[i as int]));
                }
                let t = inline_text(content);
                push_str(&mut out, t.as_str());
            },
        }
        assert(out@ =~= before + ptext_inline(inlines@[i as int]));
        i += 1;
        assert(out@ =~= ptext_inlines(inlines@.take(i as int)));
    }
    assert(inlines@.take(inlines@.len() as int) == inlines@);
    out
}

/// Payload flags of style flags.
fn style_payload(flags: StyleFlags) -> (p: PayloadStyleFlags)
    ensures
        p == style_spec(flags),
{
    PayloadStyleFlags {
        bold: flags.bold,
        italic: flags.italic,
        underline: flags.underline,
        strike: flags.strike,
        superscript: flags.superscript,
        subscript: flags.subscript,
    }
}

/// An inline payload node with only `kind` and `text` set.
fn inline_leaf(kind: &str, text: Option<String>) -> (p: PayloadInline)
    ensures
        p@ == pinline_leaf(kind@, opt_str(text)),
{
    let p = PayloadInline {
        kind: owned(kind),
        text,
        styles: None,
        footnote_number: None,
        uri: None,
        children: Vec::new(),
    };
    assert(pinlines_view(p.children@) =~= Seq::<PInlineModel>::empty());
    p
}

/// Payload of one inline node.
fn inline_payload(inline: &Inline) -> (p: PayloadInline)
    ensures
        p@ == pinline(*inline),
    decreases inline,
{
    match inline {
        Inline::Text(text) => {
            let p = inline_leaf("text", Some(text.clone()));
            assert(p@ == pinline(*inline));
            p
        },
        Inline::Styled(flags, children) => {
            let text = inline_text(children);
            let kids = inlines_payload(children);
            PayloadInline {
                kind: owned("styled"),
                text: Some(text),
                styles: Some(style_payload(*flags)),
                footnote_number: None,
                uri: None,
                children: kids,
            }
        },
        Inline::FootnoteRef(number) => {
            let mut p = inline_leaf("footnote_ref", None);
            p.footnote_number = Some(*number);
            assert(p@ == pinline(*inline));
            p
        },
        Inline::LineBreak => {
            let p = inline_leaf("line_break", Some(owned("\n")));
            proof {
                reveal_strlit("\n");
                assert("\n"@ =~= seq!['\n']);
            }
            assert(p@ == pinline(*inline));
            p
        },
        Inline::Tab => {
            let p = inline_leaf("tab", Some(owned("\t")));
            proof {
                reveal_strlit("\t");
                assert("\t"@ =~= seq!['\t']);
            }
            assert(p@ == pinline(*inline));
            p
        },
        Inline::Href { uri, content } => {
            let text = inline_text(content);
            let kids = inlines_payload(content);
            PayloadInline {
                kind: owned("href"),
                text: Some(text),
                styles: None,
                footnote_number: None,
                uri: Some(uri.clone()),
                children: kids,
            }
        },
    }
}

/// Payload of a sequence of inline nodes.
fn inlines_payload(inlines: &Vec<Inline>) -> (v: Vec<PayloadInline>)
    ensures
        pinlines_view(v@) == pinlines(inlines@),
    decreases inlines@,
{
    let mut v: Vec<PayloadInline> = Vec::new();
    let mut i: usize = 0;
    while i < inlines.len()
        invariant
            i <= inlines@.len(),
            pinlines_view(v@) == pinlines(inlines@.take(i as int)),
        decreases inlines.len() - i,
    {
        assert(inlines@.take(i + 1).drop_last() == inlines@.take(i as int));
        let p = inline_payload(&inlines[i]);
        let ghost old_v = v@;
        v.push(p);
        assert(v@.drop_last() == old_v);
        i += 1;
    }
    assert(inlines@.take(inlines@.len() as int) == inlines@);
    v
}

/// Appends the non-empty texts of `blocks` to `acc`, joined with newlines.
fn blocks_text_after(acc: &mut String, blocks: &Vec<Block>)
    ensures
        final(acc)@ == btexts_after(old(acc)@, blocks@),
    decreases blocks@,
{
    let ghost start = acc@;
    let mut i: usize = 0;
    while i < blocks.len()
        invariant
            i <= blocks@.len(),
            acc@ == btexts_after(start, blocks@.take(i as int)),
        decreases blocks.len() - i,
    {
        assert(blocks@.take(i + 1).drop_last() == blocks@.take(i as int));
        let t = block_text(&blocks[i]);
        if !crate::text::is_blank_string(&t) {
            if !crate::text::is_blank_string(acc) {
                push_char(acc, '\n');
            }
            push_str(acc, t.as_str());
        }
        i += 1;
        assert(acc@ =~= btexts_after(start, blocks@.take(i as int)));
    }
    assert(blocks@.take(blocks@.len() as int) == blocks@);
}

/// The non-empty texts of `blocks`, joined with newlines.
fn blocks_text(blocks: &Vec<Block>) -> (s: String)
    ensures
        s@ == btexts(blocks@),
{
    let mut s = String::new();
    blocks_text_after(&mut s, blocks);
    s
}

/// Plain text of one block.
fn block_text(block: &Block) -> (s: String)
    ensures
        s@ == btext(*block),
    decreases block,
{
    match block {
        Block::Paragraph { content, .. } => inline_text(content),
        Block::Heading { content, .. } => inline_text(content),
        Block::List { items, .. } => {
            let mut out = String::new();
            let mut i: usize = 0;
            while i < items.len()
                invariant
                    i <= items@.len(),
                    forall|j: int| 0 <= j < items@.len() ==> decreases_to!(*block => #[trigger] items@[j].content@),
                    out@ == items_join(items@.take(i as int)),
                decreases items.len() - i,
            {
                assert(items@.take(i + 1).drop_last() == items@.take(i as int));
                assert(items@.take(i + 1).last() == items@[i as int]);
                if i > 0 {
                    push_char(&mut out, '\n');
                } else {
                    assert(items@.take(1)[0] == items@[0]);
                }
                let ghost before = out@;
                let mut t = String::new();
                blocks_text_after(&mut t, &items[i].content);
                push_str(&mut out, t.as_str());
                i += 1;
                assert(out@ =~= items_join(items@.take(i as int)));
            }
            assert(items@.take(items@.len() as int) == items@);
            out
        },
        Block::Table(table) => {
            let cells = &table.cells;
            let mut out = String::new();
            let mut i: usize = 0;
            while i < cells.len()
                invariant
                    i <= cells@.len(),
                    forall|j: int| 0 <= j < cells@.len() ==> decreases_to!(*block => #[trigger] cells@[j].content@),
                    out@ == cells_join(cells@.take(i as int)),
                decreases cells.len() - i,
            {
                assert(cells@.take(i + 1).drop_last() == cells@.take(i as int));
                assert(cells@.take(i + 1).last() == cells@[i as int]);
                if i > 0 {
                    push_char(&mut out, '\n');
                } else {
                    assert(cells@.take(1)[0] == cells@[0]);
                }
                let mut t = String::new();
                blocks_text_after(&mut t, &cells[i].content);
                push_str(&mut out, t.as_str());
                i += 1;
                assert(out@ =~= cells_join(cells@.take(i as int)));
            }
            assert(cells@.take(cells@.len() as int) == cells@);
            out
        },
        Block::Formula(formula) => match &formula.latex {
            Some(latex) => latex.clone(),
            None => formula.raw_eqedit.clone(),
        },
        Block::Footnote { content, .. } | Block::PageHeader { content, .. } | Block::PageFooter {
            content,
            ..
        } => {
            let mut s = String::new();
            blocks_text_after(&mut s, content);
            s
        },
        _ => String::new(),
    }
}

/// Page scope of a header or footer.
fn apply_text(apply: &HeaderFooterApply) -> (s: &'static str)
    ensures
        s@ == apply_text_spec(*apply),
{
    match apply {
        HeaderFooterApply::All => "all",
        HeaderFooterApply::Even => "even",
        HeaderFooterApply::Odd => "odd",
        HeaderFooterApply::First => "first",
    }
}

/// Payload name of a loss kind.
fn loss_kind_name(kind: &LossKind) -> (s: String)
    ensures
        s@ == loss_kind_name_spec(kind@),
{
    match kind {
        LossKind::FontInfo => owned("font_info"),
        LossKind::CharColor => owned("char_color"),
        LossKind::NamedStyle => owned("named_style"),
        LossKind::SectionSettings => owned("section_settings"),
        LossKind::FloatingObject => owned("floating_object"),
        LossKind::TextBox => owned("text_box"),
        LossKind::TrackChanges => owned("track_changes"),
        LossKind::FormulaFallback => owned("formula_fallback"),
        LossKind::Caption => owned("caption"),
        LossKind::Other(value) => {
            let mut s = owned("other:");
            push_str(&mut s, value.as_str());
            s
        },
    }
}

/// Payload of a loss entry.
fn loss_payload(loss: &LossEntry) -> (p: PayloadLoss)
    ensures
        p@ == loss_payload_spec(loss@),
{
    PayloadLoss {
        kind: loss_kind_name(&loss.kind),
        location: loss.location.clone(),
        detail: loss.detail.clone(),
    }
}

/// Payload of an asset: its bytes in base64.
fn asset_payload(asset: &ResourceAsset) -> (p: PayloadAsset)
    requires
        crate::resources::base64_fits(asset.data@.len()),
    ensures
        p@ == asset_payload_spec(asset@),
{
    let data_base64 = crate::resources::encode_base64(asset.data.as_slice());
    PayloadAsset { path: asset.path.clone(), mime: asset.mime.clone(), data_base64 }
}

impl PayloadLocation {
    /// A resolved location.
    fn exact(loc: &Location) -> (p: PayloadLocation)
        ensures
            p@ == loc_exact(*loc),
    {
        PayloadLocation {
            status: owned("exact"),
            page: Some(loc.page),
            bbox: Some(
                PayloadBBox { x_min: loc.x_min, y_min: loc.y_min, x_max: loc.x_max, y_max: loc.y_max },
            ),
            resolution: Some(LOCATION_RESOLUTION),
            reason: None,
        }
    }

    /// A location that could not be resolved.
    fn fallback(status: &str, reason: &str) -> (p: PayloadLocation)
        ensures
            p@ == loc_fallback(status@, reason@),
    {
        PayloadLocation {
            status: owned(status),
            page: None,
            bbox: None,
            resolution: Some(LOCATION_RESOLUTION),
            reason: Some(owned(reason)),
        }
    }

    /// The location of a block kind without layout.
    fn not_applicable(reason: &str) -> (p: PayloadLocation)
        ensures
            p@ == loc_not_applicable(reason@),
    {
        PayloadLocation {
            status: owned("not_applicable"),
            page: None,
            bbox: None,
            resolution: None,
            reason: Some(owned(reason)),
        }
    }
}

/// The payload location of a block with provenance `prov`.
fn location_payload(opts: &ConvertOptions, locs: &LocationMap, prov: Option<Prov>) -> (p:
    PayloadLocation)
    ensures
        p@ == location_spec(opts.with_location, locs@, prov),
{
    if !opts.with_location {
        return PayloadLocation::fallback("not_requested", "ConvertOptions::with_location is false");
    }
    match prov {
        None => PayloadLocation::fallback(
            "no_provenance",
            "IR block has no stable model provenance for layout join",
        ),
        Some(p) => match locs.get(&p) {
            Some(l) => PayloadLocation::exact(l),
            None => PayloadLocation::fallback(
                "unresolved",
                "layout pass did not resolve a bounding box for this provenance",
            ),
        },
    }
}

} // verus!

verus! {

/// Options, locations and the assets collected so far.
struct PayloadCtx<'a> {
    opts: &'a ConvertOptions,
    locs: &'a LocationMap,
    assets: Vec<ResourceAsset>,
}

impl<'a> PayloadCtx<'a> {
    closed spec fn pctx(&self) -> PCtx {
        PCtx {
            with_location: self.opts.with_location,
            locs: self.locs@,
            policy: self.opts.resource_policy@,
        }
    }

    /// A payload block with every optional part empty.
    fn base_block(loc: &String, kind: &str, location: PayloadLocation) -> (b: PayloadBlock)
        ensures
            b@ == pblock_base(loc@, kind@, location@),
    {
        let b = PayloadBlock {
            id: loc.clone(),
            kind: owned(kind),
            text: None,
            inlines: Vec::new(),
            level: None,
            ordered: None,
            location,
            children: Vec::new(),
            items: Vec::new(),
            table: None,
            formula: None,
            resource: None,
            thread_id: None,
            custom_namespace: None,
        };
        assert(pinlines_view(b.inlines@) =~= Seq::<PInlineModel>::empty());
        assert(pblocks_view(b.children@) =~= Seq::<PBlockModel>::empty());
        assert(pitems_view(b.items@) =~= Seq::<PItemModel>::empty());
        b
    }

    /// A paragraph or heading block.
    fn text_block(
        &self,
        loc: &String,
        kind: &str,
        level: Option<u8>,
        content: &Vec<Inline>,
        location: PayloadLocation,
    ) -> (b: PayloadBlock)
        ensures
            b@ == (PBlockModel {
                text: Some(ptext_inlines(content@)),
                inlines: pinlines(content@),
                level,
                ..pblock_base(loc@, kind@, location@)
            }),
    {
        let mut b = Self::base_block(loc, kind, location);
        b.text = Some(inline_text(content));
        b.inlines = inlines_payload(content);
        b.level = level;
        b
    }

    /// A block with no text and no layout.
    fn empty_block(&self, loc: &String, kind: &str, thread_id: Option<String>) -> (b: PayloadBlock)
        ensures
            b@ == (PBlockModel {
                thread_id: opt_str(thread_id),
                ..pblock_base(loc@, kind@, loc_not_applicable("block type has no layout payload"@))
            }),
    {
        let mut b = Self::base_block(
            loc,
            kind,
            PayloadLocation::not_applicable("block type has no layout payload"),
        );
        b.thread_id = thread_id;
        b
    }

    /// A footnote, header or footer block holding `content`.
    fn container_block(
        &mut self,
        loc: &String,
        kind: &str,
        content: &Vec<Block>,
        location: PayloadLocation,
    ) -> (b: PayloadBlock)
        requires
            blocks_encodable(content@),
        ensures
            b@ == (PBlockModel {
                text: Some(btexts(content@)),
                children: pblocks(content@, loc@, old(self).pctx()),
                ..pblock_base(loc@, kind@, location@)
            }),
            final(self).pctx() == old(self).pctx(),
            assets_model(final(self).assets@) == assets_model(old(self).assets@) + blocks_assets(
                content@,
                loc@,
                old(self).pctx().policy,
            ),
        decreases content@, 1nat,
    {
        let mut b = Self::base_block(loc, kind, location);
        b.text = Some(blocks_text(content));
        b.children = self.blocks_payload(content, loc);
        b
    }

    /// Payload of child blocks under `loc`.
    fn blocks_payload(&mut self, blocks: &Vec<Block>, loc: &String) -> (v: Vec<PayloadBlock>)
        requires
            blocks_encodable(blocks@),
        ensures
            pblocks_view(v@) == pblocks(blocks@, loc@, old(self).pctx()),
            final(self).pctx() == old(self).pctx(),
            assets_model(final(self).assets@) == assets_model(old(self).assets@) + blocks_assets(
                blocks@,
                loc@,
                old(self).pctx().policy,
            ),
        decreases blocks@, 0nat,
    {
        let ghost a0 = assets_model(self.assets@);
        proof {
            crate::ir::block::lemma_blocks_encodable(blocks@);
        }
        let mut v: Vec<PayloadBlock> = Vec::new();
        let mut bi: usize = 0;
        while bi < blocks.len()
            invariant
                bi <= blocks@.len(),
                forall|j: int| 0 <= j < blocks@.len() ==> block_encodable(#[trigger] blocks@[j]),
                self.pctx() == old(self).pctx(),
                pblocks_view(v@) == pblocks(blocks@.take(bi as int), loc@, self.pctx()),
                assets_model(self.assets@) == a0 + blocks_assets(
                    blocks@.take(bi as int),
                    loc@,
                    self.pctx().policy,
                ),
            decreases blocks.len() - bi,
        {
            assert(blocks@.take(bi + 1).drop_last() == blocks@.take(bi as int));
            let mut child = loc.clone();
            push_str(&mut child, "/block[");
            push_usize(&mut child, bi);
            push_str(&mut child, "]");
            assert(child@ =~= child_loc(loc@, bi as nat));
            let p = self.block_payload(&blocks[bi], &child);
            let ghost old_v = v@;
            v.push(p);
            assert(v@.drop_last() == old_v);
            bi += 1;
            assert(assets_model(self.assets@) =~= a0 + blocks_assets(
                blocks@.take(bi as int),
                loc@,
                self.pctx().policy,
            ));
        }
        assert(blocks@.take(blocks@.len() as int) == blocks@);
        v
    }

    /// Payload of one table cell.
    fn table_cell_payload(&mut self, cell: &TableCell, loc: &String) -> (c: PayloadTableCell)
        requires
            blocks_encodable(cell.content@),
        ensures
            c.row == cell.row,
            c.col == cell.col,
            c.row_span == cell.row_span,
            c.col_span == cell.col_span,
            c.is_header == cell.is_header,
            pblocks_view(c.blocks@) == pblocks(cell.content@, loc@, old(self).pctx()),
            final(self).pctx() == old(self).pctx(),
            assets_model(final(self).assets@) == assets_model(old(self).assets@) + blocks_assets(
                cell.content@,
                loc@,
                old(self).pctx().policy,
            ),
        decreases cell, 0nat,
    {
        PayloadTableCell {
            row: cell.row,
            col: cell.col,
            row_span: cell.row_span,
            col_span: cell.col_span,
            is_header: cell.is_header,
            blocks: self.blocks_payload(&cell.content, loc),
        }
    }
}

} // verus!

verus! {

impl<'a> PayloadCtx<'a> {
    /// Payload of a table block.
    fn table_block(&mut self, table: &Table, loc: &String) -> (b: PayloadBlock)
        requires
            crate::ir::block::cells_encodable(table.cells@),
        ensures
            b@ == pb(Block::Table(*table), loc@, old(self).pctx()),
            final(self).pctx() == old(self).pctx(),
            assets_model(final(self).assets@) == assets_model(old(self).assets@) + cells_assets(
                table.cells@,
                loc@,
                old(self).pctx().policy,
            ),
        decreases table, 0nat,
    {
        let ghost a0 = assets_model(self.assets@);
        proof {
            crate::ir::block::lemma_cells_encodable(table.cells@);
        }
        let location = location_payload(self.opts, self.locs, table.prov);
        let mut b = Self::base_block(loc, "table", location);
        let cells = &table.cells;
        let mut text = String::new();
        let mut cells_out: Vec<PayloadTableCell> = Vec::new();
        let mut ci: usize = 0;
        while ci < cells.len()
            invariant
                ci <= cells@.len(),
                forall|j: int| 0 <= j < cells@.len() ==> blocks_encodable(#[trigger] cells@[j].content@),
                forall|j: int| 0 <= j < cells@.len() ==> decreases_to!(*table => #[trigger] cells@[j]),
                self.pctx() == old(self).pctx(),
                text@ == cells_flat_text(cells@.take(ci as int)),
                pcells_view(cells_out@) == pcells(cells@.take(ci as int), loc@, self.pctx()),
                assets_model(self.assets@) == a0 + cells_assets(
                    cells@.take(ci as int),
                    loc@,
                    self.pctx().policy,
                ),
            decreases cells.len() - ci,
        {
            assert(cells@.take(ci + 1).drop_last() == cells@.take(ci as int));
            assert(cells@.take(ci + 1).last() == cells@[ci as int]);
            blocks_text_after(&mut text, &cells[ci].content);
            let mut cell_loc_s = loc.clone();
            push_str(&mut cell_loc_s, "/cell[");
            push_usize(&mut cell_loc_s, ci);
            push_str(&mut cell_loc_s, "]");
            assert(cell_loc_s@ =~= cell_loc(loc@, ci as nat));
            let c = self.table_cell_payload(&cells[ci], &cell_loc_s);
            let ghost old_c = cells_out@;
            cells_out.push(c);
            assert(cells_out@.drop_last() == old_c);
            ci += 1;
            assert(assets_model(self.assets@) =~= a0 + cells_assets(
                cells@.take(ci as int),
                loc@,
                self.pctx().policy,
            ));
        }
        assert(cells@.take(cells@.len() as int) == cells@);
        let caption = match &table.caption {
            Some(c) => Some(inline_text(c)),
            None => None,
        };
        b.text = Some(text);
        b.table = Some(PayloadTable { rows: table.rows, cols: table.cols, caption, cells: cells_out });
        b
    }

    /// Payload of one block at `loc`; pictures add their asset, if any.
    fn block_payload(&mut self, block: &Block, loc: &String) -> (b: PayloadBlock)
        requires
            block_encodable(*block),
        ensures
            b@ == pb(*block, loc@, old(self).pctx()),
            final(self).pctx() == old(self).pctx(),
            assets_model(final(self).assets@) == assets_model(old(self).assets@) + passets(
                *block,
                loc@,
                old(self).pctx().policy,
            ),
        decreases block, 0nat,
    {
        let ghost a0 = assets_model(self.assets@);
        match block {
            Block::Paragraph { content, prov, .. } => {
                let location = location_payload(self.opts, self.locs, *prov);
                let b = self.text_block(loc, "paragraph", None, content, location);
                assert(assets_model(self.assets@) =~= a0 + passets(*block, loc@, self.pctx().policy));
                b
            },
            Block::Heading { level, content, prov, .. } => {
                let location = location_payload(self.opts, self.locs, *prov);
                let lvl: u8 = if *level < 1 {
                    1
                } else if *level > 6 {
                    6
                } else {
                    *level
                };
                let b = self.text_block(loc, "heading", Some(lvl), content, location);
                assert(assets_model(self.assets@) =~= a0 + passets(*block, loc@, self.pctx().policy));
                b
            },
            Block::List { ordered, items, prov, .. } => {
                proof {
                    crate::ir::block::lemma_items_encodable(items@);
                }
                let location = location_payload(self.opts, self.locs, *prov);
                let mut b = Self::base_block(loc, "list", location);
                let mut text = String::new();
                let mut items_out: Vec<PayloadListItem> = Vec::new();
                let mut ii: usize = 0;
                while ii < items.len()
                    invariant
                        ii <= items@.len(),
                        forall|j: int|
                            0 <= j < items@.len() ==> blocks_encodable(#[trigger] items@[j].content@),
                        forall|j: int|
                            0 <= j < items@.len() ==> decreases_to!(*block => #[trigger] items@[j].content@),
                        self.pctx() == old(self).pctx(),
                        text@ == items_flat_text(items@.take(ii as int)),
                        pitems_view(items_out@) == pitems(items@.take(ii as int), loc@, self.pctx()),
                        assets_model(self.assets@) == a0 + items_assets(
                            items@.take(ii as int),
                            loc@,
                            self.pctx().policy,
                        ),
                    decreases items.len() - ii,
                {
                    assert(items@.take(ii + 1).drop_last() == items@.take(ii as int));
                    assert(items@.take(ii + 1).last() == items@[ii as int]);
                    blocks_text_after(&mut text, &items[ii].content);
                    let mut item_loc_s = loc.clone();
                    push_str(&mut item_loc_s, "/ldiv[");
                    push_usize(&mut item_loc_s, ii);
                    push_str(&mut item_loc_s, "]");
                    assert(item_loc_s@ =~= item_loc(loc@, ii as nat));
                    let blocks = self.blocks_payload(&items[ii].content, &item_loc_s);
                    let ghost old_i = items_out@;
                    items_out.push(PayloadListItem { index: ii, blocks });
                    assert(items_out@.drop_last() == old_i);
                    ii += 1;
                    assert(assets_model(self.assets@) =~= a0 + items_assets(
                        items@.take(ii as int),
                        loc@,
                        self.pctx().policy,
                    ));
                }
                assert(items@.take(items@.len() as int) == items@);
                b.text = Some(text);
                b.ordered = Some(*ordered);
                b.items = items_out;
                b
            },
            Block::Table(table) => self.table_block(table, loc),
            Block::Picture { data, extension, prov, .. } => {
                let resource = resolve_resource(
                    &self.opts.resource_policy,
                    loc.as_str(),
                    extension.as_str(),
                    data.as_slice(),
                );
                let asset_path = match &resource.asset {
                    Some(asset) => Some(asset.path.clone()),
                    None => None,
                };
                if let Some(asset) = resource.asset {
                    self.assets.push(asset);
                    assert(assets_model(self.assets@) =~= a0 + seq![asset@]);
                } else {
                    assert(assets_model(self.assets@) =~= a0 + Seq::<AssetModel>::empty());
                }
                let location = location_payload(self.opts, self.locs, *prov);
                let mut b = Self::base_block(loc, "picture", location);
                b.resource = Some(PayloadResource { uri: resource.uri, mime: resource.mime, asset_path });
                b
            },
            Block::Formula(formula) => {
                let location = location_payload(self.opts, self.locs, formula.prov);
                let mut b = Self::base_block(loc, "formula", location);
                let text = match &formula.latex {
                    Some(latex) => latex.clone(),
                    None => formula.raw_eqedit.clone(),
                };
                b.text = Some(text);
                b.formula = Some(
                    PayloadFormula {
                        raw_eqedit: formula.raw_eqedit.clone(),
                        latex: formula.latex.clone(),
                    },
                );
                assert(assets_model(self.assets@) =~= a0 + passets(*block, loc@, self.pctx().policy));
                b
            },
            Block::PageBreak => {
                let b = self.empty_block(loc, "page_break", None);
                assert(assets_model(self.assets@) =~= a0 + passets(*block, loc@, self.pctx().policy));
                b
            },
            Block::Footnote { number, content, prov } => {
                let location = location_payload(self.opts, self.locs, *prov);
                let mut b = self.container_block(loc, "footnote", content, location);
                let mut text = owned("[^");
                push_usize(&mut text, *number);
                push_str(&mut text, "] ");
                let body = blocks_text(content);
                push_str(&mut text, body.as_str());
                b.text = Some(text);
                b
            },
            Block::PageHeader { content, apply, prov } => {
                let location = location_payload(self.opts, self.locs, *prov);
                let mut b = self.container_block(loc, "page_header", content, location);
                let mut text = owned(apply_text(apply));
                push_str(&mut text, ": ");
                let body = blocks_text(content);
                push_str(&mut text, body.as_str());
                b.text = Some(text);
                b
            },
            Block::PageFooter { content, apply, prov } => {
                let location = location_payload(self.opts, self.locs, *prov);
                let mut b = self.container_block(loc, "page_footer", content, location);
                let mut text = owned(apply_text(apply));
                push_str(&mut text, ": ");
                let body = blocks_text(content);
                push_str(&mut text, body.as_str());
                b.text = Some(text);
                b
            },
            Block::ThreadStart { thread_id } => {
                let b = self.empty_block(loc, "thread_start", Some(thread_id.clone()));
                assert(assets_model(self.assets@) =~= a0 + passets(*block, loc@, self.pctx().policy));
                b
            },
            Block::ThreadContinuation { thread_id } => {
                let b = self.empty_block(loc, "thread_continuation", Some(thread_id.clone()));
                assert(assets_model(self.assets@) =~= a0 + passets(*block, loc@, self.pctx().policy));
                b
            },
            Block::Custom { namespace, .. } => {
                let mut b = Self::base_block(
                    loc,
                    "custom",
                    PayloadLocation::not_applicable("custom block has no layout provenance"),
                );
                b.custom_namespace = Some(namespace.clone());
                assert(assets_model(self.assets@) =~= a0 + passets(*block, loc@, self.pctx().policy));
                b
            },
        }
    }
}

} // verus!

verus! {

/// Build a stable semantic payload from the internal IR.
///
/// Block ids are their locations (`section[i]/block[j]`, nested with
/// `/block[k]`, `/ldiv[k]`, `/cell[k]`); assets are the pictures' assets in
/// document order, base64-encoded; losses are `loss` in order.
pub fn build_payload(
    doc: &SirDocument,
    opts: &ConvertOptions,
    locs: &LocationMap,
    loss: &LossReport,
) -> (p: SemanticPayload)
    requires
        doc_encodable(*doc),
    ensures
        p@ == payload_spec(
            *doc,
            PCtx {
                with_location: opts.with_location,
                locs: locs@,
                policy: opts.resource_policy@,
            },
            loss@,
        ),
{
    let mut ctx = PayloadCtx { opts, locs, assets: Vec::new() };
    let ghost c = ctx.pctx();
    assert(assets_model(ctx.assets@) =~= Seq::<AssetModel>::empty());
    let mut sections: Vec<PayloadSection> = Vec::new();
    let mut si: usize = 0;
    while si < doc.sections.len()
        invariant
            si <= doc.sections@.len(),
            doc_encodable(*doc),
            ctx.pctx() == c,
            psections_view(sections@) == psections(doc.sections@.take(si as int), c),
            assets_model(ctx.assets@) == doc_assets(doc.sections@.take(si as int), c.policy),
        decreases doc.sections.len() - si,
    {
        let section = &doc.sections[si];
        assert(doc.sections@.take(si + 1).drop_last() == doc.sections@.take(si as int));
        assert(doc.sections@.take(si + 1).last() == *section);
        proof {
            crate::ir::block::lemma_blocks_encodable(section.blocks@);
        }
        let ghost a_s = assets_model(ctx.assets@);
        let mut blocks: Vec<PayloadBlock> = Vec::new();
        let mut bi: usize = 0;
        while bi < section.blocks.len()
            invariant
                bi <= section.blocks@.len(),
                forall|j: int|
                    0 <= j < section.blocks@.len() ==> block_encodable(
                        #[trigger] section.blocks@[j],
                    ),
                ctx.pctx() == c,
                pblocks_view(blocks@) == psection_blocks(section.blocks@.take(bi as int), si as nat, c),
                assets_model(ctx.assets@) == a_s + psection_assets(
                    section.blocks@.take(bi as int),
                    si as nat,
                    c.policy,
                ),
            decreases section.blocks.len() - bi,
        {
            assert(section.blocks@.take(bi + 1).drop_last() == section.blocks@.take(bi as int));
            let mut loc = owned("section[");
            push_usize(&mut loc, si);
            push_str(&mut loc, "]/block[");
            push_usize(&mut loc, bi);
            push_str(&mut loc, "]");
            assert(loc@ =~= top_loc(si as nat, bi as nat));
            let b = ctx.block_payload(&section.blocks[bi], &loc);
            let ghost old_b = blocks@;
            blocks.push(b);
            assert(blocks@.drop_last() == old_b);
            bi += 1;
            assert(assets_model(ctx.assets@) =~= a_s + psection_assets(
                section.blocks@.take(bi as int),
                si as nat,
                c.policy,
            ));
        }
        assert(section.blocks@.take(section.blocks@.len() as int) == section.blocks@);
        let ghost old_s = sections@;
        sections.push(PayloadSection { index: si, blocks });
        assert(sections@.drop_last() == old_s);
        si += 1;
        assert(psections_view(sections@) =~= psections(doc.sections@.take(si as int), c));
        assert(assets_model(ctx.assets@) =~= doc_assets(doc.sections@.take(si as int), c.policy));
    }
    assert(doc.sections@.take(doc.sections@.len() as int) == doc.sections@);
    let ghost all_assets = assets_model(ctx.assets@);
    proof {
        lemma_doc_assets_fit(doc.sections@, c.policy);
    }
    let mut assets: Vec<PayloadAsset> = Vec::new();
    let mut k: usize = 0;
    while k < ctx.assets.len()
        invariant
            k <= ctx.assets@.len(),
            all_assets == assets_model(ctx.assets@),
            assets_fit(all_assets),
            assets@.len() == k,
            forall|j: int| 0 <= j < k ==> (#[trigger] assets@[j])@ == asset_payload_spec(all_assets[j]),
        decreases ctx.assets.len() - k,
    {
        let asset = &ctx.assets[k];
        proof {
            assert(all_assets[k as int] == asset@);
            assert(crate::resources::base64_fits(all_assets[k as int].data.len()));
        }
        assets.push(asset_payload(asset));
        k += 1;
    }
    assert(assets@.map_values(|a: PayloadAsset| a@) =~= all_assets.map_values(
        |a: AssetModel| asset_payload_spec(a),
    ));
    let entries = loss.entries();
    let mut losses: Vec<PayloadLoss> = Vec::new();
    let mut k: usize = 0;
    while k < entries.len()
        invariant
            k <= entries@.len(),
            entries_model(entries@) == loss@,
            losses@.len() == k,
            forall|j: int| 0 <= j < k ==> (#[trigger] losses@[j])@ == loss_payload_spec(loss@[j]),
        decreases entries.len() - k,
    {
        let p = loss_payload(&entries[k]);
        assert(loss@[k as int] == entries@[k as int]@);
        losses.push(p);
        k += 1;
    }
    assert(losses@.map_values(|l: PayloadLoss| l@) =~= loss@.map_values(
        |e: LossEntryModel| loss_payload_spec(e),
    ));
    SemanticPayload {
        schema_version: owned(PAYLOAD_SCHEMA_VERSION),
        doclang_version: owned(doc.doclang_version),
        sections,
        assets,
        losses,
    }
}

} // verus!

verus! {

/// Whether the base64 text of every asset of `s` fits in memory.
pub open spec fn assets_fit(s: Seq<AssetModel>) -> bool {
    forall|i: int| 0 <= i < s.len() ==> crate::resources::base64_fits(#[trigger] s[i].data.len())
}

proof fn lemma_assets_fit_concat(a: Seq<AssetModel>, b: Seq<AssetModel>)
    requires
        assets_fit(a),
        assets_fit(b),
    ensures
        assets_fit(a + b),
{
    assert forall|i: int| 0 <= i < (a + b).len() implies crate::resources::base64_fits(
        #[trigger] (a + b)[i].data.len(),
    ) by {
        if i < a.len() {
            assert((a + b)[i] == a[i]);
        } else {
            assert((a + b)[i] == b[i - a.len()]);
        }
    }
}

proof fn lemma_block_assets_fit(b: Block, loc: Seq<char>, policy: PolicyModel)
    requires
        block_encodable(b),
    ensures
        assets_fit(passets(b, loc, policy)),
    decreases b, 0nat,
{
    match b {
        Block::List { items, .. } => lemma_items_assets_fit(items@, loc, policy),
        Block::Table(t) => lemma_cells_assets_fit(t.cells@, loc, policy),
        Block::Footnote { content, .. } => lemma_blocks_assets_fit(content@, loc, policy),
        Block::PageHeader { content, .. } => lemma_blocks_assets_fit(content@, loc, policy),
        Block::PageFooter { content, .. } => lemma_blocks_assets_fit(content@, loc, policy),
        _ => {},
    }
}

proof fn lemma_blocks_assets_fit(bs: Seq<Block>, loc: Seq<char>, policy: PolicyModel)
    requires
        blocks_encodable(bs),
    ensures
        assets_fit(blocks_assets(bs, loc, policy)),
    decreases bs, 0nat,
{
    if bs.len() > 0 {
        lemma_blocks_assets_fit(bs.drop_last(), loc, policy);
        lemma_block_assets_fit(bs.last(), child_loc(loc, (bs.len() - 1) as nat), policy);
        lemma_assets_fit_concat(
            blocks_assets(bs.drop_last(), loc, policy),
            passets(bs.last(), child_loc(loc, (bs.len() - 1) as nat), policy),
        );
    }
}

proof fn lemma_items_assets_fit(items: Seq<ListItem>, loc: Seq<char>, policy: PolicyModel)
    requires
        crate::ir::block::items_encodable(items),
    ensures
        assets_fit(items_assets(items, loc, policy)),
    decreases items, 0nat,
{
    if items.len() > 0 {
        let il = item_loc(loc, (items.len() - 1) as nat);
        lemma_items_assets_fit(items.drop_last(), loc, policy);
        lemma_blocks_assets_fit(items.last().content@, il, policy);
        lemma_assets_fit_concat(
            items_assets(items.drop_last(), loc, policy),
            blocks_assets(items.last().content@, il, policy),
        );
    }
}

proof fn lemma_cells_assets_fit(cells: Seq<TableCell>, loc: Seq<char>, policy: PolicyModel)
    requires
        crate::ir::block::cells_encodable(cells),
    ensures
        assets_fit(cells_assets(cells, loc, policy)),
    decreases cells, 0nat,
{
    if cells.len() > 0 {
        let cl = cell_loc(loc, (cells.len() - 1) as nat);
        lemma_cells_assets_fit(cells.drop_last(), loc, policy);
        lemma_blocks_assets_fit(cells.last().content@, cl, policy);
        lemma_assets_fit_concat(
            cells_assets(cells.drop_last(), loc, policy),
            blocks_assets(cells.last().content@, cl, policy),
        );
    }
}

proof fn lemma_section_assets_fit(bs: Seq<Block>, si: nat, policy: PolicyModel)
    requires
        blocks_encodable(bs),
    ensures
        assets_fit(psection_assets(bs, si, policy)),
    decreases bs.len(),
{
    if bs.len() > 0 {
        crate::ir::block::lemma_blocks_encodable(bs);
        lemma_section_assets_fit(bs.drop_last(), si, policy);
        lemma_block_assets_fit(bs.last(), top_loc(si, (bs.len() - 1) as nat), policy);
        lemma_assets_fit_concat(
            psection_assets(bs.drop_last(), si, policy),
            passets(bs.last(), top_loc(si, (bs.len() - 1) as nat), policy),
        );
    }
}

proof fn lemma_doc_assets_fit(ss: Seq<Section>, policy: PolicyModel)
    requires
        forall|i: int| 0 <= i < ss.len() ==> blocks_encodable(#[trigger] ss[i].blocks@),
    ensures
        assets_fit(doc_assets(ss, policy)),
    decreases ss.len(),
{
    if ss.len() > 0 {
        assert forall|i: int| 0 <= i < ss.drop_last().len() implies blocks_encodable(
            #[trigger] ss.drop_last()[i].blocks@,
        ) by {
            assert(ss.drop_last()[i] == ss[i]);
        }
        lemma_doc_assets_fit(ss.drop_last(), policy);
        lemma_section_assets_fit(ss.last().blocks@, (ss.len() - 1) as nat, policy);
        lemma_assets_fit_concat(
            doc_assets(ss.drop_last(), policy),
            psection_assets(ss.last().blocks@, (ss.len() - 1) as nat, policy),
        );
    }
}

} // verus!

verus! {

/// Two contexts that request no locations and share a resource policy.
pub open spec fn same_without_locations(c1: PCtx, c2: PCtx) -> bool {
    !c1.with_location && !c2.with_location && c1.policy == c2.policy
}

proof fn lemma_pb_without_locations(b: Block, loc: Seq<char>, c1: PCtx, c2: PCtx)
    requires
        same_without_locations(c1, c2),
    ensures
        pb(b, loc, c1) == pb(b, loc, c2),
    decreases b, 0nat,
{
    match b {
        Block::List { items, .. } => lemma_pitems_without_locations(items@, loc, c1, c2),
        Block::Table(t) => lemma_pcells_without_locations(t.cells@, loc, c1, c2),
        Block::Footnote { content, .. } => lemma_pblocks_without_locations(content@, loc, c1, c2),
        Block::PageHeader { content, .. } => lemma_pblocks_without_locations(content@, loc, c1, c2),
        Block::PageFooter { content, .. } => lemma_pblocks_without_locations(content@, loc, c1, c2),
        _ => {},
    }
}

proof fn lemma_pblocks_without_locations(bs: Seq<Block>, loc: Seq<char>, c1: PCtx, c2: PCtx)
    requires
        same_without_locations(c1, c2),
    ensures
        pblocks(bs, loc, c1) == pblocks(bs, loc, c2),
    decreases bs, 0nat,
{
    if bs.len() > 0 {
        lemma_pblocks_without_locations(bs.drop_last(), loc, c1, c2);
        lemma_pb_without_locations(bs.last(), child_loc(loc, (bs.len() - 1) as nat), c1, c2);
    }
}

proof fn lemma_pitems_without_locations(items: Seq<ListItem>, loc: Seq<char>, c1: PCtx, c2: PCtx)
    requires
        same_without_locations(c1, c2),
    ensures
        pitems(items, loc, c1) == pitems(items, loc, c2),
    decreases items, 0nat,
{
    if items.len() > 0 {
        lemma_pitems_without_locations(items.drop_last(), loc, c1, c2);
        lemma_pblocks_without_locations(
            items.last().content@,
            item_loc(loc, (items.len() - 1) as nat),
            c1,
            c2,
        );
    }
}

proof fn lemma_pcells_without_locations(cells: Seq<TableCell>, loc: Seq<char>, c1: PCtx, c2: PCtx)
    requires
        same_without_locations(c1, c2),
    ensures
        pcells(cells, loc, c1) == pcells(cells, loc, c2),
    decreases cells, 0nat,
{
    if cells.len() > 0 {
        lemma_pcells_without_locations(cells.drop_last(), loc, c1, c2);
        lemma_pblocks_without_locations(
            cells.last().content@,
            cell_loc(loc, (cells.len() - 1) as nat),
            c1,
            c2,
        );
    }
}

proof fn lemma_psection_without_locations(bs: Seq<Block>, si: nat, c1: PCtx, c2: PCtx)
    requires
        same_without_locations(c1, c2),
    ensures
        psection_blocks(bs, si, c1) == psection_blocks(bs, si, c2),
    decreases bs.len(),
{
    if bs.len() > 0 {
        lemma_psection_without_locations(bs.drop_last(), si, c1, c2);
        lemma_pb_without_locations(bs.last(), top_loc(si, (bs.len() - 1) as nat), c1, c2);
    }
}

proof fn lemma_psections_without_locations(ss: Seq<Section>, c1: PCtx, c2: PCtx)
    requires
        same_without_locations(c1, c2),
    ensures
        psections(ss, c1) == psections(ss, c2),
    decreases ss.len(),
{
    if ss.len() > 0 {
        lemma_psections_without_locations(ss.drop_last(), c1, c2);
        lemma_psection_without_locations(ss.last().blocks@, (ss.len() - 1) as nat, c1, c2);
    }
}

/// The plain text of inline nodes distributes over concatenation: the text
/// of `a` followed by `b` is the text of `a` followed by the text of `b`, and
/// the text of no nodes is empty.
pub proof fn law_inline_text_concat(a: Seq<Inline>, b: Seq<Inline>)
    ensures
        ptext_inlines(a + b) == ptext_inlines(a) + ptext_inlines(b),
        ptext_inlines(Seq::<Inline>::empty()) == Seq::<char>::empty(),
    decreases b.len(),
{
    if b.len() == 0 {
        assert(a + b =~= a);
        assert(ptext_inlines(a) + ptext_inlines(b) =~= ptext_inlines(a));
    } else {
        law_inline_text_concat(a, b.drop_last());
        assert((a + b).drop_last() =~= a + b.drop_last());
        assert((a + b).last() == b.last());
        assert(ptext_inlines(a) + ptext_inlines(b.drop_last()) + ptext_inline(b.last())
            =~= ptext_inlines(a) + (ptext_inlines(b.drop_last()) + ptext_inline(b.last())));
    }
}

/// When locations are not requested the layout map plays no part: the
/// payload is the same whatever locations are supplied.
pub proof fn law_payload_ignores_locations_when_not_requested(
    doc: SirDocument,
    locs1: Map<Prov, Location>,
    locs2: Map<Prov, Location>,
    policy: PolicyModel,
    loss: Seq<LossEntryModel>,
)
    ensures
        payload_spec(doc, PCtx { with_location: false, locs: locs1, policy }, loss) == payload_spec(
            doc,
            PCtx { with_location: false, locs: locs2, policy },
            loss,
        ),
{
    lemma_psections_without_locations(
        doc.sections@,
        PCtx { with_location: false, locs: locs1, policy },
        PCtx { with_location: false, locs: locs2, policy },
    );
}

/// Each location that the payload reports is one of five statuses: `exact`
/// (with page, box and the 512 grid), `not_requested`, `no_provenance`,
/// `unresolved` (with the grid but no box), or `not_applicable`.
pub proof fn law_location_status(with_location: bool, locs: Map<Prov, Location>, prov: Option<Prov>)
    ensures
        ({
            let l = location_spec(with_location, locs, prov);
            &&& (l.status == "exact"@) == (l.bbox is Some)
            &&& l.resolution == Some(LOCATION_RESOLUTION)
            &&& (!with_location ==> l.status == "not_requested"@)
            &&& (with_location && prov is None ==> l.status == "no_provenance"@)
            &&& (with_location && prov is Some ==> (l.status == "exact"@ <==> locs.contains_key(
                prov.unwrap(),
            )))
        }),
{
    reveal_strlit("exact");
    reveal_strlit("not_requested");
    reveal_strlit("no_provenance");
    reveal_strlit("unresolved");
    let l = location_spec(with_location, locs, prov);
    if l.status == "exact"@ {
        assert(l.bbox is Some) by {
            if !with_location {
                assert("exact"@[0] == 'e');
                assert("not_requested"@[0] == 'n');
            } else if prov is None {
                assert("no_provenance"@[0] == 'n');
            } else if !locs.contains_key(prov.unwrap()) {
                assert("unresolved"@[0] == 'u');
            }
        }
    }
}

} // verus!

verus! {

/// The provenance a block carries; `None` for the kinds that have none.
pub open spec fn block_prov(b: Block) -> Option<Prov> {
    match b {
        Block::Paragraph { prov, .. } => prov,
        Block::Heading { prov, .. } => prov,
        Block::List { prov, .. } => prov,
        Block::Table(t) => t.prov,
        Block::Picture { prov, .. } => prov,
        Block::Formula(f) => f.prov,
        Block::Footnote { prov, .. } => prov,
        Block::PageHeader { prov, .. } => prov,
        Block::PageFooter { prov, .. } => prov,
        _ => None,
    }
}

proof fn lemma_psection_blocks_index(bs: Seq<Block>, si: nat, ctx: PCtx)
    ensures
        psection_blocks(bs, si, ctx).len() == bs.len(),
        forall|bi: int|
            0 <= bi < bs.len() ==> #[trigger] psection_blocks(bs, si, ctx)[bi] == pb(
                bs[bi],
                top_loc(si, bi as nat),
                ctx,
            ),
    decreases bs.len(),
{
    if bs.len() > 0 {
        lemma_psection_blocks_index(bs.drop_last(), si, ctx);
    }
}

proof fn lemma_psections_index(ss: Seq<Section>, ctx: PCtx)
    ensures
        psections(ss, ctx).len() == ss.len(),
        forall|si: int|
            0 <= si < ss.len() ==> #[trigger] psections(ss, ctx)[si] == (PSectionModel {
                index: si as usize,
                blocks: psection_blocks(ss[si].blocks@, si as nat, ctx),
            }),
    decreases ss.len(),
{
    if ss.len() > 0 {
        lemma_psections_index(ss.drop_last(), ctx);
    }
}

/// The payload of the `bi`-th top-level block of section `si` is that block's
/// payload at its location `section[si]/block[bi]`.
proof fn lemma_payload_block(doc: SirDocument, ctx: PCtx, loss: Seq<LossEntryModel>, si: int, bi: int)
    requires
        0 <= si < doc.sections@.len(),
        0 <= bi < doc.sections@[si].blocks@.len(),
    ensures
        payload_spec(doc, ctx, loss).sections.len() == doc.sections@.len(),
        payload_spec(doc, ctx, loss).sections[si].blocks.len() == doc.sections@[si].blocks@.len(),
        payload_spec(doc, ctx, loss).sections[si].blocks[bi] == pb(
            doc.sections@[si].blocks@[bi],
            top_loc(si as nat, bi as nat),
            ctx,
        ),
{
    lemma_psections_index(doc.sections@, ctx);
    lemma_psection_blocks_index(doc.sections@[si].blocks@, si as nat, ctx);
}

/// A block whose provenance the layout map resolves, when locations are
/// requested, is reported `exact` with the location's own page and box,
/// corner by corner, on the 512 grid.
pub proof fn law_resolved_block_location(b: Block, loc: Seq<char>, ctx: PCtx, p: Prov)
    requires
        ctx.with_location,
        block_prov(b) == Some(p),
        ctx.locs.contains_key(p),
    ensures
        ({
            let l = ctx.locs[p];
            let m = pb(b, loc, ctx).location;
            &&& m.status == "exact"@
            &&& m.page == Some(l.page)
            &&& m.bbox == Some(
                (PayloadBBox { x_min: l.x_min, y_min: l.y_min, x_max: l.x_max, y_max: l.y_max }),
            )
            &&& m.resolution == Some(LOCATION_RESOLUTION)
            &&& m.reason is None
        }),
{
}

/// In the payload of a document, every top-level block whose provenance
/// resolves to a location, when locations are requested, carries that
/// location's page and bounding box exactly.
pub proof fn law_payload_block_location(
    doc: SirDocument,
    ctx: PCtx,
    loss: Seq<LossEntryModel>,
    si: int,
    bi: int,
    p: Prov,
)
    requires
        0 <= si < doc.sections@.len(),
        0 <= bi < doc.sections@[si].blocks@.len(),
        ctx.with_location,
        block_prov(doc.sections@[si].blocks@[bi]) == Some(p),
        ctx.locs.contains_key(p),
    ensures
        ({
            let l = ctx.locs[p];
            let m = payload_spec(doc, ctx, loss).sections[si].blocks[bi].location;
            &&& m.status == "exact"@
            &&& m.page == Some(l.page)
            &&& m.bbox == Some(
                (PayloadBBox { x_min: l.x_min, y_min: l.y_min, x_max: l.x_max, y_max: l.y_max }),
            )
        }),
{
    lemma_payload_block(doc, ctx, loss, si, bi);
    law_resolved_block_location(doc.sections@[si].blocks@[bi], top_loc(si as nat, bi as nat), ctx, p);
}

/// A list block's payload reports its numbering: `ordered` is `Some` of the
/// list's own flag; every other kind of block leaves it out.
pub proof fn law_block_ordered(b: Block, loc: Seq<char>, ctx: PCtx)
    ensures
        pb(b, loc, ctx).ordered == (match b {
            Block::List { ordered, .. } => Some(ordered),
            _ => None,
        }),
{
}

/// In the payload of a document, each top-level list block reports its own
/// numbering flag.
pub proof fn law_payload_list_ordered(
    doc: SirDocument,
    ctx: PCtx,
    loss: Seq<LossEntryModel>,
    si: int,
    bi: int,
)
    requires
        0 <= si < doc.sections@.len(),
        0 <= bi < doc.sections@[si].blocks@.len(),
    ensures
        payload_spec(doc, ctx, loss).sections[si].blocks[bi].ordered == (match doc.sections@[si].blocks@[bi] {
            Block::List { ordered, .. } => Some(ordered),
            _ => None,
        }),
{
    lemma_payload_block(doc, ctx, loss, si, bi);
    law_block_ordered(doc.sections@[si].blocks@[bi], top_loc(si as nat, bi as nat), ctx);
}

} // verus!
