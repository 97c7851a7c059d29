//! Direct Markdown exporter for the Semantic IR.
//!
//! This writer does not go through DocLang XML. It consumes the same IR as the
//! other exporters and shares the resource policy handling.

use vstd::prelude::*;

use crate::ir::block::{
    Block, HeaderFooterApply, ListItem, block_encodable, blocks_encodable,
};
use crate::ir::formula::Formula;
use crate::ir::inline::Inline;
use crate::ir::style::StyleFlags;
use crate::ir::table::{Table, TableCell};
use crate::ir::{Section, SirDocument, doc_encodable};
use crate::loss::{LossEntry, LossEntryModel, LossKind, LossKindModel, LossReport, loss_model};
use crate::options::ConvertOptions;
use crate::resources::{
    AssetModel, PolicyModel, ResourceAsset, ResourcePolicy, assets_model, resolve_resource,
    resolve_spec,
};
use crate::text::{
    dec, ends_with_blank_line, owned, push_char, push_repeat, push_str, push_usize, repeat, trim,
};

verus! {

// ---------------------------------------------------------------------------
// Specification
// ---------------------------------------------------------------------------

/// A text character escaped for Markdown.
pub open spec fn md_escape_char(c: char) -> Seq<char> {
    if c == '\\' || c == '*' || c == '_' || c == '[' || c == ']' || c == '`' {
        seq!['\\', c]
    } else {
        seq![c]
    }
}

/// Text with the Markdown metacharacters `\ * _ [ ] `` ` escaped.
pub open spec fn md_escape(s: Seq<char>) -> Seq<char>
    decreases s.len(),
{
    if s.len() == 0 {
        Seq::empty()
    } else {
        md_escape(s.drop_last()) + md_escape_char(s.last())
    }
}

/// A URI made safe as a Markdown link destination: `)` and space are
/// percent-encoded.
pub open spec fn link_dest(s: Seq<char>) -> Seq<char>
    decreases s.len(),
{
    if s.len() == 0 {
        Seq::empty()
    } else {
        link_dest(s.drop_last()) + if s.last() == ')' {
            "%29"@
        } else if s.last() == ' ' {
            "%20"@
        } else {
            seq![s.last()]
        }
    }
}

/// `body` wrapped in the Markdown/HTML markers of `f`, innermost first:
/// subscript, superscript, strike, italic, bold. Underline has no marker.
pub open spec fn md_styled(f: StyleFlags, body: Seq<char>) -> Seq<char> {
    let t1 = if f.subscript {
        "<sub>"@ + body + "</sub>"@
    } else {
        body
    };
    let t2 = if f.superscript {
        "<sup>"@ + t1 + "</sup>"@
    } else {
        t1
    };
    let t3 = if f.strike {
        "~~"@ + t2 + "~~"@
    } else {
        t2
    };
    let t4 = if f.italic {
        "*"@ + t3 + "*"@
    } else {
        t3
    };
    if f.bold {
        "**"@ + t4 + "**"@
    } else {
        t4
    }
}

/// Markdown of one inline node.
pub open spec fn md_inline(i: Inline) -> Seq<char>
    decreases i,
{
    match i {
        Inline::Text(t) => md_escape(t@),
        Inline::Styled(f, ch) => md_styled(f, md_inlines(ch@)),
        Inline::FootnoteRef(n) => "[^"@ + dec(n as nat) + "]"@,
        Inline::LineBreak => seq!['\n'],
        Inline::Tab => seq![' '],
        Inline::Href { uri, content } => "["@ + md_inlines(content@) + "]("@ + link_dest(uri@)
            + ")"@,
    }
}

/// Markdown of a sequence of inline nodes.
pub open spec fn md_inlines(s: Seq<Inline>) -> Seq<char>
    decreases s,
{
    if s.len() == 0 {
        Seq::empty()
    } else {
        md_inlines(s.drop_last()) + md_inline(s.last())
    }
}

/// Joins `prev` and `next` with `sep`, skipping whichever is empty.
pub open spec fn join_nonempty(prev: Seq<char>, sep: Seq<char>, next: Seq<char>) -> Seq<char> {
    if next.len() == 0 {
        prev
    } else if prev.len() == 0 {
        next
    } else {
        prev + sep + next
    }
}

/// One-line plain summary of a block, as used for list items and table cells.
pub open spec fn summary(b: Block) -> Seq<char>
    decreases b,
{
    match b {
        Block::Paragraph { content, .. } => md_inlines(content@),
        Block::Heading { content, .. } => md_inlines(content@),
        Block::Formula(f) => match f.latex {
            Some(l) => l@,
            None => f.raw_eqedit@,
        },
        Block::Picture { .. } => "[image]"@,
        Block::PageBreak => "\\pagebreak"@,
        Block::Table(_) => "[table]"@,
        Block::Footnote { number, .. } => "[^"@ + dec(number as nat) + "]"@,
        Block::List { items, .. } => list_summary(items@),
        Block::PageHeader { content, .. } => plain(content@),
        Block::PageFooter { content, .. } => plain(content@),
        _ => Seq::empty(),
    }
}

/// The non-empty summaries of `bs`, joined with single spaces.
pub open spec fn plain(bs: Seq<Block>) -> Seq<char>
    decreases bs,
{
    if bs.len() == 0 {
        Seq::empty()
    } else {
        join_nonempty(plain(bs.drop_last()), " "@, summary(bs.last()))
    }
}

/// The plain text of every item of a list, joined with single spaces.
pub open spec fn list_summary(items: Seq<ListItem>) -> Seq<char>
    decreases items,
{
    if items.len() == 0 {
        Seq::empty()
    } else if items.len() == 1 {
        plain(items[0].content@)
    } else {
        list_summary(items.drop_last()) + " "@ + plain(items.last().content@)
    }
}

/// State of the Markdown writer: text so far, assets and losses collected.
pub struct MdState {
    pub out: Seq<char>,
    pub assets: Seq<AssetModel>,
    pub loss: Seq<LossEntryModel>,
}

/// `st` with `line` and a newline appended.
pub open spec fn md_line(st: MdState, line: Seq<char>) -> MdState {
    MdState { out: st.out + line + seq!['\n'], ..st }
}

/// `st` ending in a blank line: a newline is added unless the text already
/// ends with two.
pub open spec fn md_blank(st: MdState) -> MdState {
    if ends_with_blank_line(st.out) {
        st
    } else {
        MdState { out: st.out.push('\n'), ..st }
    }
}

/// `st` with a loss entry recorded.
pub open spec fn md_lost(st: MdState, e: LossEntryModel) -> MdState {
    MdState { loss: st.loss.push(e), ..st }
}

/// Heading level clamped to `1..=6`.
pub open spec fn clamp_level(level: u8) -> nat {
    if level < 1 {
        1
    } else if level > 6 {
        6
    } else {
        level as nat
    }
}

/// The next nesting depth.
pub open spec fn next_depth(depth: nat) -> nat {
    if depth < usize::MAX {
        depth + 1
    } else {
        depth
    }
}

/// Location of the `i`-th child block under `loc`.
pub open spec fn child_loc(loc: Seq<char>, i: nat) -> Seq<char> {
    loc + "/block["@ + dec(i) + "]"@
}

/// Location of the `i`-th list item under `loc`.
pub open spec fn item_loc(loc: Seq<char>, i: nat) -> Seq<char> {
    loc + "/ldiv["@ + dec(i) + "]"@
}

/// Location of the `bi`-th top-level block of section `si`.
pub open spec fn top_loc(si: nat, bi: nat) -> Seq<char> {
    "section["@ + dec(si) + "]/block["@ + dec(bi) + "]"@
}

/// A table cell's text escaped for a Markdown table: `|` escaped, newlines
/// turned into spaces.
pub open spec fn cell_escape(s: Seq<char>) -> Seq<char>
    decreases s.len(),
{
    if s.len() == 0 {
        Seq::empty()
    } else {
        cell_escape(s.drop_last()) + if s.last() == '|' {
            "\\|"@
        } else if s.last() == '\n' {
            seq![' ']
        } else {
            seq![s.last()]
        }
    }
}

/// Cells joined with ` | `, each escaped.
pub open spec fn join_cells(ss: Seq<Seq<char>>) -> Seq<char>
    decreases ss.len(),
{
    if ss.len() == 0 {
        Seq::empty()
    } else if ss.len() == 1 {
        cell_escape(ss[0])
    } else {
        join_cells(ss.drop_last()) + " | "@ + cell_escape(ss.last())
    }
}

/// One Markdown table row.
pub open spec fn md_row_text(ss: Seq<Seq<char>>) -> Seq<char> {
    "| "@ + join_cells(ss) + " |"@
}

/// Body of the separator row for `k` columns.
pub open spec fn sep_body(k: nat) -> Seq<char>
    decreases k,
{
    if k == 0 {
        Seq::empty()
    } else if k == 1 {
        "---"@
    } else {
        sep_body((k - 1) as nat) + " | ---"@
    }
}

/// The header separator row for `k` columns.
pub open spec fn md_separator(k: nat) -> Seq<char> {
    "| "@ + sep_body(k) + " |"@
}

/// Text of the grid cell `(r, c)`: the plain text of the last cell anchored
/// there, or empty.
pub open spec fn grid_cell(cells: Seq<TableCell>, r: int, c: int) -> Seq<char>
    decreases cells.len(),
{
    if cells.len() == 0 {
        Seq::empty()
    } else if cells.last().row == r && cells.last().col == c {
        plain(cells.last().content@)
    } else {
        grid_cell(cells.drop_last(), r, c)
    }
}

/// The texts of row `r` of the grid.
pub open spec fn grid_row(t: Table, r: int) -> Seq<Seq<char>> {
    Seq::new(t.cols as nat, |c: int| grid_cell(t.cells@, r, c))
}

/// Rows `1..k` of the table, each followed by a newline.
pub open spec fn md_rows(t: Table, k: nat) -> Seq<char>
    decreases k,
{
    if k <= 1 {
        Seq::empty()
    } else {
        md_rows(t, (k - 1) as nat) + md_row_text(grid_row(t, k - 1)) + seq!['\n']
    }
}

/// Markdown of a table: optional caption, then a pipe table.
pub open spec fn md_table(st: MdState, t: Table) -> MdState {
    let st1 = match t.caption {
        Some(c) => md_blank(md_line(st, "_"@ + md_inlines(c@) + "_"@)),
        None => st,
    };
    if t.rows == 0 || t.cols == 0 {
        st1
    } else {
        let st2 = md_line(md_line(st1, md_row_text(grid_row(t, 0))), md_separator(t.cols as nat));
        MdState { out: st2.out + md_rows(t, t.rows as nat), ..st2 }
    }
}

/// Markdown of a formula: LaTeX display math, or a fenced EqEdit block with a
/// loss entry when no LaTeX is available.
pub open spec fn md_formula(st: MdState, f: Formula, loc: Seq<char>) -> MdState {
    match f.latex {
        Some(l) => md_line(md_line(md_line(st, "$$"@), l@), "$$"@),
        None => md_lost(
            md_line(md_line(md_line(st, "```eqedit"@), f.raw_eqedit@), "```"@),
            loss_model(
                LossKindModel::FormulaFallback,
                loc,
                "no LaTeX conversion; emitted raw EqEdit script in Markdown: "@ + f.raw_eqedit@,
            ),
        ),
    }
}

/// The page-scope loss of a header or footer that does not apply to all pages.
pub open spec fn md_apply_loss(
    st: MdState,
    apply: HeaderFooterApply,
    loc: Seq<char>,
    element: Seq<char>,
) -> MdState {
    let scope = match apply {
        HeaderFooterApply::All => Seq::empty(),
        HeaderFooterApply::Even => "even pages"@,
        HeaderFooterApply::Odd => "odd pages"@,
        HeaderFooterApply::First => "first page"@,
    };
    if apply == HeaderFooterApply::All {
        st
    } else {
        md_lost(
            st,
            loss_model(
                LossKindModel::SectionSettings,
                loc,
                element + " applies to "@ + scope + "; Markdown has no page-scope marker"@,
            ),
        )
    }
}

/// Markdown of one block at `loc`, nested `depth` list levels deep.
pub open spec fn md_block(
    st: MdState,
    b: Block,
    loc: Seq<char>,
    depth: nat,
    policy: PolicyModel,
) -> MdState
    decreases b,
{
    match b {
        Block::Paragraph { content, .. } => md_blank(md_line(st, md_inlines(content@))),
        Block::Heading { level, content, .. } => md_blank(
            md_line(st, repeat("#"@, clamp_level(level)) + " "@ + md_inlines(content@)),
        ),
        Block::List { ordered, items, .. } => md_blank(
            md_items(st, ordered, items@, loc, depth, policy),
        ),
        Block::Table(t) => md_blank(md_table(st, t)),
        Block::Picture { data, extension, .. } => {
            let r = resolve_spec(policy, loc, extension@, data@);
            let st1 = match r.asset {
                Some(a) => MdState { assets: st.assets.push(a), ..st },
                None => st,
            };
            md_blank(md_line(st1, "![image]("@ + link_dest(r.uri) + ")"@))
        },
        Block::Formula(f) => md_blank(md_formula(st, f, loc)),
        Block::PageBreak => md_blank(md_line(st, "\\pagebreak"@)),
        Block::Footnote { number, content, .. } => md_blank(
            md_line(st, "[^"@ + dec(number as nat) + "]: "@ + trim(plain(content@))),
        ),
        Block::PageHeader { content, apply, .. } => md_nested(
            md_apply_loss(st, apply, loc, "page_header"@),
            content@,
            loc,
            depth,
            0,
            policy,
        ),
        Block::PageFooter { content, apply, .. } => md_nested(
            md_apply_loss(st, apply, loc, "page_footer"@),
            content@,
            loc,
            depth,
            0,
            policy,
        ),
        Block::ThreadStart { .. } => st,
        Block::ThreadContinuation { .. } => st,
        Block::Custom { namespace, .. } => md_lost(
            st,
            loss_model(
                LossKindModel::FloatingObject,
                loc,
                "custom block omitted from Markdown (ns="@ + namespace@ + ")"@,
            ),
        ),
    }
}

/// Markdown of the blocks of `bs` from index `skip` on, each at its child
/// location under `loc`.
pub open spec fn md_nested(
    st: MdState,
    bs: Seq<Block>,
    loc: Seq<char>,
    depth: nat,
    skip: nat,
    policy: PolicyModel,
) -> MdState
    decreases bs,
{
    if bs.len() == 0 {
        st
    } else {
        let prev = md_nested(st, bs.drop_last(), loc, depth, skip, policy);
        let i = (bs.len() - 1) as nat;
        if i < skip {
            prev
        } else {
            md_block(prev, bs.last(), child_loc(loc, i), depth, policy)
        }
    }
}

/// Markdown of the items of a list.
pub open spec fn md_items(
    st: MdState,
    ordered: bool,
    items: Seq<ListItem>,
    loc: Seq<char>,
    depth: nat,
    policy: PolicyModel,
) -> MdState
    decreases items,
{
    if items.len() == 0 {
        st
    } else {
        let prev = md_items(st, ordered, items.drop_last(), loc, depth, policy);
        md_item(prev, ordered, items.last(), item_loc(loc, (items.len() - 1) as nat), depth, policy)
    }
}

/// Markdown of one list item: a marker line holding the summary of its first
/// block, then its other blocks one level deeper.
pub open spec fn md_item(
    st: MdState,
    ordered: bool,
    item: ListItem,
    loc: Seq<char>,
    depth: nat,
    policy: PolicyModel,
) -> MdState
    decreases item,
{
    let marker = if ordered {
        "1."@
    } else {
        "-"@
    };
    let first = if item.content@.len() > 0 {
        summary(item.content@[0])
    } else {
        Seq::empty()
    };
    let st1 = md_line(st, repeat("  "@, depth) + marker + " "@ + first);
    md_nested(st1, item.content@, loc, next_depth(depth), 1, policy)
}

/// Markdown of the top-level blocks of section `si`.
pub open spec fn md_section(st: MdState, bs: Seq<Block>, si: nat, policy: PolicyModel) -> MdState
    decreases bs.len(),
{
    if bs.len() == 0 {
        st
    } else {
        let prev = md_section(st, bs.drop_last(), si, policy);
        md_block(prev, bs.last(), top_loc(si, (bs.len() - 1) as nat), 0, policy)
    }
}

/// Markdown of every section in order.
pub open spec fn md_sections(st: MdState, ss: Seq<Section>, policy: PolicyModel) -> MdState
    decreases ss.len(),
{
    if ss.len() == 0 {
        st
    } else {
        let prev = md_sections(st, ss.drop_last(), policy);
        md_section(prev, ss.last().blocks@, (ss.len() - 1) as nat, policy)
    }
}

/// `s` without its trailing newlines.
pub open spec fn strip_newlines(s: Seq<char>) -> Seq<char>
    decreases s.len(),
{
    if s.len() > 0 && s.last() == '\n' {
        strip_newlines(s.drop_last())
    } else {
        s
    }
}

/// The Markdown text, assets and losses of `doc` written under `policy`,
/// starting from the losses `loss0`.
pub open spec fn md_document(
    doc: SirDocument,
    policy: PolicyModel,
    loss0: Seq<LossEntryModel>,
) -> MdState {
    let st = md_sections(
        MdState { out: Seq::empty(), assets: Seq::empty(), loss: loss0 },
        doc.sections@,
        policy,
    );
    MdState { out: strip_newlines(st.out).push('\n'), ..st }
}

} // verus!

verus! {

// ---------------------------------------------------------------------------
// Writer
// ---------------------------------------------------------------------------

/// Markdown plus any assets that must be written by the caller.
#[derive(Debug, Clone, PartialEq, Eq)]
pub struct MarkdownExport {
    /// Markdown document text.
    pub markdown: String,
    /// Binary assets referenced from the Markdown.
    pub assets: Vec<ResourceAsset>,
}

/// Appends the Markdown of one inline node.
fn write_inline(out: &mut String, inline: &Inline)
    ensures
        final(out)@ == old(out)@ + md_inline(*inline),
    decreases inline,
{
    match inline {
        Inline::Text(text) => {
            let e = escape_markdown_text(text.as_str());
            push_str(out, e.as_str());
        },
        Inline::Styled(flags, children) => {
            let mut body = String::new();
            write_inlines(&mut body, children);
            assert(body@ =~= md_inlines(children@));
            write_styled(out, flags, body);
        },
        Inline::FootnoteRef(number) => {
            push_str(out, "[^");
            push_usize(out, *number);
            push_str(out, "]");
            assert(final(out)@ =~= old(out)@ + md_inline(*inline));
        },
        Inline::LineBreak => {
            push_char(out, '\n');
            assert(final(out)@ =~= old(out)@ + md_inline(*inline));
        },
        Inline::Tab => {
            push_char(out, ' ');
            assert(final(out)@ =~= old(out)@ + md_inline(*inline));
        },
        Inline::Href { uri, content } => {
            push_str(out, "[");
            write_inlines(out, content);
            push_str(out, "](");
            let dest = escape_link_dest(uri.as_str());
            push_str(out, dest.as_str());
            push_str(out, ")");
            assert(final(out)@ =~= old(out)@ + md_inline(*inline));
        },
    }
}

/// Appends the Markdown of a sequence of inline nodes.
fn write_inlines(out: &mut String, inlines: &Vec<Inline>)
    ensures
        final(out)@ == old(out)@ + md_inlines(inlines@),
    decreases inlines@,
{
    let ghost start = out@;
    let mut i: usize = 0;
    while i < inlines.len()
        invariant
            i <= inlines@.len(),
            out@ == start + md_inlines(inlines@.take(i as int)),
        decreases inlines.len() - i,
    {
        assert(inlines@.take(i + 1).drop_last() == inlines@.take(i as int));
        write_inline(out, &inlines[i]);
        i += 1;
        assert(out@ =~= start + md_inlines(inlines@.take(i as int)));
    }
    assert(inlines@.take(inlines@.len() as int) == inlines@);
}

/// Markdown of a sequence of inline nodes.
fn inline_markdown(inlines: &Vec<Inline>) -> (s: String)
    ensures
        s@ == md_inlines(inlines@),
{
    let mut out = String::new();
    write_inlines(&mut out, inlines);
    assert(out@ =~= md_inlines(inlines@));
    out
}

/// Appends `body` wrapped in the markers of `flags`.
fn write_styled(out: &mut String, flags: &StyleFlags, body: String)
    ensures
        final(out)@ == old(out)@ + md_styled(*flags, body@),
{
    let mut text = body;
    if flags.subscript {
        let mut t = owned("<sub>");
        push_str(&mut t, text.as_str());
        push_str(&mut t, "</sub>");
        text = t;
    }
    if flags.superscript {
        let mut t = owned("<sup>");
        push_str(&mut t, text.as_str());
        push_str(&mut t, "</sup>");
        text = t;
    }
    if flags.strike {
        let mut t = owned("~~");
        push_str(&mut t, text.as_str());
        push_str(&mut t, "~~");
        text = t;
    }
    if flags.italic {
        let mut t = owned("*");
        push_str(&mut t, text.as_str());
        push_str(&mut t, "*");
        text = t;
    }
    if flags.bold {
        let mut t = owned("**");
        push_str(&mut t, text.as_str());
        push_str(&mut t, "**");
        text = t;
    }
    push_str(out, text.as_str());
}

/// Text with the Markdown metacharacters escaped.
fn escape_markdown_text(text: &str) -> (s: String)
    ensures
        s@ == md_escape(text@),
{
    let cs = crate::text::chars_of(text);
    let mut out = String::new();
    let mut i: usize = 0;
    while i < cs.len()
        invariant
            i <= cs@.len(),
            cs@ == text@,
            out@ == md_escape(cs@.take(i as int)),
        decreases cs.len() - i,
    {
        let ch = cs[i];
        assert(cs@.take(i + 1).drop_last() == cs@.take(i as int));
        if ch == '\\' || ch == '*' || ch == '_' || ch == '[' || ch == ']' || ch == '`' {
            push_char(&mut out, '\\');
        }
        push_char(&mut out, ch);
        i += 1;
        assert(out@ =~= md_escape(cs@.take(i as int)));
    }
    assert(cs@.take(cs@.len() as int) == cs@);
    out
}

/// A URI with `)` and space percent-encoded.
fn escape_link_dest(uri: &str) -> (s: String)
    ensures
        s@ == link_dest(uri@),
{
    let cs = crate::text::chars_of(uri);
    let mut out = String::new();
    let mut i: usize = 0;
    while i < cs.len()
        invariant
            i <= cs@.len(),
            cs@ == uri@,
            out@ == link_dest(cs@.take(i as int)),
        decreases cs.len() - i,
    {
        let ch = cs[i];
        assert(cs@.take(i + 1).drop_last() == cs@.take(i as int));
        if ch == ')' {
            push_str(&mut out, "%29");
        } else if ch == ' ' {
            push_str(&mut out, "%20");
        } else {
            push_char(&mut out, ch);
        }
        i += 1;
        assert(out@ =~= link_dest(cs@.take(i as int)));
    }
    assert(cs@.take(cs@.len() as int) == cs@);
    out
}

} // verus!

verus! {

/// One-line plain summary of a block.
fn block_summary(block: &Block) -> (s: String)
    ensures
        s@ == summary(*block),
    decreases block,
{
    match block {
        Block::Paragraph { content, .. } => inline_markdown(content),
        Block::Heading { content, .. } => inline_markdown(content),
        Block::Formula(formula) => match &formula.latex {
            Some(latex) => latex.clone(),
            None => formula.raw_eqedit.clone(),
        },
        Block::Picture { .. } => owned("[image]"),
        Block::PageBreak => owned("\\pagebreak"),
        Block::Table(_) => owned("[table]"),
        Block::Footnote { number, .. } => {
            let mut s = owned("[^");
            push_usize(&mut s, *number);
            push_str(&mut s, "]");
            assert(s@ =~= summary(*block));
            s
        },
        Block::List { items, .. } => {
            let mut out = String::new();
            let mut i: usize = 0;
            while i < items.len()
                invariant
                    i <= items@.len(),
                    forall|j: int| 0 <= j < items@.len() ==> decreases_to!(*block => #[trigger] items@[j].content@),
                    out@ == list_summary(items@.take(i as int)),
                decreases items.len() - i,
            {
                let ghost pre = items@.take(i as int);
                assert(items@.take(i + 1).drop_last() == pre);
                assert(items@.take(i + 1).last() == items@[i as int]);
                let text = plain_text_blocks(&items[i].content);
                if i > 0 {
                    push_str(&mut out, " ");
                } else {
                    assert(items@.take(1)[0] == items@[0]);
                }
                push_str(&mut out, text.as_str());
                i += 1;
                assert(out@ =~= list_summary(items@.take(i as int)));
            }
            assert(items@.take(items@.len() as int) == items@);
            out
        },
        Block::PageHeader { content, .. } => plain_text_blocks(content),
        Block::PageFooter { content, .. } => plain_text_blocks(content),
        _ => String::new(),
    }
}

/// The non-empty summaries of `blocks`, joined with single spaces.
fn plain_text_blocks(blocks: &Vec<Block>) -> (s: String)
    ensures
        s@ == plain(blocks@),
    decreases blocks@,
{
    let mut out = String::new();
    let mut i: usize = 0;
    while i < blocks.len()
        invariant
            i <= blocks@.len(),
            out@ == plain(blocks@.take(i as int)),
        decreases blocks.len() - i,
    {
        assert(blocks@.take(i + 1).drop_last() == blocks@.take(i as int));
        let s = block_summary(&blocks[i]);
        if !crate::text::is_blank_string(&s) {
            if !crate::text::is_blank_string(&out) {
                push_str(&mut out, " ");
            }
            push_str(&mut out, s.as_str());
        }
        i += 1;
        assert(out@ =~= plain(blocks@.take(i as int)));
    }
    assert(blocks@.take(blocks@.len() as int) == blocks@);
    out
}

/// A table cell's text with `|` escaped and newlines turned into spaces.
fn escape_cell(text: &str) -> (s: String)
    ensures
        s@ == cell_escape(text@),
{
    let cs = crate::text::chars_of(text);
    let mut out = String::new();
    let mut i: usize = 0;
    while i < cs.len()
        invariant
            i <= cs@.len(),
            cs@ == text@,
            out@ == cell_escape(cs@.take(i as int)),
        decreases cs.len() - i,
    {
        let ch = cs[i];
        assert(cs@.take(i + 1).drop_last() == cs@.take(i as int));
        if ch == '|' {
            push_str(&mut out, "\\|");
        } else if ch == '\n' {
            push_char(&mut out, ' ');
        } else {
            push_char(&mut out, ch);
        }
        i += 1;
        assert(out@ =~= cell_escape(cs@.take(i as int)));
    }
    assert(cs@.take(cs@.len() as int) == cs@);
    out
}

/// One Markdown table row of the given cell texts.
fn markdown_table_row(cells: &Vec<String>) -> (s: String)
    ensures
        s@ == md_row_text(cells@.map_values(|c: String| c@)),
{
    let ghost ss = cells@.map_values(|c: String| c@);
    let mut body = String::new();
    let mut i: usize = 0;
    while i < cells.len()
        invariant
            i <= cells@.len(),
            ss == cells@.map_values(|c: String| c@),
            body@ == join_cells(ss.take(i as int)),
        decreases cells.len() - i,
    {
        assert(ss.take(i + 1).drop_last() =~= ss.take(i as int));
        let e = escape_cell(cells[i].as_str());
        if i > 0 {
            push_str(&mut body, " | ");
        } else {
            assert(ss.take(1)[0] == ss[0]);
        }
        push_str(&mut body, e.as_str());
        i += 1;
        assert(body@ =~= join_cells(ss.take(i as int)));
    }
    assert(ss.take(cells@.len() as int) =~= ss);
    let mut out = owned("| ");
    push_str(&mut out, body.as_str());
    push_str(&mut out, " |");
    out
}

/// The header separator row for `cols` columns.
fn markdown_table_separator(cols: usize) -> (s: String)
    ensures
        s@ == md_separator(cols as nat),
{
    let mut body = String::new();
    let mut i: usize = 0;
    while i < cols
        invariant
            i <= cols,
            body@ == sep_body(i as nat),
        decreases cols - i,
    {
        if i > 0 {
            push_str(&mut body, " | ---");
        } else {
            push_str(&mut body, "---");
        }
        i += 1;
        assert(body@ =~= sep_body(i as nat));
    }
    let mut out = owned("| ");
    push_str(&mut out, body.as_str());
    push_str(&mut out, " |");
    out
}

/// The cell texts of row `r` of the table grid.
fn table_grid_row(table: &Table, r: usize) -> (row: Vec<String>)
    ensures
        row@.map_values(|c: String| c@) == grid_row(*table, r as int),
{
    let cols = table.cols as usize;
    let mut row: Vec<String> = Vec::new();
    let mut c: usize = 0;
    while c < cols
        invariant
            c <= cols,
            cols == table.cols,
            row@.len() == c,
            forall|j: int| 0 <= j < c ==> (#[trigger] row@[j])@ == Seq::<char>::empty(),
        decreases cols - c,
    {
        row.push(String::new());
        c += 1;
    }
    let mut k: usize = 0;
    while k < table.cells.len()
        invariant
            k <= table.cells@.len(),
            cols == table.cols,
            row@.len() == cols,
            forall|j: int|
                0 <= j < cols ==> (#[trigger] row@[j])@ == grid_cell(
                    table.cells@.take(k as int),
                    r as int,
                    j,
                ),
        decreases table.cells.len() - k,
    {
        let cell = &table.cells[k];
        let ghost pre = table.cells@.take(k as int);
        assert(table.cells@.take(k + 1).drop_last() == pre);
        assert(table.cells@.take(k + 1).last() == *cell);
        if cell.row as usize == r && (cell.col as usize) < cols {
            let text = plain_text_blocks(&cell.content);
            row.set(cell.col as usize, text);
        }
        k += 1;
    }
    assert(table.cells@.take(table.cells@.len() as int) == table.cells@);
    assert(row@.map_values(|c: String| c@) =~= grid_row(*table, r as int));
    row
}

} // verus!

verus! {

/// Text and assets written so far.
struct MarkdownCtx {
    out: String,
    assets: Vec<ResourceAsset>,
}

impl MarkdownCtx {
    /// The writer state, with the losses held in `loss`.
    closed spec fn st(&self, loss: Seq<LossEntryModel>) -> MdState {
        MdState { out: self.out@, assets: assets_model(self.assets@), loss }
    }

    fn push_line(&mut self, line: &str)
        ensures
            final(self).out@ == old(self).out@ + line@ + seq!['\n'],
            final(self).assets == old(self).assets,
    {
        push_str(&mut self.out, line);
        push_char(&mut self.out, '\n');
    }

    fn blank(&mut self)
        ensures
            final(self).out@ == md_blank(old(self).st(Seq::empty())).out,
            final(self).assets == old(self).assets,
    {
        if !crate::text::ends_with_two_newlines(&self.out) {
            push_char(&mut self.out, '\n');
        }
    }

    fn write_formula(&mut self, formula: &Formula, loc: &String, loss: &mut LossReport)
        ensures
            final(self).st(final(loss)@) == md_formula(old(self).st(old(loss)@), *formula, loc@),
    {
        match &formula.latex {
            Some(latex) => {
                self.push_line("$$");
                self.push_line(latex.as_str());
                self.push_line("$$");
            },
            None => {
                self.push_line("```eqedit");
                self.push_line(formula.raw_eqedit.as_str());
                self.push_line("```");
                let mut detail = owned("no LaTeX conversion; emitted raw EqEdit script in Markdown: ");
                push_str(&mut detail, formula.raw_eqedit.as_str());
                loss.push(LossEntry { kind: LossKind::FormulaFallback, location: loc.clone(), detail });
            },
        }
        assert(final(self).out@ =~= md_formula(old(self).st(old(loss)@), *formula, loc@).out);
    }

    fn record_apply_loss(apply: &HeaderFooterApply, loc: &String, element: &str, loss: &mut LossReport)
        ensures
            final(loss)@ == md_apply_loss(
                MdState { out: Seq::empty(), assets: Seq::empty(), loss: old(loss)@ },
                *apply,
                loc@,
                element@,
            ).loss,
    {
        let scope = match apply {
            HeaderFooterApply::All => return,
            HeaderFooterApply::Even => "even pages",
            HeaderFooterApply::Odd => "odd pages",
            HeaderFooterApply::First => "first page",
        };
        let mut detail = owned(element);
        push_str(&mut detail, " applies to ");
        push_str(&mut detail, scope);
        push_str(&mut detail, "; Markdown has no page-scope marker");
        loss.push(LossEntry { kind: LossKind::SectionSettings, location: loc.clone(), detail });
    }

    fn write_table(&mut self, table: &Table)
        ensures
            final(self).out@ == md_table(old(self).st(Seq::empty()), *table).out,
            final(self).assets == old(self).assets,
    {
        let ghost st0 = self.st(Seq::empty());
        if let Some(caption) = &table.caption {
            let mut line = owned("_");
            let text = inline_markdown(caption);
            push_str(&mut line, text.as_str());
            push_str(&mut line, "_");
            self.push_line(line.as_str());
            self.blank();
        }
        let ghost st1 = self.st(Seq::empty());
        assert(st1.out =~= (match table.caption {
            Some(c) => md_blank(md_line(st0, "_"@ + md_inlines(c@) + "_"@)),
            None => st0,
        }).out);
        let rows = table.rows as usize;
        let cols = table.cols as usize;
        if rows == 0 || cols == 0 {
            return;
        }
        let first = table_grid_row(table, 0);
        let line = markdown_table_row(&first);
        self.push_line(line.as_str());
        let sep = markdown_table_separator(cols);
        self.push_line(sep.as_str());
        let ghost st2 = self.st(Seq::empty());
        let mut r: usize = 1;
        while r < rows
            invariant
                1 <= r <= rows,
                rows == table.rows,
                cols == table.cols,
                self.out@ == st2.out + md_rows(*table, r as nat),
                self.assets == old(self).assets,
            decreases rows - r,
        {
            let row = table_grid_row(table, r);
            let line = markdown_table_row(&row);
            self.push_line(line.as_str());
            r += 1;
            assert(self.out@ =~= st2.out + md_rows(*table, r as nat));
        }
    }
}

} // verus!

verus! {

impl MarkdownCtx {
    fn write_block(
        &mut self,
        block: &Block,
        loc: &String,
        depth: usize,
        policy: &ResourcePolicy,
        loss: &mut LossReport,
    )
        requires
            policy@ is DataUri ==> block_encodable(*block),
        ensures
            final(self).st(final(loss)@) == md_block(
                old(self).st(old(loss)@),
                *block,
                loc@,
                depth as nat,
                policy@,
            ),
        decreases block,
    {
        let ghost st0 = self.st(loss@);
        match block {
            Block::Paragraph { content, .. } => {
                let line = inline_markdown(content);
                self.push_line(line.as_str());
                self.blank();
            },
            Block::Heading { level, content, .. } => {
                let lvl: usize = if *level < 1 {
                    1
                } else if *level > 6 {
                    6
                } else {
                    *level as usize
                };
                let mut line = String::new();
                push_repeat(&mut line, "#", lvl);
                push_str(&mut line, " ");
                let text = inline_markdown(content);
                push_str(&mut line, text.as_str());
                self.push_line(line.as_str());
                self.blank();
            },
            Block::List { ordered, items, .. } => {
                proof {
                    if policy@ is DataUri {
                        crate::ir::block::lemma_items_encodable(items@);
                    }
                }
                let mut ii: usize = 0;
                while ii < items.len()
                    invariant
                        ii <= items@.len(),
                        policy@ is DataUri ==> forall|j: int|
                            0 <= j < items@.len() ==> blocks_encodable(#[trigger] items@[j].content@),
                        forall|j: int|
                            0 <= j < items@.len() ==> decreases_to!(*block => #[trigger] items@[j]),
                        self.st(loss@) == md_items(
                            st0,
                            *ordered,
                            items@.take(ii as int),
                            loc@,
                            depth as nat,
                            policy@,
                        ),
                    decreases items.len() - ii,
                {
                    assert(items@.take(ii + 1).drop_last() == items@.take(ii as int));
                    let mut item_loc = loc.clone();
                    push_str(&mut item_loc, "/ldiv[");
                    push_usize(&mut item_loc, ii);
                    push_str(&mut item_loc, "]");
                    self.write_list_item(*ordered, &items[ii], &item_loc, depth, policy, loss);
                    ii += 1;
                }
                assert(items@.take(items@.len() as int) == items@);
                self.blank();
            },
            Block::Table(table) => {
                self.write_table(table);
                self.blank();
            },
            Block::Picture { data, extension, .. } => {
                let resource = resolve_resource(policy, loc.as_str(), extension.as_str(), data.as_slice());
                if let Some(asset) = resource.asset {
                    self.assets.push(asset);
                    assert(assets_model(self.assets@) =~= st0.assets.push(asset@));
                }
                let mut line = owned("![image](");
                let dest = escape_link_dest(resource.uri.as_str());
                push_str(&mut line, dest.as_str());
                push_str(&mut line, ")");
                self.push_line(line.as_str());
                self.blank();
            },
            Block::Formula(formula) => {
                self.write_formula(formula, loc, loss);
                self.blank();
            },
            Block::PageBreak => {
                self.push_line("\\pagebreak");
                self.blank();
            },
            Block::Footnote { number, content, .. } => {
                let text = plain_text_blocks(content);
                let trimmed = crate::text::trim_string(&text);
                let mut line = owned("[^");
                push_usize(&mut line, *number);
                push_str(&mut line, "]: ");
                push_str(&mut line, trimmed.as_str());
                self.push_line(line.as_str());
                self.blank();
            },
            Block::PageHeader { content, apply, .. } => {
                Self::record_apply_loss(apply, loc, "page_header", loss);
                self.write_nested_blocks(content, loc, depth, 0, policy, loss);
            },
            Block::PageFooter { content, apply, .. } => {
                Self::record_apply_loss(apply, loc, "page_footer", loss);
                self.write_nested_blocks(content, loc, depth, 0, policy, loss);
            },
            Block::ThreadStart { .. } | Block::ThreadContinuation { .. } => {},
            Block::Custom { namespace, .. } => {
                let mut detail = owned("custom block omitted from Markdown (ns=");
                push_str(&mut detail, namespace.as_str());
                push_str(&mut detail, ")");
                loss.push(LossEntry { kind: LossKind::FloatingObject, location: loc.clone(), detail });
            },
        }
    }

    fn write_nested_blocks(
        &mut self,
        blocks: &Vec<Block>,
        loc: &String,
        depth: usize,
        skip: usize,
        policy: &ResourcePolicy,
        loss: &mut LossReport,
    )
        requires
            policy@ is DataUri ==> blocks_encodable(blocks@),
        ensures
            final(self).st(final(loss)@) == md_nested(
                old(self).st(old(loss)@),
                blocks@,
                loc@,
                depth as nat,
                skip as nat,
                policy@,
            ),
        decreases blocks@,
    {
        let ghost st0 = self.st(loss@);
        let mut bi: usize = 0;
        while bi < blocks.len()
            invariant
                bi <= blocks@.len(),
                policy@ is DataUri ==> blocks_encodable(blocks@),
                self.st(loss@) == md_nested(
                    st0,
                    blocks@.take(bi as int),
                    loc@,
                    depth as nat,
                    skip as nat,
                    policy@,
                ),
            decreases blocks.len() - bi,
        {
            assert(blocks@.take(bi + 1).drop_last() == blocks@.take(bi as int));
            proof {
                if policy@ is DataUri {
                    crate::ir::block::lemma_blocks_encodable(blocks@);
                }
            }
            if bi >= skip {
                let mut child = loc.clone();
                push_str(&mut child, "/block[");
                push_usize(&mut child, bi);
                push_str(&mut child, "]");
                assert(child@ =~= child_loc(loc@, bi as nat));
                self.write_block(&blocks[bi], &child, depth, policy, loss);
            }
            bi += 1;
        }
        assert(blocks@.take(blocks@.len() as int) == blocks@);
    }

    fn write_list_item(
        &mut self,
        ordered: bool,
        item: &ListItem,
        loc: &String,
        depth: usize,
        policy: &ResourcePolicy,
        loss: &mut LossReport,
    )
        requires
            policy@ is DataUri ==> blocks_encodable(item.content@),
        ensures
            final(self).st(final(loss)@) == md_item(
                old(self).st(old(loss)@),
                ordered,
                *item,
                loc@,
                depth as nat,
                policy@,
            ),
        decreases item,
    {
        let marker = if ordered {
            "1."
        } else {
            "-"
        };
        let mut line = String::new();
        push_repeat(&mut line, "  ", depth);
        push_str(&mut line, marker);
        push_str(&mut line, " ");
        if item.content.len() > 0 {
            let first = block_summary(&item.content[0]);
            push_str(&mut line, first.as_str());
        }
        self.push_line(line.as_str());
        let next = if depth < usize::MAX {
            depth + 1
        } else {
            depth
        };
        self.write_nested_blocks(&item.content, loc, next, 1, policy, loss);
    }
}

} // verus!

verus! {

/// Write a Semantic IR document directly to Markdown.
///
/// Losses (omitted custom blocks, formulas without LaTeX, page-scoped headers
/// and footers) are appended to `loss` in document order.
pub fn write_markdown(doc: &SirDocument, opts: &ConvertOptions, loss: &mut LossReport) -> (res:
    MarkdownExport)
    requires
        opts.resource_policy@ is DataUri ==> doc_encodable(*doc),
    ensures
        ({
            let st = md_document(*doc, opts.resource_policy@, old(loss)@);
            &&& res.markdown@ == st.out
            &&& assets_model(res.assets@) == st.assets
            &&& final(loss)@ == st.loss
        }),
{
    let mut ctx = MarkdownCtx { out: String::new(), assets: Vec::new() };
    let ghost st0 = MdState { out: Seq::empty(), assets: Seq::empty(), loss: loss@ };
    assert(ctx.st(loss@) == st0) by {
        assert(assets_model(ctx.assets@) =~= Seq::<AssetModel>::empty());
    }
    let policy = &opts.resource_policy;
    let mut si: usize = 0;
    while si < doc.sections.len()
        invariant
            si <= doc.sections@.len(),
            policy@ is DataUri ==> doc_encodable(*doc),
            policy == &opts.resource_policy,
            ctx.st(loss@) == md_sections(st0, doc.sections@.take(si as int), policy@),
        decreases doc.sections.len() - si,
    {
        let section = &doc.sections[si];
        assert(doc.sections@.take(si + 1).drop_last() == doc.sections@.take(si as int));
        let ghost st_s = ctx.st(loss@);
        proof {
            if policy@ is DataUri {
                crate::ir::block::lemma_blocks_encodable(section.blocks@);
            }
        }
        let mut bi: usize = 0;
        while bi < section.blocks.len()
            invariant
                bi <= section.blocks@.len(),
                policy@ is DataUri ==> forall|j: int|
                    0 <= j < section.blocks@.len() ==> block_encodable(
                        #[trigger] section.blocks@[j],
                    ),
                ctx.st(loss@) == md_section(
                    st_s,
                    section.blocks@.take(bi as int),
                    si as nat,
                    policy@,
                ),
            decreases section.blocks.len() - bi,
        {
            assert(section.blocks@.take(bi + 1).drop_last() == section.blocks@.take(bi as int));
            let mut loc = owned("section[");
            push_usize(&mut loc, si);
            push_str(&mut loc, "]/block[");
            push_usize(&mut loc, bi);
            push_str(&mut loc, "]");
            assert(loc@ =~= top_loc(si as nat, bi as nat));
            ctx.write_block(&section.blocks[bi], &loc, 0, policy, loss);
            bi += 1;
        }
        assert(section.blocks@.take(section.blocks@.len() as int) == section.blocks@);
        si += 1;
    }
    assert(doc.sections@.take(doc.sections@.len() as int) == doc.sections@);
    let markdown = trim_trailing_blank_lines(ctx.out);
    MarkdownExport { markdown, assets: ctx.assets }
}

/// `text` with all trailing newlines replaced by exactly one.
fn trim_trailing_blank_lines(text: String) -> (s: String)
    ensures
        s@ == strip_newlines(text@).push('\n'),
{
    let cs = crate::text::chars_of(text.as_str());
    let mut end: usize = cs.len();
    assert(cs@.take(end as int) == cs@);
    while end > 0 && cs[end - 1] == '\n'
        invariant
            end <= cs@.len(),
            cs@ == text@,
            strip_newlines(cs@) == strip_newlines(cs@.take(end as int)),
        decreases end,
    {
        assert(cs@.take(end as int).drop_last() == cs@.take(end - 1));
        end -= 1;
    }
    assert(strip_newlines(cs@.take(end as int)) == cs@.take(end as int)) by {
        if end > 0 {
            assert(cs@.take(end as int).last() == cs@[end - 1]);
        }
    }
    let mut out = String::new();
    let mut i: usize = 0;
    while i < end
        invariant
            i <= end <= cs@.len(),
            out@ == cs@.take(i as int),
        decreases end - i,
    {
        push_char(&mut out, cs[i]);
        i += 1;
        assert(out@ =~= cs@.take(i as int));
    }
    push_char(&mut out, '\n');
    proof {
        assert(cs@.take(cs@.len() as int) == cs@);
    }
    out
}

} // verus!

verus! {

// ---------------------------------------------------------------------------
// Laws
// ---------------------------------------------------------------------------

/// `a` is a prefix of `b`.
pub open spec fn loss_prefix(a: Seq<LossEntryModel>, b: Seq<LossEntryModel>) -> bool {
    a.len() <= b.len() && b.take(a.len() as int) == a
}

proof fn lemma_prefix_trans(a: Seq<LossEntryModel>, b: Seq<LossEntryModel>, c: Seq<LossEntryModel>)
    requires
        loss_prefix(a, b),
        loss_prefix(b, c),
    ensures
        loss_prefix(a, c),
{
    assert(c.take(a.len() as int) =~= b.take(a.len() as int)) by {
        assert forall|i: int| 0 <= i < a.len() implies c.take(a.len() as int)[i] == b.take(
            a.len() as int,
        )[i] by {
            assert(c.take(b.len() as int)[i] == c[i]);
        }
    }
}

proof fn lemma_prefix_push(a: Seq<LossEntryModel>, e: LossEntryModel)
    ensures
        loss_prefix(a, a.push(e)),
{
    assert(a.push(e).take(a.len() as int) =~= a);
}

proof fn lemma_prefix_refl(a: Seq<LossEntryModel>)
    ensures
        loss_prefix(a, a),
{
    assert(a.take(a.len() as int) =~= a);
}

proof fn lemma_md_block_prefix(st: MdState, b: Block, loc: Seq<char>, depth: nat, policy: PolicyModel)
    ensures
        loss_prefix(st.loss, md_block(st, b, loc, depth, policy).loss),
    decreases b, 2nat,
{
    lemma_prefix_refl(st.loss);
    match b {
        Block::List { ordered, items, .. } => lemma_md_items_prefix(st, ordered, items@, loc, depth, policy),
        Block::Formula(f) => {
            if f.latex is None {
                let st3 = md_line(md_line(md_line(st, "```eqedit"@), f.raw_eqedit@), "```"@);
                lemma_prefix_push(st3.loss, loss_model(
                    LossKindModel::FormulaFallback,
                    loc,
                    "no LaTeX conversion; emitted raw EqEdit script in Markdown: "@ + f.raw_eqedit@,
                ));
            }
        },
        Block::PageHeader { content, apply, .. } => {
            let st1 = md_apply_loss(st, apply, loc, "page_header"@);
            if apply != HeaderFooterApply::All {
                lemma_prefix_push(st.loss, st1.loss.last());
                assert(st1.loss =~= st.loss.push(st1.loss.last()));
            }
            lemma_md_nested_prefix(st1, content@, loc, depth, 0, policy);
            lemma_prefix_trans(st.loss, st1.loss, md_block(st, b, loc, depth, policy).loss);
        },
        Block::PageFooter { content, apply, .. } => {
            let st1 = md_apply_loss(st, apply, loc, "page_footer"@);
            if apply != HeaderFooterApply::All {
                lemma_prefix_push(st.loss, st1.loss.last());
                assert(st1.loss =~= st.loss.push(st1.loss.last()));
            }
            lemma_md_nested_prefix(st1, content@, loc, depth, 0, policy);
            lemma_prefix_trans(st.loss, st1.loss, md_block(st, b, loc, depth, policy).loss);
        },
        Block::Custom { namespace, .. } => {
            lemma_prefix_push(st.loss, loss_model(
                LossKindModel::FloatingObject,
                loc,
                "custom block omitted from Markdown (ns="@ + namespace@ + ")"@,
            ));
        },
        _ => {},
    }
}

proof fn lemma_md_nested_prefix(
    st: MdState,
    bs: Seq<Block>,
    loc: Seq<char>,
    depth: nat,
    skip: nat,
    policy: PolicyModel,
)
    ensures
        loss_prefix(st.loss, md_nested(st, bs, loc, depth, skip, policy).loss),
    decreases bs, 2nat,
{
    if bs.len() == 0 {
        lemma_prefix_refl(st.loss);
    } else {
        let prev = md_nested(st, bs.drop_last(), loc, depth, skip, policy);
        lemma_md_nested_prefix(st, bs.drop_last(), loc, depth, skip, policy);
        let i = (bs.len() - 1) as nat;
        if i >= skip {
            lemma_md_block_prefix(prev, bs.last(), child_loc(loc, i), depth, policy);
            lemma_prefix_trans(st.loss, prev.loss, md_nested(st, bs, loc, depth, skip, policy).loss);
        }
    }
}

proof fn lemma_md_items_prefix(
    st: MdState,
    ordered: bool,
    items: Seq<ListItem>,
    loc: Seq<char>,
    depth: nat,
    policy: PolicyModel,
)
    ensures
        loss_prefix(st.loss, md_items(st, ordered, items, loc, depth, policy).loss),
    decreases items, 2nat,
{
    if items.len() == 0 {
        lemma_prefix_refl(st.loss);
    } else {
        let prev = md_items(st, ordered, items.drop_last(), loc, depth, policy);
        lemma_md_items_prefix(st, ordered, items.drop_last(), loc, depth, policy);
        let it = items.last();
        let il = item_loc(loc, (items.len() - 1) as nat);
        let marker = if ordered {
            "1."@
        } else {
            "-"@
        };
        let first = if it.content@.len() > 0 {
            summary(it.content@[0])
        } else {
            Seq::empty()
        };
        let st1 = md_line(prev, repeat("  "@, depth) + marker + " "@ + first);
        lemma_md_nested_prefix(st1, it.content@, il, next_depth(depth), 1, policy);
        assert(md_item(prev, ordered, it, il, depth, policy) == md_nested(
            st1,
            it.content@,
            il,
            next_depth(depth),
            1,
            policy,
        ));
        lemma_prefix_trans(st.loss, prev.loss, md_items(st, ordered, items, loc, depth, policy).loss);
    }
}

proof fn lemma_md_section_prefix(st: MdState, bs: Seq<Block>, si: nat, policy: PolicyModel)
    ensures
        loss_prefix(st.loss, md_section(st, bs, si, policy).loss),
    decreases bs.len(),
{
    if bs.len() == 0 {
        lemma_prefix_refl(st.loss);
    } else {
        let prev = md_section(st, bs.drop_last(), si, policy);
        lemma_md_section_prefix(st, bs.drop_last(), si, policy);
        lemma_md_block_prefix(prev, bs.last(), top_loc(si, (bs.len() - 1) as nat), 0, policy);
        lemma_prefix_trans(st.loss, prev.loss, md_section(st, bs, si, policy).loss);
    }
}

proof fn lemma_md_sections_prefix(st: MdState, ss: Seq<Section>, policy: PolicyModel)
    ensures
        loss_prefix(st.loss, md_sections(st, ss, policy).loss),
    decreases ss.len(),
{
    if ss.len() == 0 {
        lemma_prefix_refl(st.loss);
    } else {
        let prev = md_sections(st, ss.drop_last(), policy);
        lemma_md_sections_prefix(st, ss.drop_last(), policy);
        lemma_md_section_prefix(prev, ss.last().blocks@, (ss.len() - 1) as nat, policy);
        lemma_prefix_trans(st.loss, prev.loss, md_sections(st, ss, policy).loss);
    }
}

/// The Markdown exporter only appends to the loss report: every entry the
/// report held before stays, in place.
pub proof fn law_markdown_keeps_earlier_losses(
    doc: SirDocument,
    policy: PolicyModel,
    loss0: Seq<LossEntryModel>,
)
    ensures
        loss_prefix(loss0, md_document(doc, policy, loss0).loss),
{
    lemma_md_sections_prefix(
        MdState { out: Seq::empty(), assets: Seq::empty(), loss: loss0 },
        doc.sections@,
        policy,
    );
}

proof fn lemma_strip_newlines_end(s: Seq<char>)
    ensures
        strip_newlines(s).len() == 0 || strip_newlines(s).last() != '\n',
    decreases s.len(),
{
    if s.len() > 0 && s.last() == '\n' {
        lemma_strip_newlines_end(s.drop_last());
    }
}

/// Trimming trailing blank lines is idempotent: the text with its trailing
/// newlines replaced by exactly one is unchanged by doing so again.
pub proof fn law_trim_trailing_blank_lines_idempotent(text: Seq<char>)
    ensures
        ({
            let once = strip_newlines(text).push('\n');
            strip_newlines(once).push('\n') == once
        }),
{
    let t = strip_newlines(text);
    lemma_strip_newlines_end(text);
    assert(t.push('\n').drop_last() =~= t);
    assert(strip_newlines(t.push('\n')) == strip_newlines(t));
    assert(strip_newlines(t) == t);
}

/// The Markdown text always ends with exactly one newline.
pub proof fn law_markdown_single_trailing_newline(
    doc: SirDocument,
    policy: PolicyModel,
    loss0: Seq<LossEntryModel>,
)
    ensures
        ({
            let out = md_document(doc, policy, loss0).out;
            &&& out.len() >= 1
            &&& out.last() == '\n'
            &&& !ends_with_blank_line(out)
        }),
{
    let st = md_sections(
        MdState { out: Seq::empty(), assets: Seq::empty(), loss: loss0 },
        doc.sections@,
        policy,
    );
    lemma_strip_newlines_end(st.out);
}

} // verus!

verus! {

/// Number of newline characters in `s`.
pub open spec fn count_newlines(s: Seq<char>) -> nat
    decreases s.len(),
{
    if s.len() == 0 {
        0
    } else {
        count_newlines(s.drop_last()) + if s.last() == '\n' {
            1nat
        } else {
            0nat
        }
    }
}

proof fn lemma_count_newlines_concat(a: Seq<char>, b: Seq<char>)
    ensures
        count_newlines(a + b) == count_newlines(a) + count_newlines(b),
    decreases b.len(),
{
    if b.len() == 0 {
        assert(a + b =~= a);
    } else {
        assert((a + b).drop_last() =~= a + b.drop_last());
        assert((a + b).last() == b.last());
        lemma_count_newlines_concat(a, b.drop_last());
    }
}

proof fn lemma_count_newline_one()
    ensures
        count_newlines(seq!['\n']) == 1,
{
    let nl = seq!['\n'];
    assert(nl.drop_last() =~= Seq::<char>::empty());
    assert(count_newlines(Seq::<char>::empty()) == 0);
    assert(nl.last() == '\n');
}

proof fn lemma_count_newlines_none(s: Seq<char>)
    requires
        forall|i: int| 0 <= i < s.len() ==> s[i] != '\n',
    ensures
        count_newlines(s) == 0,
    decreases s.len(),
{
    if s.len() > 0 {
        lemma_count_newlines_none(s.drop_last());
    }
}

/// A table cell stays on one line: its escaped text holds no newline.
pub proof fn law_cell_escape_single_line(s: Seq<char>)
    ensures
        forall|i: int| 0 <= i < cell_escape(s).len() ==> cell_escape(s)[i] != '\n',
        cell_escape(s).len() >= s.len(),
    decreases s.len(),
{
    if s.len() > 0 {
        law_cell_escape_single_line(s.drop_last());
        reveal_strlit("\\|");
        let tail = if s.last() == '|' {
            "\\|"@
        } else if s.last() == '\n' {
            seq![' ']
        } else {
            seq![s.last()]
        };
        assert(forall|i: int| 0 <= i < tail.len() ==> tail[i] != '\n');
        let a = cell_escape(s.drop_last());
        assert forall|i: int| 0 <= i < (a + tail).len() implies (a + tail)[i] != '\n' by {
            if i < a.len() {
                assert((a + tail)[i] == a[i]);
            } else {
                assert((a + tail)[i] == tail[i - a.len()]);
            }
        }
    }
}

proof fn lemma_join_cells_single_line(ss: Seq<Seq<char>>)
    ensures
        forall|i: int| 0 <= i < join_cells(ss).len() ==> join_cells(ss)[i] != '\n',
    decreases ss.len(),
{
    if ss.len() == 1 {
        law_cell_escape_single_line(ss[0]);
    } else if ss.len() > 1 {
        lemma_join_cells_single_line(ss.drop_last());
        law_cell_escape_single_line(ss.last());
        reveal_strlit(" | ");
        let a = join_cells(ss.drop_last());
        let b = " | "@;
        let c = cell_escape(ss.last());
        assert forall|i: int| 0 <= i < (a + b + c).len() implies (a + b + c)[i] != '\n' by {
            if i < a.len() {
                assert((a + b + c)[i] == a[i]);
            } else if i < a.len() + b.len() {
                assert((a + b + c)[i] == b[i - a.len()]);
            } else {
                assert((a + b + c)[i] == c[i - a.len() - b.len()]);
            }
        }
    }
}

proof fn lemma_row_one_line(ss: Seq<Seq<char>>)
    ensures
        count_newlines(md_row_text(ss)) == 0,
{
    lemma_join_cells_single_line(ss);
    reveal_strlit("| ");
    reveal_strlit(" |");
    let a = "| "@;
    let b = join_cells(ss);
    let c = " |"@;
    assert forall|i: int| 0 <= i < (a + b + c).len() implies (a + b + c)[i] != '\n' by {
        if i < a.len() {
            assert((a + b + c)[i] == a[i]);
        } else if i < a.len() + b.len() {
            assert((a + b + c)[i] == b[i - a.len()]);
        } else {
            assert((a + b + c)[i] == c[i - a.len() - b.len()]);
        }
    }
    lemma_count_newlines_none(md_row_text(ss));
}

proof fn lemma_sep_body_one_line(k: nat)
    ensures
        forall|i: int| 0 <= i < sep_body(k).len() ==> sep_body(k)[i] != '\n',
    decreases k,
{
    reveal_strlit("---");
    reveal_strlit(" | ---");
    if k > 1 {
        lemma_sep_body_one_line((k - 1) as nat);
        let a = sep_body((k - 1) as nat);
        let b = " | ---"@;
        assert forall|i: int| 0 <= i < (a + b).len() implies (a + b)[i] != '\n' by {
            if i < a.len() {
                assert((a + b)[i] == a[i]);
            } else {
                assert((a + b)[i] == b[i - a.len()]);
            }
        }
    }
}

proof fn lemma_separator_one_line(k: nat)
    ensures
        count_newlines(md_separator(k)) == 0,
{
    lemma_sep_body_one_line(k);
    reveal_strlit("| ");
    reveal_strlit(" |");
    let a = "| "@;
    let b = sep_body(k);
    let c = " |"@;
    assert forall|i: int| 0 <= i < (a + b + c).len() implies (a + b + c)[i] != '\n' by {
        if i < a.len() {
            assert((a + b + c)[i] == a[i]);
        } else if i < a.len() + b.len() {
            assert((a + b + c)[i] == b[i - a.len()]);
        } else {
            assert((a + b + c)[i] == c[i - a.len() - b.len()]);
        }
    }
    lemma_count_newlines_none(md_separator(k));
}

proof fn lemma_md_rows_lines(t: Table, k: nat)
    ensures
        count_newlines(md_rows(t, k)) == if k <= 1 {
            0
        } else {
            k - 1
        },
        k > 1 ==> md_rows(t, k).len() > 0 && md_rows(t, k).last() == '\n',
    decreases k,
{
    if k > 1 {
        lemma_md_rows_lines(t, (k - 1) as nat);
        lemma_row_one_line(grid_row(t, k - 1));
        let a = md_rows(t, (k - 1) as nat);
        let b = md_row_text(grid_row(t, k - 1));
        lemma_count_newlines_concat(a, b);
        lemma_count_newlines_concat(a + b, seq!['\n']);
        lemma_count_newline_one();
    }
}

/// A table without a caption becomes a pipe table of one line per row plus
/// the header separator: what it appends to the text holds exactly
/// `rows + 1` newlines and ends with one, or nothing when the table has no
/// row or no column.
pub proof fn law_markdown_table_lines(st: MdState, t: Table)
    requires
        t.caption is None,
    ensures
        ({
            let out = md_table(st, t).out;
            &&& out.len() >= st.out.len()
            &&& out.take(st.out.len() as int) == st.out
            &&& count_newlines(out.skip(st.out.len() as int)) == if t.rows == 0 || t.cols == 0 {
                0
            } else {
                t.rows + 1
            }
            &&& (t.rows > 0 && t.cols > 0) ==> out.last() == '\n'
        }),
{
    let out = md_table(st, t).out;
    if t.rows == 0 || t.cols == 0 {
        assert(out.skip(st.out.len() as int) =~= Seq::<char>::empty());
        assert(out.take(st.out.len() as int) =~= st.out);
    } else {
        let row0 = md_row_text(grid_row(t, 0));
        let sep = md_separator(t.cols as nat);
        let rows = md_rows(t, t.rows as nat);
        let nl = seq!['\n'];
        let added = row0 + nl + sep + nl + rows;
        assert(out =~= st.out + added);
        assert(out.skip(st.out.len() as int) =~= added);
        assert(out.take(st.out.len() as int) =~= st.out);
        lemma_row_one_line(grid_row(t, 0));
        lemma_separator_one_line(t.cols as nat);
        lemma_md_rows_lines(t, t.rows as nat);
        lemma_count_newline_one();
        lemma_count_newlines_concat(row0, nl);
        lemma_count_newlines_concat(row0 + nl, sep);
        lemma_count_newlines_concat(row0 + nl + sep, nl);
        lemma_count_newlines_concat(row0 + nl + sep + nl, rows);
        if t.rows == 1 {
            assert(rows =~= Seq::<char>::empty());
            assert(added =~= row0 + nl + sep + nl);
        }
    }
}

} // verus!
