//! Inline formatting-run splitting.
//!
//! Lowers one paragraph into a sequence of [`Inline`] nodes: plain and styled
//! text spans, tabs and line breaks. Inline objects (tables, pictures,
//! equations, footnotes) are lowered at block level from the paragraph's
//! controls, not here.
//!
//! A `CharShapeRef.start_pos` is a UTF-16 code-unit offset into the
//! paragraph text stream, not a visible-character index. `char_offsets` maps
//! each visible character to its UTF-16 offset, so a run boundary at
//! `start_pos` is the index of the first `char_offsets` entry `>= start_pos`.

use vstd::prelude::*;

use crate::ir::inline::{Inline, InlineModel, inline_model, inlines_model};
use crate::ir::style::StyleFlags;
use crate::loss::{LossEntry, LossEntryModel, LossKind, LossKindModel, LossReport, loss_model};
use crate::text::{dec, dec_int, hex_fixed, owned, push_char, push_hex_fixed, push_i32, push_str};

use super::model::{CharShape, DocInfo, Paragraph, UnderlineType};
use super::resources::{char_shape, font_name, font_name_of, shape_of};

verus! {

/// Unicode OBJECT REPLACEMENT CHARACTER: a placeholder for an inline object
/// in the text stream. The objects themselves come from the paragraph's
/// controls, so the marker is dropped.
pub const OBJECT_REPLACEMENT: char = '\u{FFFC}';

// ---------------------------------------------------------------------------
// Merging adjacent nodes
// ---------------------------------------------------------------------------

/// `s` with `node` appended, merged into the last node when both are text,
/// or both are styled with the same flags (their children then merge in
/// turn).
pub open spec fn merged_push(s: Seq<InlineModel>, node: InlineModel) -> Seq<InlineModel>
    decreases node,
{
    if s.len() == 0 {
        seq![node]
    } else {
        match node {
            InlineModel::Text(n) => match s.last() {
                InlineModel::Text(p) => s.drop_last().push(InlineModel::Text(p + n)),
                _ => s.push(node),
            },
            InlineModel::Styled(nf, nc) => match s.last() {
                InlineModel::Styled(pf, pc) => if pf == nf {
                    s.drop_last().push(InlineModel::Styled(pf, merged_all(pc, nc)))
                } else {
                    s.push(node)
                },
                _ => s.push(node),
            },
            _ => s.push(node),
        }
    }
}

/// `acc` with every node of `nodes` appended in order by [`merged_push`].
pub open spec fn merged_all(acc: Seq<InlineModel>, nodes: Seq<InlineModel>) -> Seq<InlineModel>
    decreases nodes,
{
    if nodes.len() == 0 {
        acc
    } else {
        merged_push(merged_all(acc, nodes.drop_last()), nodes.last())
    }
}

// ---------------------------------------------------------------------------
// Formatting runs
// ---------------------------------------------------------------------------

/// Index of the first offset `>= sp`.
pub open spec fn first_at_least(offs: Seq<u32>, sp: u32) -> Option<nat>
    decreases offs.len(),
{
    if offs.len() == 0 {
        None
    } else if offs[0] >= sp {
        Some(0)
    } else {
        match first_at_least(offs.drop_first(), sp) {
            Some(p) => Some(p + 1),
            None => None,
        }
    }
}

/// Visible-character index where shape reference `j` starts, when it starts
/// inside the text of `n` characters.
pub open spec fn shape_start(para: Paragraph, n: nat, j: int) -> Option<nat> {
    match first_at_least(para.char_offsets@, para.char_shapes@[j].start_pos) {
        Some(p) => if p < n {
            Some(p)
        } else {
            None
        },
        None => None,
    }
}

/// The id of the last of the first `m` shape references that starts at `k`.
pub open spec fn starts_at_among(para: Paragraph, n: nat, m: nat, k: nat) -> Option<u32>
    decreases m,
{
    if m == 0 {
        None
    } else if shape_start(para, n, m - 1) == Some(k) {
        Some(para.char_shapes@[m - 1].char_shape_id)
    } else {
        starts_at_among(para, n, (m - 1) as nat, k)
    }
}

/// The id of the shape whose run starts at character `k`: among references
/// starting there, the last one wins.
pub open spec fn starts_at(para: Paragraph, n: nat, k: nat) -> Option<u32> {
    starts_at_among(para, n, para.char_shapes@.len(), k)
}

/// The first run start at or after `p`, or `n`.
pub open spec fn next_start(para: Paragraph, n: nat, p: nat) -> nat
    decreases n - p,
{
    if p >= n {
        n
    } else if starts_at(para, n, p) is Some {
        p
    } else {
        next_start(para, n, p + 1)
    }
}

/// The next run start lies between `p` and `n`.
pub proof fn lemma_next_start_bounds(para: Paragraph, n: nat, p: nat)
    ensures
        p <= n ==> p <= next_start(para, n, p) <= n,
        p > n ==> next_start(para, n, p) == n,
    decreases n - p,
{
    if p < n && starts_at(para, n, p) is None {
        lemma_next_start_bounds(para, n, p + 1);
    }
}

/// A formatting run: `[start, end)` and the shape id that applies.
pub struct RunModel {
    pub start: nat,
    pub end: nat,
    pub id: Option<u32>,
}

/// The formatting runs from character `p` to `n`: each run starts at `p` or at
/// a shape start and extends to the next shape start. Text before the first
/// shape start has no shape.
pub open spec fn runs_from(para: Paragraph, n: nat, p: nat) -> Seq<RunModel>
    decreases n - p,
{
    if p >= n {
        Seq::empty()
    } else {
        let e = next_start(para, n, p + 1);
        proof {
            lemma_next_start_bounds(para, n, p + 1);
        }
        seq![RunModel { start: p, end: e, id: starts_at(para, n, p) }] + runs_from(para, n, e)
    }
}

// ---------------------------------------------------------------------------
// Styles and losses
// ---------------------------------------------------------------------------

/// The six DocLang-expressible flags of a character shape.
pub open spec fn flags_of(cs: CharShape) -> StyleFlags {
    StyleFlags {
        bold: cs.bold,
        italic: cs.italic,
        underline: cs.underline_type != UnderlineType::Plain,
        strike: cs.strikethrough,
        superscript: cs.superscript,
        subscript: cs.subscript,
    }
}

/// The flags of a run with shape id `id`; plain when no shape resolves.
pub open spec fn run_style(doc: DocInfo, id: Option<u32>) -> StyleFlags {
    match id {
        Some(i) => match shape_of(doc, i) {
            Some(cs) => flags_of(cs),
            None => StyleFlags::spec_plain(),
        },
        None => StyleFlags::spec_plain(),
    }
}

/// The first non-empty font name among language slots `i..7` of `cs`.
pub open spec fn first_font_name(doc: DocInfo, cs: CharShape, i: nat) -> Option<Seq<char>>
    decreases 7 - i,
{
    if i >= 7 {
        None
    } else {
        match font_name_of(doc, i as int, cs.font_ids@[i as int]) {
            Some(name) => if name.len() > 0 {
                Some(name)
            } else {
                first_font_name(doc, cs, i + 1)
            },
            None => first_font_name(doc, cs, i + 1),
        }
    }
}

/// Loss recording state of one paragraph.
pub struct LossSt {
    pub loss: Seq<LossEntryModel>,
    pub font_recorded: bool,
    pub color_recorded: bool,
}

/// Records the colour and font information of `cs` that DocLang cannot
/// express, at most once of each kind per paragraph.
pub open spec fn record_shape(ls: LossSt, cs: CharShape, doc: DocInfo, location: Seq<char>) -> LossSt {
    let ls1 = if !ls.color_recorded && cs.text_color != 0 {
        LossSt {
            loss: ls.loss.push(
                loss_model(
                    LossKindModel::CharColor,
                    location,
                    "text_color=0x"@ + hex_fixed((cs.text_color & 0x00FF_FFFF) as nat, 6),
                ),
            ),
            color_recorded: true,
            ..ls
        }
    } else {
        ls
    };
    let font = first_font_name(doc, cs, 0);
    if !ls1.font_recorded && (font is Some || cs.base_size != 0) {
        let detail = match font {
            Some(name) => "font="@ + name + ", base_size="@ + dec_int(cs.base_size as int),
            None => "font_id="@ + dec(cs.font_ids@[0] as nat) + ", base_size="@ + dec_int(
                cs.base_size as int,
            ),
        };
        LossSt {
            loss: ls1.loss.push(loss_model(LossKindModel::FontInfo, location, detail)),
            font_recorded: true,
            ..ls1
        }
    } else {
        ls1
    }
}

/// Loss recorded for each run, in order, whose shape resolves.
pub open spec fn runs_loss(ls: LossSt, runs: Seq<RunModel>, doc: DocInfo, location: Seq<char>) -> LossSt
    decreases runs.len(),
{
    if runs.len() == 0 {
        ls
    } else {
        let prev = runs_loss(ls, runs.drop_last(), doc, location);
        match runs.last().id {
            Some(i) => match shape_of(doc, i) {
                Some(cs) => record_shape(prev, cs, doc, location),
                None => prev,
            },
            None => prev,
        }
    }
}

// ---------------------------------------------------------------------------
// Splitting text into nodes
// ---------------------------------------------------------------------------

/// Splitting state: nodes so far, and buffered text with its style.
pub struct SplitSt {
    pub out: Seq<InlineModel>,
    pub pending: Seq<char>,
    pub style: StyleFlags,
}

/// The buffered text turned into a node and appended.
pub open spec fn flushed(st: SplitSt) -> SplitSt {
    if st.pending.len() == 0 {
        st
    } else {
        let node = if st.style == StyleFlags::spec_plain() {
            InlineModel::Text(st.pending)
        } else {
            InlineModel::Styled(st.style, seq![InlineModel::Text(st.pending)])
        };
        SplitSt { out: merged_push(st.out, node), pending: Seq::empty(), style: st.style }
    }
}

/// One character of a run with `style`: tab and newline become nodes, the
/// object marker is dropped, other characters are buffered; a change of style
/// first flushes the buffer.
pub open spec fn split_char(st: SplitSt, c: char, style: StyleFlags) -> SplitSt {
    if c == '\t' {
        let s = flushed(st);
        SplitSt { out: merged_push(s.out, InlineModel::Tab), ..s }
    } else if c == '\n' {
        let s = flushed(st);
        SplitSt { out: merged_push(s.out, InlineModel::LineBreak), ..s }
    } else if c == OBJECT_REPLACEMENT {
        flushed(st)
    } else {
        let s = if st.pending.len() > 0 && st.style != style {
            flushed(st)
        } else {
            st
        };
        SplitSt { out: s.out, pending: s.pending.push(c), style }
    }
}

/// The characters of `cs` split in order with `style`.
pub open spec fn split_chars(st: SplitSt, cs: Seq<char>, style: StyleFlags) -> SplitSt
    decreases cs.len(),
{
    if cs.len() == 0 {
        st
    } else {
        split_char(split_chars(st, cs.drop_last(), style), cs.last(), style)
    }
}

/// The characters of each run split in order with the run's style.
pub open spec fn split_runs(st: SplitSt, runs: Seq<RunModel>, chars: Seq<char>, doc: DocInfo) -> SplitSt
    decreases runs.len(),
{
    if runs.len() == 0 {
        st
    } else {
        let r = runs.last();
        split_chars(
            split_runs(st, runs.drop_last(), chars, doc),
            chars.subrange(r.start as int, r.end as int),
            run_style(doc, r.id),
        )
    }
}

/// The inline nodes of a paragraph.
pub open spec fn extract_spec(para: Paragraph, doc: DocInfo) -> Seq<InlineModel> {
    let chars = para.text@;
    if chars.len() == 0 {
        Seq::empty()
    } else {
        let init = SplitSt { out: Seq::empty(), pending: Seq::empty(), style: StyleFlags::spec_plain() };
        flushed(split_runs(init, runs_from(para, chars.len(), 0), chars, doc)).out
    }
}

/// The losses a paragraph adds at `location`.
pub open spec fn extract_loss_spec(
    para: Paragraph,
    doc: DocInfo,
    location: Seq<char>,
    loss0: Seq<LossEntryModel>,
) -> Seq<LossEntryModel> {
    let chars = para.text@;
    if chars.len() == 0 {
        loss0
    } else {
        runs_loss(
            LossSt { loss: loss0, font_recorded: false, color_recorded: false },
            runs_from(para, chars.len(), 0),
            doc,
            location,
        ).loss
    }
}

} // verus!

verus! {

/// Appends `node`, merging it into the previous node when both are text or
/// both are styled with the same flags, so adjacent runs with identical
/// formatting collapse.
pub fn push_merged(inlines: &mut Vec<Inline>, node: Inline)
    ensures
        inlines_model(final(inlines)@) == merged_push(inlines_model(old(inlines)@), inline_model(node)),
    decreases node,
{
    let ghost s0 = inlines@;
    if inlines.len() == 0 {
        inlines.push(node);
        proof {
            crate::ir::inline::lemma_inlines_model_push(s0, node);
            assert(inlines_model(s0) =~= Seq::<InlineModel>::empty());
            assert(inlines_model(s0).push(inline_model(node)) =~= seq![inline_model(node)]);
        }
        return;
    }
    let last = inlines.pop().unwrap();
    let ghost rest = inlines@;
    proof {
        assert(s0.drop_last() == rest);
        assert(s0.last() == last);
        assert(inlines_model(s0).drop_last() == inlines_model(rest));
        assert(inlines_model(s0).last() == inline_model(last));
    }
    match node {
        Inline::Text(next) => match last {
            Inline::Text(prev) => {
                let mut merged = prev;
                push_str(&mut merged, next.as_str());
                inlines.push(Inline::Text(merged));
                proof {
                    crate::ir::inline::lemma_inlines_model_push(rest, Inline::Text(merged));
                }
            },
            other => {
                inlines.push(other);
                inlines.push(Inline::Text(next));
                proof {
                    crate::ir::inline::lemma_inlines_model_push(rest, other);
                    crate::ir::inline::lemma_inlines_model_push(rest.push(other), Inline::Text(next));
                    assert(rest.push(other) == s0);
                }
            },
        },
        Inline::Styled(nf, nc) => match last {
            Inline::Styled(pf, pc) => {
                if pf == nf {
                    let mut children = pc;
                    let ghost pc0 = inlines_model(pc@);
                    let ghost ncm = inlines_model(nc@);
                    proof {
                        crate::ir::inline::lemma_inlines_model_index(nc@);
                    }
                    let mut pending = nc;
                    let nlen = pending.len();
                    let ghost n = nlen as nat;
                    let mut i: usize = 0;
                    while pending.len() > 0
                        invariant
                            i <= n,
                            n == nlen,
                            ncm.len() == n,
                            pending@.len() == n - i,
                            forall|j: int| 0 <= j < pending@.len() ==> #[trigger] pending@[j] == nc@[i + j],
                            forall|j: int| 0 <= j < n ==> decreases_to!(node => #[trigger] nc@[j]),
                            forall|j: int| 0 <= j < n ==> #[trigger] ncm[j] == inline_model(nc@[j]),
                            inlines_model(children@) == merged_all(pc0, ncm.take(i as int)),
                        decreases pending@.len(),
                    {
                        let child = pending.remove(0);
                        assert(child == nc@[i as int]);
                        push_merged(&mut children, child);
                        proof {
                            assert(ncm.take(i + 1).drop_last() =~= ncm.take(i as int));
                            assert(ncm.take(i + 1).last() == ncm[i as int]);
                        }
                        i += 1;
                    }
                    assert(ncm.take(n as int) =~= ncm);
                    inlines.push(Inline::Styled(pf, children));
                    proof {
                        crate::ir::inline::lemma_inlines_model_push(rest, Inline::Styled(pf, children));
                    }
                } else {
                    inlines.push(Inline::Styled(pf, pc));
                    inlines.push(Inline::Styled(nf, nc));
                    proof {
                        crate::ir::inline::lemma_inlines_model_push(rest, Inline::Styled(pf, pc));
                        crate::ir::inline::lemma_inlines_model_push(s0, Inline::Styled(nf, nc));
                        assert(rest.push(Inline::Styled(pf, pc)) == s0);
                    }
                }
            },
            other => {
                inlines.push(other);
                inlines.push(Inline::Styled(nf, nc));
                proof {
                    crate::ir::inline::lemma_inlines_model_push(rest, other);
                    crate::ir::inline::lemma_inlines_model_push(s0, Inline::Styled(nf, nc));
                    assert(rest.push(other) == s0);
                }
            },
        },
        other_node => {
            inlines.push(last);
            inlines.push(other_node);
            proof {
                crate::ir::inline::lemma_inlines_model_push(rest, last);
                crate::ir::inline::lemma_inlines_model_push(s0, other_node);
                assert(rest.push(last) == s0);
            }
        },
    }
}

} // verus!

verus! {

/// A contiguous formatting run as a half-open visible-character range.
pub struct Run {
    pub start: usize,
    pub end: usize,
    /// The shape id of the run, or `None` when no shape applies.
    pub char_shape_id: Option<u32>,
}

impl View for Run {
    type V = RunModel;

    open spec fn view(&self) -> RunModel {
        RunModel { start: self.start as nat, end: self.end as nat, id: self.char_shape_id }
    }
}

/// Models of a sequence of runs.
pub open spec fn runs_model(s: Seq<Run>) -> Seq<RunModel> {
    s.map_values(|r: Run| r@)
}

/// The runs of a paragraph of `n` characters; a single empty plain run when
/// the paragraph is empty.
pub open spec fn runs_spec(para: Paragraph, n: nat) -> Seq<RunModel> {
    if n == 0 {
        seq![RunModel { start: 0, end: 0, id: None }]
    } else {
        runs_from(para, n, 0)
    }
}

/// Without a start in `[q, k)`, the next start from `q` is the next from `k`.
proof fn lemma_next_start_skip(para: Paragraph, n: nat, q: nat, k: nat)
    requires
        q <= k <= n,
        forall|p: nat| q <= p < k ==> #[trigger] starts_at(para, n, p) is None,
    ensures
        next_start(para, n, q) == next_start(para, n, k),
    decreases k - q,
{
    if q < k {
        lemma_next_start_skip(para, n, q + 1, k);
    }
}

/// Index of the first offset `>= sp`.
fn first_offset_at_least(offs: &Vec<u32>, sp: u32) -> (r: Option<usize>)
    ensures
        match r {
            Some(p) => first_at_least(offs@, sp) == Some(p as nat),
            None => first_at_least(offs@, sp) is None,
        },
{
    let mut i: usize = 0;
    assert(offs@.skip(0) =~= offs@);
    while i < offs.len()
        invariant
            i <= offs@.len(),
            first_at_least(offs@, sp) == match first_at_least(offs@.skip(i as int), sp) {
                Some(p) => Some((p + i) as nat),
                None => None,
            },
        decreases offs.len() - i,
    {
        assert(offs@.skip(i as int)[0] == offs@[i as int]);
        if offs[i] >= sp {
            return Some(i);
        }
        assert(offs@.skip(i as int).drop_first() =~= offs@.skip(i + 1));
        i += 1;
    }
    assert(offs@.skip(i as int).len() == 0);
    None
}

/// Formatting-run boundaries of a paragraph of `char_len` characters.
///
/// Each shape reference starts a run at the first character whose UTF-16
/// offset is `>= start_pos`; references starting at the same character keep
/// the last one. Text before the first start is a plain run.
fn build_runs(para: &Paragraph, char_len: usize) -> (runs: Vec<Run>)
    ensures
        runs_model(runs@) == runs_spec(*para, char_len as nat),
{
    let ghost n = char_len as nat;
    // start_id[k]: the shape id whose run starts at character k, if any.
    let mut start_id: Vec<Option<u32>> = Vec::new();
    let mut k: usize = 0;
    while k < char_len
        invariant
            k <= char_len,
            n == char_len,
            start_id@.len() == k,
            forall|p: int| 0 <= p < k ==> (#[trigger] start_id@[p]) is None,
        decreases char_len - k,
    {
        start_id.push(None);
        k += 1;
    }
    let mut j: usize = 0;
    while j < para.char_shapes.len()
        invariant
            j <= para.char_shapes@.len(),
            n == char_len,
            start_id@.len() == char_len,
            forall|p: int|
                0 <= p < char_len ==> #[trigger] start_id@[p] == starts_at_among(
                    *para,
                    n,
                    j as nat,
                    p as nat,
                ),
        decreases para.char_shapes.len() - j,
    {
        let cs = para.char_shapes[j];
        let pos = first_offset_at_least(&para.char_offsets, cs.start_pos);
        let ghost before = start_id@;
        if let Some(idx) = pos {
            if idx < char_len {
                start_id.set(idx, Some(cs.char_shape_id));
            }
        }
        assert forall|p: int| 0 <= p < char_len implies #[trigger] start_id@[p] == starts_at_among(
            *para,
            n,
            (j + 1) as nat,
            p as nat,
        ) by {
            assert(before[p] == starts_at_among(*para, n, j as nat, p as nat));
        }
        j += 1;
    }
    let mut runs: Vec<Run> = Vec::new();
    if char_len == 0 {
        runs.push(Run { start: 0, end: 0, char_shape_id: None });
        assert(runs_model(runs@) =~= runs_spec(*para, n));
        return runs;
    }
    let mut cur_start: usize = 0;
    let mut cur_id: Option<u32> = start_id[0];
    let mut k: usize = 1;
    while k < char_len
        invariant
            cur_start < k <= char_len,
            n == char_len,
            start_id@.len() == char_len,
            forall|p: int| 0 <= p < char_len ==> #[trigger] start_id@[p] == starts_at(*para, n, p as nat),
            cur_id == starts_at(*para, n, cur_start as nat),
            forall|p: nat| cur_start < p < k ==> #[trigger] starts_at(*para, n, p) is None,
            runs_model(runs@) + runs_from(*para, n, cur_start as nat) == runs_from(*para, n, 0),
        decreases char_len - k,
    {
        if let Some(id) = start_id[k] {
            proof {
                lemma_next_start_skip(*para, n, (cur_start + 1) as nat, k as nat);
                assert(next_start(*para, n, k as nat) == k);
                let tail = runs_from(*para, n, k as nat);
                assert(runs_from(*para, n, cur_start as nat) == seq![
                    RunModel { start: cur_start as nat, end: k as nat, id: cur_id },
                ] + tail);
            }
            let ghost before = runs@;
            runs.push(Run { start: cur_start, end: k, char_shape_id: cur_id });
            assert(runs_model(runs@) =~= runs_model(before).push(
                RunModel { start: cur_start as nat, end: k as nat, id: cur_id },
            ));
            cur_start = k;
            cur_id = Some(id);
        }
        k += 1;
    }
    proof {
        lemma_next_start_skip(*para, n, (cur_start + 1) as nat, n);
        assert(runs_from(*para, n, n) == Seq::<RunModel>::empty());
        assert(runs_from(*para, n, cur_start as nat) =~= seq![
            RunModel { start: cur_start as nat, end: n, id: cur_id },
        ]);
    }
    let ghost before = runs@;
    runs.push(Run { start: cur_start, end: char_len, char_shape_id: cur_id });
    assert(runs_model(runs@) =~= runs_model(before).push(
        RunModel { start: cur_start as nat, end: n, id: cur_id },
    ));
    runs
}

} // verus!

verus! {

/// The six DocLang-expressible flags of a character shape.
fn style_flags_from(cs: &CharShape) -> (f: StyleFlags)
    ensures
        f == flags_of(*cs),
{
    StyleFlags {
        bold: cs.bold,
        italic: cs.italic,
        underline: cs.underline_type != UnderlineType::Plain,
        strike: cs.strikethrough,
        superscript: cs.superscript,
        subscript: cs.subscript,
    }
}

/// The first non-empty font name over the seven language slots of `cs`.
fn first_font<'a>(doc_info: &'a DocInfo, cs: &CharShape) -> (r: Option<&'a str>)
    ensures
        match r {
            Some(n) => first_font_name(*doc_info, *cs, 0) == Some(n@),
            None => first_font_name(*doc_info, *cs, 0) is None,
        },
{
    let mut lang: usize = 0;
    while lang < 7
        invariant
            lang <= 7,
            first_font_name(*doc_info, *cs, 0) == first_font_name(*doc_info, *cs, lang as nat),
        decreases 7 - lang,
    {
        if let Some(name) = font_name(doc_info, lang, cs.font_ids[lang]) {
            if !name.is_empty() {
                return Some(name);
            }
        }
        lang += 1;
    }
    None
}

/// Records lean-mode loss for properties of `cs` that DocLang cannot express
/// (non-default text colour, font face or size), at most one entry of each
/// kind per paragraph.
fn record_char_shape_loss(
    cs: &CharShape,
    doc_info: &DocInfo,
    location: &str,
    loss: &mut LossReport,
    font_recorded: &mut bool,
    color_recorded: &mut bool,
)
    ensures
        ({
            let r = record_shape(
                LossSt {
                    loss: old(loss)@,
                    font_recorded: *old(font_recorded),
                    color_recorded: *old(color_recorded),
                },
                *cs,
                *doc_info,
                location@,
            );
            &&& final(loss)@ == r.loss
            &&& *final(font_recorded) == r.font_recorded
            &&& *final(color_recorded) == r.color_recorded
        }),
{
    if !*color_recorded && cs.text_color != 0 {
        let mut detail = owned("text_color=0x");
        push_hex_fixed(&mut detail, cs.text_color & 0x00FF_FFFF, 6);
        loss.push(LossEntry { kind: LossKind::CharColor, location: owned(location), detail });
        *color_recorded = true;
    }
    if !*font_recorded {
        let font = first_font(doc_info, cs);
        let has_font = match font {
            Some(_) => true,
            None => false,
        };
        if has_font || cs.base_size != 0 {
            let detail = match font {
                Some(name) => {
                    let mut d = owned("font=");
                    push_str(&mut d, name);
                    push_str(&mut d, ", base_size=");
                    push_i32(&mut d, cs.base_size);
                    d
                },
                None => {
                    let mut d = owned("font_id=");
                    crate::text::push_decimal(&mut d, cs.font_ids[0] as u64);
                    push_str(&mut d, ", base_size=");
                    push_i32(&mut d, cs.base_size);
                    d
                },
            };
            loss.push(LossEntry { kind: LossKind::FontInfo, location: owned(location), detail });
            *font_recorded = true;
        }
    }
}

/// Turns the buffered text into a node and appends it.
fn flush(inlines: &mut Vec<Inline>, text: &mut String, style: &StyleFlags)
    ensures
        ({
            let r = flushed(SplitSt { out: inlines_model(old(inlines)@), pending: old(text)@, style: *style });
            &&& inlines_model(final(inlines)@) == r.out
            &&& final(text)@ == r.pending
        }),
{
    if text.as_str().is_empty() {
        return;
    }
    let mut t = String::new();
    std::mem::swap(&mut t, text);
    assert(text@ == Seq::<char>::empty());
    let node = if style.is_plain() {
        Inline::Text(t)
    } else {
        let mut v = Vec::new();
        v.push(Inline::Text(t));
        proof {
            crate::ir::inline::lemma_inlines_model_push(Seq::empty(), Inline::Text(t));
            assert(Seq::<Inline>::empty().push(Inline::Text(t)) =~= v@);
            assert(inlines_model(Seq::<Inline>::empty()) =~= Seq::<InlineModel>::empty());
            assert(inlines_model(v@) =~= seq![InlineModel::Text(t@)]);
        }
        Inline::Styled(*style, v)
    };
    push_merged(inlines, node);
}

} // verus!

verus! {

/// Every run from `p` lies within `[p, n)` and is non-empty.
proof fn lemma_runs_bounds(para: Paragraph, n: nat, p: nat)
    ensures
        forall|i: int|
            0 <= i < runs_from(para, n, p).len() ==> p <= (#[trigger] runs_from(para, n, p)[i]).start
                < runs_from(para, n, p)[i].end <= n,
    decreases n - p,
{
    if p < n {
        let e = next_start(para, n, p + 1);
        lemma_next_start_bounds(para, n, p + 1);
        lemma_runs_bounds(para, n, e);
        let r = runs_from(para, n, p);
        assert forall|i: int| 0 <= i < r.len() implies p <= (#[trigger] r[i]).start < r[i].end <= n by {
            if i > 0 {
                assert(r[i] == runs_from(para, n, e)[i - 1]);
            }
        }
    }
}

/// Lower one paragraph's text and character-shape runs into [`Inline`] nodes.
///
/// Tabs and line breaks become their own nodes, the object replacement
/// character is dropped, and adjacent spans with identical formatting merge.
/// `loss` receives at most one colour entry and one font entry for the
/// paragraph, at `location`.
pub fn extract_inlines(
    para: &Paragraph,
    doc_info: &DocInfo,
    location: &str,
    loss: &mut LossReport,
) -> (out: Vec<Inline>)
    ensures
        inlines_model(out@) == extract_spec(*para, *doc_info),
        final(loss)@ == extract_loss_spec(*para, *doc_info, location@, old(loss)@),
{
    let chars = crate::text::chars_of(para.text.as_str());
    if chars.len() == 0 {
        let v: Vec<Inline> = Vec::new();
        assert(inlines_model(v@) =~= Seq::<InlineModel>::empty());
        return v;
    }
    let ghost n = chars@.len();
    let mut font_loss_recorded = false;
    let mut color_loss_recorded = false;
    let runs = build_runs(para, chars.len());
    let ghost rs = runs_model(runs@);
    proof {
        lemma_runs_bounds(*para, n, 0);
    }
    let mut inlines: Vec<Inline> = Vec::new();
    let mut pending_text = String::new();
    let mut pending_style = StyleFlags::default();
    let ghost init = SplitSt {
        out: Seq::empty(),
        pending: Seq::empty(),
        style: StyleFlags::spec_plain(),
    };
    let ghost ls0 = LossSt { loss: loss@, font_recorded: false, color_recorded: false };
    assert(inlines_model(inlines@) =~= Seq::<InlineModel>::empty());
    let mut r: usize = 0;
    while r < runs.len()
        invariant
            r <= runs@.len(),
            chars@ == para.text@,
            n == chars@.len(),
            n > 0,
            rs == runs_model(runs@),
            rs == runs_from(*para, n, 0),
            forall|i: int| 0 <= i < rs.len() ==> 0 <= (#[trigger] rs[i]).start < rs[i].end <= n,
            ({
                let st = split_runs(init, rs.take(r as int), chars@, *doc_info);
                &&& inlines_model(inlines@) == st.out
                &&& pending_text@ == st.pending
                &&& pending_style == st.style
            }),
            ({
                let ls = runs_loss(ls0, rs.take(r as int), *doc_info, location@);
                &&& loss@ == ls.loss
                &&& font_loss_recorded == ls.font_recorded
                &&& color_loss_recorded == ls.color_recorded
            }),
        decreases runs.len() - r,
    {
        let run = &runs[r];
        assert(rs[r as int] == run@);
        assert(rs.take(r + 1).drop_last() =~= rs.take(r as int));
        assert(rs.take(r + 1).last() == run@);
        let style = match run.char_shape_id {
            Some(id) => match char_shape(doc_info, id) {
                Some(cs) => {
                    record_char_shape_loss(
                        cs,
                        doc_info,
                        location,
                        loss,
                        &mut font_loss_recorded,
                        &mut color_loss_recorded,
                    );
                    style_flags_from(cs)
                },
                None => StyleFlags::default(),
            },
            None => StyleFlags::default(),
        };
        assert(style == run_style(*doc_info, run.char_shape_id));
        let ghost st_r = SplitSt {
            out: inlines_model(inlines@),
            pending: pending_text@,
            style: pending_style,
        };
        let mut i: usize = run.start;
        while i < run.end
            invariant
                run.start <= i <= run.end <= n,
                chars@.len() == n,
                ({
                    let st = split_chars(st_r, chars@.subrange(run.start as int, i as int), style);
                    &&& inlines_model(inlines@) == st.out
                    &&& pending_text@ == st.pending
                    &&& pending_style == st.style
                }),
            decreases run.end - i,
        {
            let c = chars[i];
            assert(chars@.subrange(run.start as int, i + 1).drop_last() =~= chars@.subrange(
                run.start as int,
                i as int,
            ));
            assert(chars@.subrange(run.start as int, i + 1).last() == c);
            if c == '\t' {
                flush(&mut inlines, &mut pending_text, &pending_style);
                push_merged(&mut inlines, Inline::Tab);
            } else if c == '\n' {
                flush(&mut inlines, &mut pending_text, &pending_style);
                push_merged(&mut inlines, Inline::LineBreak);
            } else if c == OBJECT_REPLACEMENT {
                flush(&mut inlines, &mut pending_text, &pending_style);
            } else {
                if !pending_text.as_str().is_empty() && pending_style != style {
                    flush(&mut inlines, &mut pending_text, &pending_style);
                }
                pending_style = style;
                push_char(&mut pending_text, c);
            }
            i += 1;
        }
        r += 1;
    }
    assert(rs.take(rs.len() as int) =~= rs);
    flush(&mut inlines, &mut pending_text, &pending_style);
    inlines
}

} // verus!

verus! {

// ---------------------------------------------------------------------------
// Laws
// ---------------------------------------------------------------------------

/// Whether two adjacent nodes would have been merged: both text, or both
/// styled with the same flags.
pub open spec fn mergeable(a: InlineModel, b: InlineModel) -> bool {
    match (a, b) {
        (InlineModel::Text(_), InlineModel::Text(_)) => true,
        (InlineModel::Styled(fa, _), InlineModel::Styled(fb, _)) => fa == fb,
        _ => false,
    }
}

/// No two adjacent nodes of `s` are mergeable.
pub open spec fn normalized(s: Seq<InlineModel>) -> bool {
    forall|i: int| 0 <= i < s.len() - 1 ==> !mergeable(#[trigger] s[i], s[i + 1])
}

proof fn lemma_merged_push_normalized(s: Seq<InlineModel>, node: InlineModel)
    requires
        normalized(s),
    ensures
        normalized(merged_push(s, node)),
{
    let r = merged_push(s, node);
    if s.len() > 0 {
        assert forall|i: int| 0 <= i < r.len() - 1 implies !mergeable(#[trigger] r[i], r[i + 1]) by {
            if i < s.len() - 1 {
                assert(r[i] == s[i]);
                if i + 1 < s.len() - 1 {
                    assert(r[i + 1] == s[i + 1]);
                }
            }
        }
    }
}

proof fn lemma_flushed_normalized(st: SplitSt)
    requires
        normalized(st.out),
    ensures
        normalized(flushed(st).out),
{
    if st.pending.len() > 0 {
        let node = if st.style == StyleFlags::spec_plain() {
            InlineModel::Text(st.pending)
        } else {
            InlineModel::Styled(st.style, seq![InlineModel::Text(st.pending)])
        };
        lemma_merged_push_normalized(st.out, node);
    }
}

proof fn lemma_split_char_normalized(st: SplitSt, c: char, style: StyleFlags)
    requires
        normalized(st.out),
    ensures
        normalized(split_char(st, c, style).out),
{
    lemma_flushed_normalized(st);
    let s = flushed(st);
    if c == '\t' {
        lemma_merged_push_normalized(s.out, InlineModel::Tab);
    } else if c == '\n' {
        lemma_merged_push_normalized(s.out, InlineModel::LineBreak);
    }
}

proof fn lemma_split_chars_normalized(st: SplitSt, cs: Seq<char>, style: StyleFlags)
    requires
        normalized(st.out),
    ensures
        normalized(split_chars(st, cs, style).out),
    decreases cs.len(),
{
    if cs.len() > 0 {
        lemma_split_chars_normalized(st, cs.drop_last(), style);
        lemma_split_char_normalized(split_chars(st, cs.drop_last(), style), cs.last(), style);
    }
}

proof fn lemma_split_runs_normalized(st: SplitSt, runs: Seq<RunModel>, chars: Seq<char>, doc: DocInfo)
    requires
        normalized(st.out),
    ensures
        normalized(split_runs(st, runs, chars, doc).out),
    decreases runs.len(),
{
    if runs.len() > 0 {
        let r = runs.last();
        lemma_split_runs_normalized(st, runs.drop_last(), chars, doc);
        lemma_split_chars_normalized(
            split_runs(st, runs.drop_last(), chars, doc),
            chars.subrange(r.start as int, r.end as int),
            run_style(doc, r.id),
        );
    }
}

/// Adjacent spans with identical formatting collapse: no two neighbouring
/// nodes that `extract_inlines` returns are both text, or both styled with
/// the same flags.
pub proof fn law_extract_output_is_merged(para: Paragraph, doc: DocInfo)
    ensures
        normalized(extract_spec(para, doc)),
{
    let chars = para.text@;
    if chars.len() > 0 {
        let init = SplitSt { out: Seq::empty(), pending: Seq::empty(), style: StyleFlags::spec_plain() };
        let st = split_runs(init, runs_from(para, chars.len(), 0), chars, doc);
        lemma_split_runs_normalized(init, runs_from(para, chars.len(), 0), chars, doc);
        lemma_flushed_normalized(st);
    }
}

} // verus!

verus! {

/// The text a node carries: its characters, tab and newline included.
pub open spec fn node_text(m: InlineModel) -> Seq<char>
    decreases m,
{
    match m {
        InlineModel::Text(t) => t,
        InlineModel::Styled(_, ch) => nodes_text(ch),
        InlineModel::Tab => seq!['\t'],
        InlineModel::LineBreak => seq!['\n'],
        InlineModel::FootnoteRef(_) => Seq::empty(),
        InlineModel::Href { content, .. } => nodes_text(content),
    }
}

/// The text of a sequence of nodes.
pub open spec fn nodes_text(s: Seq<InlineModel>) -> Seq<char>
    decreases s,
{
    if s.len() == 0 {
        Seq::empty()
    } else {
        nodes_text(s.drop_last()) + node_text(s.last())
    }
}

/// `cs` without object replacement characters.
pub open spec fn strip_objects(cs: Seq<char>) -> Seq<char>
    decreases cs.len(),
{
    if cs.len() == 0 {
        Seq::empty()
    } else {
        strip_objects(cs.drop_last()) + if cs.last() == OBJECT_REPLACEMENT {
            Seq::empty()
        } else {
            seq![cs.last()]
        }
    }
}

proof fn lemma_nodes_text_push(s: Seq<InlineModel>, x: InlineModel)
    ensures
        nodes_text(s.push(x)) == nodes_text(s) + node_text(x),
{
    assert(s.push(x).drop_last() =~= s);
}

proof fn lemma_merged_push_text(s: Seq<InlineModel>, node: InlineModel)
    ensures
        nodes_text(merged_push(s, node)) == nodes_text(s) + node_text(node),
    decreases node, 0nat,
{
    if s.len() == 0 {
        lemma_nodes_text_push(s, node);
        assert(s.push(node) =~= seq![node]);
    } else {
        let d = s.drop_last();
        assert(d.push(s.last()) =~= s);
        lemma_nodes_text_push(d, s.last());
        lemma_nodes_text_push(s, node);
        match node {
            InlineModel::Text(n) => match s.last() {
                InlineModel::Text(p) => {
                    lemma_nodes_text_push(d, InlineModel::Text(p + n));
                    assert(nodes_text(d) + (p + n) =~= nodes_text(d) + p + n);
                },
                _ => {},
            },
            InlineModel::Styled(nf, nc) => match s.last() {
                InlineModel::Styled(pf, pc) => if pf == nf {
                    lemma_merged_all_text(pc, nc);
                    lemma_nodes_text_push(d, InlineModel::Styled(pf, merged_all(pc, nc)));
                    assert(nodes_text(d) + (nodes_text(pc) + nodes_text(nc)) =~= nodes_text(d)
                        + nodes_text(pc) + nodes_text(nc));
                },
                _ => {},
            },
            _ => {},
        }
    }
}

proof fn lemma_merged_all_text(acc: Seq<InlineModel>, nodes: Seq<InlineModel>)
    ensures
        nodes_text(merged_all(acc, nodes)) == nodes_text(acc) + nodes_text(nodes),
    decreases nodes, 0nat,
{
    if nodes.len() == 0 {
        assert(nodes_text(acc) + nodes_text(nodes) =~= nodes_text(acc));
    } else {
        lemma_merged_all_text(acc, nodes.drop_last());
        lemma_merged_push_text(merged_all(acc, nodes.drop_last()), nodes.last());
        assert(nodes_text(acc) + nodes_text(nodes.drop_last()) + node_text(nodes.last())
            =~= nodes_text(acc) + nodes_text(nodes));
    }
}

proof fn lemma_flushed_text(st: SplitSt)
    ensures
        nodes_text(flushed(st).out) + flushed(st).pending == nodes_text(st.out) + st.pending,
{
    if st.pending.len() > 0 {
        let node = if st.style == StyleFlags::spec_plain() {
            InlineModel::Text(st.pending)
        } else {
            InlineModel::Styled(st.style, seq![InlineModel::Text(st.pending)])
        };
        lemma_merged_push_text(st.out, node);
        let one = seq![InlineModel::Text(st.pending)];
        lemma_nodes_text_push(Seq::empty(), InlineModel::Text(st.pending));
        assert(Seq::<InlineModel>::empty().push(InlineModel::Text(st.pending)) =~= one);
        assert(nodes_text(Seq::<InlineModel>::empty()) =~= Seq::<char>::empty());
        assert(node_text(node) =~= st.pending);
        assert(nodes_text(flushed(st).out) + Seq::<char>::empty() =~= nodes_text(st.out)
            + st.pending);
    }
}

proof fn lemma_split_char_text(st: SplitSt, c: char, style: StyleFlags)
    ensures
        ({
            let r = split_char(st, c, style);
            nodes_text(r.out) + r.pending == nodes_text(st.out) + st.pending + strip_objects(
                seq![c],
            )
        }),
{
    lemma_flushed_text(st);
    let s = flushed(st);
    assert(seq![c].drop_last() =~= Seq::<char>::empty());
    assert(strip_objects(Seq::<char>::empty()) =~= Seq::<char>::empty());
    if c == '\t' {
        lemma_merged_push_text(s.out, InlineModel::Tab);
        assert(s.pending.len() == 0);
    } else if c == '\n' {
        lemma_merged_push_text(s.out, InlineModel::LineBreak);
        assert(s.pending.len() == 0);
    } else if c == OBJECT_REPLACEMENT {
    } else {
        let s2 = if st.pending.len() > 0 && st.style != style {
            s
        } else {
            st
        };
        assert(nodes_text(s2.out) + s2.pending == nodes_text(st.out) + st.pending);
        assert(nodes_text(s2.out) + s2.pending.push(c) =~= nodes_text(s2.out) + s2.pending
            + seq![c]);
    }
}

proof fn lemma_strip_objects_concat(a: Seq<char>, b: Seq<char>)
    ensures
        strip_objects(a + b) == strip_objects(a) + strip_objects(b),
    decreases b.len(),
{
    if b.len() == 0 {
        assert(a + b =~= a);
        assert(strip_objects(a) + strip_objects(b) =~= strip_objects(a));
    } else {
        assert((a + b).drop_last() =~= a + b.drop_last());
        assert((a + b).last() == b.last());
        lemma_strip_objects_concat(a, b.drop_last());
    }
}

proof fn lemma_split_chars_text(st: SplitSt, cs: Seq<char>, style: StyleFlags)
    ensures
        ({
            let r = split_chars(st, cs, style);
            nodes_text(r.out) + r.pending == nodes_text(st.out) + st.pending + strip_objects(cs)
        }),
    decreases cs.len(),
{
    if cs.len() == 0 {
        assert(nodes_text(st.out) + st.pending + strip_objects(cs) =~= nodes_text(st.out)
            + st.pending);
    } else {
        let prev = split_chars(st, cs.drop_last(), style);
        lemma_split_chars_text(st, cs.drop_last(), style);
        lemma_split_char_text(prev, cs.last(), style);
        lemma_strip_objects_concat(cs.drop_last(), seq![cs.last()]);
        assert(cs.drop_last() + seq![cs.last()] =~= cs);
        assert(nodes_text(st.out) + st.pending + strip_objects(cs.drop_last()) + strip_objects(
            seq![cs.last()],
        ) =~= nodes_text(st.out) + st.pending + strip_objects(cs));
    }
}

/// The text of the given runs of `chars`, object markers removed.
pub open spec fn runs_text(runs: Seq<RunModel>, chars: Seq<char>) -> Seq<char>
    decreases runs.len(),
{
    if runs.len() == 0 {
        Seq::empty()
    } else {
        runs_text(runs.drop_last(), chars) + strip_objects(
            chars.subrange(runs.last().start as int, runs.last().end as int),
        )
    }
}

proof fn lemma_runs_text_concat(a: Seq<RunModel>, b: Seq<RunModel>, chars: Seq<char>)
    ensures
        runs_text(a + b, chars) == runs_text(a, chars) + runs_text(b, chars),
    decreases b.len(),
{
    if b.len() == 0 {
        assert(a + b =~= a);
        assert(runs_text(a, chars) + runs_text(b, chars) =~= runs_text(a, chars));
    } else {
        assert((a + b).drop_last() =~= a + b.drop_last());
        assert((a + b).last() == b.last());
        lemma_runs_text_concat(a, b.drop_last(), chars);
        let t = strip_objects(chars.subrange(b.last().start as int, b.last().end as int));
        assert(runs_text(a, chars) + runs_text(b.drop_last(), chars) + t =~= runs_text(a, chars)
            + runs_text(b, chars));
    }
}

proof fn lemma_runs_from_text(para: Paragraph, n: nat, p: nat, chars: Seq<char>)
    requires
        chars.len() == n,
        p <= n,
    ensures
        runs_text(runs_from(para, n, p), chars) == strip_objects(chars.subrange(p as int, n as int)),
    decreases n - p,
{
    if p == n {
        assert(chars.subrange(p as int, n as int) =~= Seq::<char>::empty());
        assert(runs_from(para, n, p) =~= Seq::<RunModel>::empty());
    } else {
        let e = next_start(para, n, p + 1);
        lemma_next_start_bounds(para, n, p + 1);
        lemma_runs_from_text(para, n, e, chars);
        let first = RunModel { start: p, end: e, id: starts_at(para, n, p) };
        lemma_runs_text_concat(seq![first], runs_from(para, n, e), chars);
        assert(seq![first].drop_last() =~= Seq::<RunModel>::empty());
        assert(seq![first].last() == first);
        assert(runs_text(Seq::<RunModel>::empty(), chars) == Seq::<char>::empty());
        assert(runs_text(seq![first], chars) == runs_text(Seq::<RunModel>::empty(), chars)
            + strip_objects(chars.subrange(p as int, e as int)));
        assert(runs_text(seq![first], chars) =~= strip_objects(chars.subrange(p as int, e as int)));
        lemma_strip_objects_concat(
            chars.subrange(p as int, e as int),
            chars.subrange(e as int, n as int),
        );
        assert(chars.subrange(p as int, e as int) + chars.subrange(e as int, n as int)
            =~= chars.subrange(p as int, n as int));
    }
}

proof fn lemma_split_runs_text(st: SplitSt, runs: Seq<RunModel>, chars: Seq<char>, doc: DocInfo)
    ensures
        ({
            let r = split_runs(st, runs, chars, doc);
            nodes_text(r.out) + r.pending == nodes_text(st.out) + st.pending + runs_text(
                runs,
                chars,
            )
        }),
    decreases runs.len(),
{
    if runs.len() == 0 {
        assert(nodes_text(st.out) + st.pending + runs_text(runs, chars) =~= nodes_text(st.out)
            + st.pending);
    } else {
        let r = runs.last();
        let prev = split_runs(st, runs.drop_last(), chars, doc);
        let cs = chars.subrange(r.start as int, r.end as int);
        lemma_split_runs_text(st, runs.drop_last(), chars, doc);
        lemma_split_chars_text(prev, cs, run_style(doc, r.id));
        assert(nodes_text(st.out) + st.pending + runs_text(runs.drop_last(), chars)
            + strip_objects(cs) =~= nodes_text(st.out) + st.pending + runs_text(runs, chars));
    }
}

/// No text is lost or invented: the text of the nodes that `extract_inlines`
/// returns (tabs and line breaks included) is the paragraph text without its
/// object replacement characters.
pub proof fn law_extract_keeps_text(para: Paragraph, doc: DocInfo)
    ensures
        nodes_text(extract_spec(para, doc)) == strip_objects(para.text@),
{
    let chars = para.text@;
    let n = chars.len();
    if n == 0 {
        assert(nodes_text(Seq::<InlineModel>::empty()) =~= strip_objects(chars));
    } else {
        let init = SplitSt { out: Seq::empty(), pending: Seq::empty(), style: StyleFlags::spec_plain() };
        let runs = runs_from(para, n, 0);
        let st = split_runs(init, runs, chars, doc);
        lemma_split_runs_text(init, runs, chars, doc);
        lemma_runs_from_text(para, n, 0, chars);
        assert(chars.subrange(0, n as int) =~= chars);
        lemma_flushed_text(st);
        let f = flushed(st);
        assert(f.pending.len() == 0) by {
            if st.pending.len() > 0 {
                assert(f.pending =~= Seq::<char>::empty());
            }
        }
        assert(nodes_text(init.out) =~= Seq::<char>::empty());
        assert(nodes_text(f.out) =~= nodes_text(f.out) + f.pending);
        assert(nodes_text(init.out) + init.pending + runs_text(runs, chars) =~= runs_text(
            runs,
            chars,
        ));
    }
}

} // verus!

verus! {

/// Number of entries of `s` of kind `k`.
pub open spec fn count_kind(s: Seq<LossEntryModel>, k: LossKindModel) -> nat
    decreases s.len(),
{
    if s.len() == 0 {
        0
    } else {
        count_kind(s.drop_last(), k) + if s.last().kind == k {
            1nat
        } else {
            0nat
        }
    }
}

/// The entries after the first `n0` are per-paragraph style losses at
/// `location`: colour entries counted by `color`, font entries by `font`.
pub open spec fn paragraph_losses_ok(
    s: Seq<LossEntryModel>,
    n0: nat,
    location: Seq<char>,
    font: bool,
    color: bool,
) -> bool {
    let added = s.skip(n0 as int);
    &&& n0 <= s.len()
    &&& count_kind(added, LossKindModel::CharColor) == (if color {
        1nat
    } else {
        0nat
    })
    &&& count_kind(added, LossKindModel::FontInfo) == (if font {
        1nat
    } else {
        0nat
    })
    &&& forall|i: int|
        0 <= i < added.len() ==> (#[trigger] added[i]).location == location && (added[i].kind
            == LossKindModel::CharColor || added[i].kind == LossKindModel::FontInfo)
}

proof fn lemma_push_losses_ok(
    s: Seq<LossEntryModel>,
    n0: nat,
    location: Seq<char>,
    font: bool,
    color: bool,
    e: LossEntryModel,
)
    requires
        paragraph_losses_ok(s, n0, location, font, color),
        e.location == location,
        e.kind == LossKindModel::CharColor ==> !color,
        e.kind == LossKindModel::FontInfo ==> !font,
        e.kind == LossKindModel::CharColor || e.kind == LossKindModel::FontInfo,
    ensures
        paragraph_losses_ok(
            s.push(e),
            n0,
            location,
            font || e.kind == LossKindModel::FontInfo,
            color || e.kind == LossKindModel::CharColor,
        ),
{
    let added = s.skip(n0 as int);
    let added2 = s.push(e).skip(n0 as int);
    assert(added2 =~= added.push(e));
    assert(added2.drop_last() =~= added);
}

proof fn lemma_record_shape_ok(
    ls: LossSt,
    cs: CharShape,
    doc: DocInfo,
    location: Seq<char>,
    n0: nat,
)
    requires
        paragraph_losses_ok(ls.loss, n0, location, ls.font_recorded, ls.color_recorded),
    ensures
        ({
            let r = record_shape(ls, cs, doc, location);
            paragraph_losses_ok(r.loss, n0, location, r.font_recorded, r.color_recorded)
        }),
{
    if !ls.color_recorded && cs.text_color != 0 {
        let e = loss_model(
            LossKindModel::CharColor,
            location,
            "text_color=0x"@ + hex_fixed((cs.text_color & 0x00FF_FFFF) as nat, 6),
        );
        lemma_push_losses_ok(ls.loss, n0, location, ls.font_recorded, ls.color_recorded, e);
    }
    let ls1 = if !ls.color_recorded && cs.text_color != 0 {
        LossSt {
            loss: ls.loss.push(
                loss_model(
                    LossKindModel::CharColor,
                    location,
                    "text_color=0x"@ + hex_fixed((cs.text_color & 0x00FF_FFFF) as nat, 6),
                ),
            ),
            color_recorded: true,
            ..ls
        }
    } else {
        ls
    };
    let font = first_font_name(doc, cs, 0);
    if !ls1.font_recorded && (font is Some || cs.base_size != 0) {
        let detail = match font {
            Some(name) => "font="@ + name + ", base_size="@ + dec_int(cs.base_size as int),
            None => "font_id="@ + dec(cs.font_ids@[0] as nat) + ", base_size="@ + dec_int(
                cs.base_size as int,
            ),
        };
        lemma_push_losses_ok(
            ls1.loss,
            n0,
            location,
            ls1.font_recorded,
            ls1.color_recorded,
            loss_model(LossKindModel::FontInfo, location, detail),
        );
    }
}

proof fn lemma_runs_loss_ok(
    ls: LossSt,
    runs: Seq<RunModel>,
    doc: DocInfo,
    location: Seq<char>,
    n0: nat,
)
    requires
        paragraph_losses_ok(ls.loss, n0, location, ls.font_recorded, ls.color_recorded),
    ensures
        ({
            let r = runs_loss(ls, runs, doc, location);
            paragraph_losses_ok(r.loss, n0, location, r.font_recorded, r.color_recorded)
        }),
    decreases runs.len(),
{
    if runs.len() > 0 {
        lemma_runs_loss_ok(ls, runs.drop_last(), doc, location, n0);
        let prev = runs_loss(ls, runs.drop_last(), doc, location);
        match runs.last().id {
            Some(i) => match shape_of(doc, i) {
                Some(cs) => lemma_record_shape_ok(prev, cs, doc, location, n0),
                None => {},
            },
            None => {},
        }
    }
}

/// `extract_inlines` only appends to the loss report, and what it appends
/// for one paragraph is at most one colour entry and at most one font entry,
/// both at the paragraph's location.
pub proof fn law_extract_loss_once_per_paragraph(
    para: Paragraph,
    doc: DocInfo,
    location: Seq<char>,
    loss0: Seq<LossEntryModel>,
)
    ensures
        ({
            let s = extract_loss_spec(para, doc, location, loss0);
            let added = s.skip(loss0.len() as int);
            &&& loss0.len() <= s.len()
            &&& s.take(loss0.len() as int) == loss0
            &&& count_kind(added, LossKindModel::CharColor) <= 1
            &&& count_kind(added, LossKindModel::FontInfo) <= 1
            &&& forall|i: int|
                0 <= i < added.len() ==> (#[trigger] added[i]).location == location && (
                added[i].kind == LossKindModel::CharColor || added[i].kind
                    == LossKindModel::FontInfo)
        }),
{
    let n0 = loss0.len();
    let ls0 = LossSt { loss: loss0, font_recorded: false, color_recorded: false };
    assert(loss0.skip(n0 as int) =~= Seq::<LossEntryModel>::empty());
    assert(paragraph_losses_ok(loss0, n0, location, false, false));
    if para.text@.len() > 0 {
        lemma_runs_loss_ok(ls0, runs_from(para, para.text@.len(), 0), doc, location, n0);
        lemma_runs_loss_prefix(ls0, runs_from(para, para.text@.len(), 0), doc, location);
    }
    assert(loss0.take(n0 as int) =~= loss0);
}

proof fn lemma_runs_loss_prefix(ls: LossSt, runs: Seq<RunModel>, doc: DocInfo, location: Seq<char>)
    ensures
        ({
            let r = runs_loss(ls, runs, doc, location).loss;
            ls.loss.len() <= r.len() && r.take(ls.loss.len() as int) == ls.loss
        }),
    decreases runs.len(),
{
    if runs.len() > 0 {
        lemma_runs_loss_prefix(ls, runs.drop_last(), doc, location);
        let prev = runs_loss(ls, runs.drop_last(), doc, location);
        let r = runs_loss(ls, runs, doc, location).loss;
        assert(r.take(ls.loss.len() as int) =~= ls.loss) by {
            assert(forall|i: int| 0 <= i < prev.loss.len() ==> #[trigger] r[i] == prev.loss[i]);
            assert(forall|i: int| 0 <= i < ls.loss.len() ==> #[trigger] prev.loss[i] == ls.loss[i]) by {
                assert forall|i: int| 0 <= i < ls.loss.len() implies #[trigger] prev.loss[i] == ls.loss[i] by {
                    assert(prev.loss.take(ls.loss.len() as int)[i] == prev.loss[i]);
                }
            }
        }
    } else {
        assert(ls.loss.take(ls.loss.len() as int) =~= ls.loss);
    }
}

} // verus!

verus! {

/// Each character of `t`, shown with the flags `f`.
pub open spec fn shown(t: Seq<char>, f: StyleFlags) -> Seq<(char, StyleFlags)> {
    t.map_values(|c: char| (c, f))
}

/// The characters a node shows, each paired with the flags of the innermost
/// styled node around it (`f` when there is none).
pub open spec fn node_shown(m: InlineModel, f: StyleFlags) -> Seq<(char, StyleFlags)>
    decreases m,
{
    match m {
        InlineModel::Text(t) => shown(t, f),
        InlineModel::Styled(g, ch) => nodes_shown(ch, g),
        InlineModel::Tab => seq![('\t', f)],
        InlineModel::LineBreak => seq![('\n', f)],
        InlineModel::FootnoteRef(_) => Seq::empty(),
        InlineModel::Href { content, .. } => nodes_shown(content, f),
    }
}

/// The characters a sequence of nodes shows, with their flags.
pub open spec fn nodes_shown(s: Seq<InlineModel>, f: StyleFlags) -> Seq<(char, StyleFlags)>
    decreases s,
{
    if s.len() == 0 {
        Seq::empty()
    } else {
        nodes_shown(s.drop_last(), f) + node_shown(s.last(), f)
    }
}

proof fn lemma_nodes_shown_push(s: Seq<InlineModel>, x: InlineModel, f: StyleFlags)
    ensures
        nodes_shown(s.push(x), f) == nodes_shown(s, f) + node_shown(x, f),
{
    assert(s.push(x).drop_last() =~= s);
}

/// Merging never changes formatting: the characters that `merged_push`
/// leaves are those of `s` followed by those of `node`, each with the flags
/// it was pushed with.
pub proof fn law_merged_push_keeps_formatting(s: Seq<InlineModel>, node: InlineModel, f: StyleFlags)
    ensures
        nodes_shown(merged_push(s, node), f) == nodes_shown(s, f) + node_shown(node, f),
    decreases node, 0nat,
{
    if s.len() == 0 {
        lemma_nodes_shown_push(s, node, f);
        assert(s.push(node) =~= seq![node]);
    } else {
        let d = s.drop_last();
        assert(d.push(s.last()) =~= s);
        lemma_nodes_shown_push(d, s.last(), f);
        lemma_nodes_shown_push(s, node, f);
        match node {
            InlineModel::Text(n) => match s.last() {
                InlineModel::Text(p) => {
                    lemma_nodes_shown_push(d, InlineModel::Text(p + n), f);
                    assert(shown(p + n, f) =~= shown(p, f) + shown(n, f));
                    assert(nodes_shown(d, f) + (shown(p, f) + shown(n, f)) =~= nodes_shown(d, f)
                        + shown(p, f) + shown(n, f));
                },
                _ => {},
            },
            InlineModel::Styled(nf, nc) => match s.last() {
                InlineModel::Styled(pf, pc) => if pf == nf {
                    lemma_merged_all_keeps_formatting(pc, nc, pf);
                    lemma_nodes_shown_push(d, InlineModel::Styled(pf, merged_all(pc, nc)), f);
                    assert(nodes_shown(d, f) + (nodes_shown(pc, pf) + nodes_shown(nc, pf))
                        =~= nodes_shown(d, f) + nodes_shown(pc, pf) + nodes_shown(nc, pf));
                },
                _ => {},
            },
            _ => {},
        }
    }
}

proof fn lemma_merged_all_keeps_formatting(acc: Seq<InlineModel>, nodes: Seq<InlineModel>, f: StyleFlags)
    ensures
        nodes_shown(merged_all(acc, nodes), f) == nodes_shown(acc, f) + nodes_shown(nodes, f),
    decreases nodes, 0nat,
{
    if nodes.len() == 0 {
        assert(nodes_shown(acc, f) + nodes_shown(nodes, f) =~= nodes_shown(acc, f));
    } else {
        lemma_merged_all_keeps_formatting(acc, nodes.drop_last(), f);
        law_merged_push_keeps_formatting(merged_all(acc, nodes.drop_last()), nodes.last(), f);
        assert(nodes_shown(acc, f) + nodes_shown(nodes.drop_last(), f) + node_shown(nodes.last(), f)
            =~= nodes_shown(acc, f) + nodes_shown(nodes, f));
    }
}

/// Merging only touches the last node: every node of `s` but the last stays
/// where it was.
pub proof fn law_merged_push_keeps_earlier_nodes(s: Seq<InlineModel>, node: InlineModel)
    requires
        s.len() > 0,
    ensures
        merged_push(s, node).len() >= s.len(),
        merged_push(s, node).take(s.len() - 1) == s.take(s.len() - 1),
{
    assert(s.drop_last().take(s.len() - 1) =~= s.take(s.len() - 1));
    assert(s.push(node).take(s.len() - 1) =~= s.take(s.len() - 1));
    match node {
        InlineModel::Text(n) => match s.last() {
            InlineModel::Text(p) => {
                assert(s.drop_last().push(InlineModel::Text(p + n)).take(s.len() - 1)
                    =~= s.take(s.len() - 1));
            },
            _ => {},
        },
        InlineModel::Styled(nf, nc) => match s.last() {
            InlineModel::Styled(pf, pc) => {
                assert(s.drop_last().push(InlineModel::Styled(pf, merged_all(pc, nc))).take(
                    s.len() - 1,
                ) =~= s.take(s.len() - 1));
            },
            _ => {},
        },
        _ => {},
    }
}

/// What splitting has produced so far: the nodes' characters followed by the
/// buffered text with its style.
pub open spec fn split_shown(st: SplitSt) -> Seq<(char, StyleFlags)> {
    nodes_shown(st.out, StyleFlags::spec_plain()) + shown(st.pending, st.style)
}

/// How one character of a run with flags `style` is shown: object markers
/// vanish, tabs and line breaks stand unformatted, any other character
/// carries `style`.
pub open spec fn char_shown(c: char, style: StyleFlags) -> Seq<(char, StyleFlags)> {
    if c == OBJECT_REPLACEMENT {
        Seq::empty()
    } else if c == '\t' || c == '\n' {
        seq![(c, StyleFlags::spec_plain())]
    } else {
        seq![(c, style)]
    }
}

/// How the characters `cs` of a run with flags `style` are shown.
pub open spec fn chars_shown(cs: Seq<char>, style: StyleFlags) -> Seq<(char, StyleFlags)>
    decreases cs.len(),
{
    if cs.len() == 0 {
        Seq::empty()
    } else {
        chars_shown(cs.drop_last(), style) + char_shown(cs.last(), style)
    }
}

/// The formatting a run with shape id `id` gives its characters: each flag of
/// the referenced character shape, field by field (underlined unless the
/// underline type is `Plain`); no formatting when the id does not resolve.
pub open spec fn shape_flags(doc: DocInfo, id: Option<u32>) -> StyleFlags {
    match id {
        Some(i) => if (i as int) < doc.char_shapes@.len() {
            StyleFlags {
                bold: doc.char_shapes@[i as int].bold,
                italic: doc.char_shapes@[i as int].italic,
                underline: doc.char_shapes@[i as int].underline_type != UnderlineType::Plain,
                strike: doc.char_shapes@[i as int].strikethrough,
                superscript: doc.char_shapes@[i as int].superscript,
                subscript: doc.char_shapes@[i as int].subscript,
            }
        } else {
            StyleFlags::spec_plain()
        },
        None => StyleFlags::spec_plain(),
    }
}

/// How the characters of each run are shown, each with its run's shape flags.
pub open spec fn runs_shown(runs: Seq<RunModel>, chars: Seq<char>, doc: DocInfo) -> Seq<(char, StyleFlags)>
    decreases runs.len(),
{
    if runs.len() == 0 {
        Seq::empty()
    } else {
        runs_shown(runs.drop_last(), chars, doc) + chars_shown(
            chars.subrange(runs.last().start as int, runs.last().end as int),
            shape_flags(doc, runs.last().id),
        )
    }
}

proof fn lemma_flushed_shown(st: SplitSt)
    ensures
        split_shown(flushed(st)) == split_shown(st),
        flushed(st).pending.len() == 0,
{
    let plain = StyleFlags::spec_plain();
    if st.pending.len() > 0 {
        let node = if st.style == plain {
            InlineModel::Text(st.pending)
        } else {
            InlineModel::Styled(st.style, seq![InlineModel::Text(st.pending)])
        };
        law_merged_push_keeps_formatting(st.out, node, plain);
        let one = seq![InlineModel::Text(st.pending)];
        lemma_nodes_shown_push(Seq::empty(), InlineModel::Text(st.pending), st.style);
        assert(Seq::<InlineModel>::empty().push(InlineModel::Text(st.pending)) =~= one);
        assert(nodes_shown(Seq::<InlineModel>::empty(), st.style) =~= Seq::<(char, StyleFlags)>::empty());
        assert(nodes_shown(one, st.style) =~= shown(st.pending, st.style));
        assert(node_shown(node, plain) =~= shown(st.pending, st.style));
        assert(shown(Seq::<char>::empty(), st.style) =~= Seq::<(char, StyleFlags)>::empty());
        assert(split_shown(flushed(st)) =~= split_shown(st));
    }
}

proof fn lemma_split_char_shown(st: SplitSt, c: char, style: StyleFlags)
    ensures
        split_shown(split_char(st, c, style)) == split_shown(st) + char_shown(c, style),
{
    let plain = StyleFlags::spec_plain();
    lemma_flushed_shown(st);
    let s = flushed(st);
    assert(shown(s.pending, s.style) =~= Seq::<(char, StyleFlags)>::empty());
    if c == '\t' {
        law_merged_push_keeps_formatting(s.out, InlineModel::Tab, plain);
        assert(split_shown(split_char(st, c, style)) =~= split_shown(st) + char_shown(c, style));
    } else if c == '\n' {
        law_merged_push_keeps_formatting(s.out, InlineModel::LineBreak, plain);
        assert(split_shown(split_char(st, c, style)) =~= split_shown(st) + char_shown(c, style));
    } else if c == OBJECT_REPLACEMENT {
        assert(split_shown(st) + char_shown(c, style) =~= split_shown(st));
    } else {
        let s2 = if st.pending.len() > 0 && st.style != style {
            s
        } else {
            st
        };
        assert(split_shown(s2) == split_shown(st));
        assert(shown(s2.pending, style) =~= shown(s2.pending, s2.style));
        assert(shown(s2.pending.push(c), style) =~= shown(s2.pending, style) + seq![(c, style)]);
        assert(split_shown(split_char(st, c, style)) =~= split_shown(st) + char_shown(c, style));
    }
}

proof fn lemma_split_chars_shown(st: SplitSt, cs: Seq<char>, style: StyleFlags)
    ensures
        split_shown(split_chars(st, cs, style)) == split_shown(st) + chars_shown(cs, style),
    decreases cs.len(),
{
    if cs.len() == 0 {
        assert(split_shown(st) + chars_shown(cs, style) =~= split_shown(st));
    } else {
        lemma_split_chars_shown(st, cs.drop_last(), style);
        lemma_split_char_shown(split_chars(st, cs.drop_last(), style), cs.last(), style);
        assert(split_shown(st) + chars_shown(cs.drop_last(), style) + char_shown(cs.last(), style)
            =~= split_shown(st) + chars_shown(cs, style));
    }
}

proof fn lemma_split_runs_shown(st: SplitSt, runs: Seq<RunModel>, chars: Seq<char>, doc: DocInfo)
    ensures
        split_shown(split_runs(st, runs, chars, doc)) == split_shown(st) + runs_shown(runs, chars, doc),
    decreases runs.len(),
{
    if runs.len() == 0 {
        assert(split_shown(st) + runs_shown(runs, chars, doc) =~= split_shown(st));
    } else {
        let r = runs.last();
        let cs = chars.subrange(r.start as int, r.end as int);
        lemma_split_runs_shown(st, runs.drop_last(), chars, doc);
        assert(run_style(doc, r.id) == shape_flags(doc, r.id));
        lemma_split_chars_shown(split_runs(st, runs.drop_last(), chars, doc), cs, run_style(doc, r.id));
        assert(split_shown(st) + runs_shown(runs.drop_last(), chars, doc) + chars_shown(
            cs,
            shape_flags(doc, r.id),
        ) =~= split_shown(st) + runs_shown(runs, chars, doc));
    }
}

/// Every character keeps the formatting of its run: the characters that
/// `extract_inlines` returns, each with the flags it is shown with, are the
/// paragraph's characters run by run, each carrying exactly the bold, italic,
/// underline, strike, superscript and subscript of the run's character shape
/// (none when the shape does not resolve). Tabs and line breaks stand
/// unformatted and object markers vanish.
pub proof fn law_extract_keeps_formatting(para: Paragraph, doc: DocInfo)
    ensures
        nodes_shown(extract_spec(para, doc), StyleFlags::spec_plain()) == runs_shown(
            runs_from(para, para.text@.len(), 0),
            para.text@,
            doc,
        ),
{
    let chars = para.text@;
    let n = chars.len();
    let plain = StyleFlags::spec_plain();
    if n == 0 {
        assert(runs_from(para, 0, 0) =~= Seq::<RunModel>::empty());
        assert(nodes_shown(Seq::<InlineModel>::empty(), plain) =~= Seq::<(char, StyleFlags)>::empty());
    } else {
        let init = SplitSt { out: Seq::empty(), pending: Seq::empty(), style: plain };
        let runs = runs_from(para, n, 0);
        let st = split_runs(init, runs, chars, doc);
        lemma_split_runs_shown(init, runs, chars, doc);
        lemma_flushed_shown(st);
        let f = flushed(st);
        assert(shown(f.pending, f.style) =~= Seq::<(char, StyleFlags)>::empty());
        assert(split_shown(init) =~= Seq::<(char, StyleFlags)>::empty());
        assert(nodes_shown(f.out, plain) =~= split_shown(f));
        assert(split_shown(init) + runs_shown(runs, chars, doc) =~= runs_shown(runs, chars, doc));
    }
}

} // verus!
