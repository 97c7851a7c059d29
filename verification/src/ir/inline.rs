use vstd::prelude::*;

use super::style::StyleFlags;

verus! {

/// An inline content node inside a paragraph or heading.
///
/// `Styled` nesting mirrors DocLang's element nesting model
/// (`<bold><italic>…</italic></bold>`) rather than a flat run sequence.
#[derive(Debug, PartialEq)]
pub enum Inline {
    /// Plain UTF-8 text with no additional formatting.
    Text(String),
    /// A formatted span: the flags describe which DocLang inline elements wrap
    /// the inner content.
    Styled(StyleFlags, Vec<Inline>),
    /// A reference to a footnote by its 1-based sequential number.
    FootnoteRef(usize),
    /// Hard line break within a paragraph.
    LineBreak,
    /// Tab character.
    Tab,
    /// A hyperlink whose anchor is `content`.
    Href { uri: String, content: Vec<Inline> },
}

/// Mathematical model of an [`Inline`] node.
pub enum InlineModel {
    Text(Seq<char>),
    Styled(StyleFlags, Seq<InlineModel>),
    FootnoteRef(nat),
    LineBreak,
    Tab,
    Href { uri: Seq<char>, content: Seq<InlineModel> },
}

pub open spec fn inline_model(i: Inline) -> InlineModel
    decreases i,
{
    match i {
        Inline::Text(s) => InlineModel::Text(s@),
        Inline::Styled(f, ch) => InlineModel::Styled(f, inlines_model(ch@)),
        Inline::FootnoteRef(n) => InlineModel::FootnoteRef(n as nat),
        Inline::LineBreak => InlineModel::LineBreak,
        Inline::Tab => InlineModel::Tab,
        Inline::Href { uri, content } => InlineModel::Href { uri: uri@, content: inlines_model(content@) },
    }
}

pub open spec fn inlines_model(s: Seq<Inline>) -> Seq<InlineModel>
    decreases s,
{
    if s.len() == 0 {
        Seq::empty()
    } else {
        inlines_model(s.drop_last()).push(inline_model(s.last()))
    }
}

impl View for Inline {
    type V = InlineModel;

    open spec fn view(&self) -> InlineModel {
        inline_model(*self)
    }
}

/// Modelling a pushed sequence pushes the model of the new node.
pub proof fn lemma_inlines_model_push(s: Seq<Inline>, x: Inline)
    ensures
        inlines_model(s.push(x)) == inlines_model(s).push(inline_model(x)),
{
    assert(s.push(x).drop_last() =~= s);
}

/// Modelling preserves length and maps element-wise.
pub proof fn lemma_inlines_model_index(s: Seq<Inline>)
    ensures
        inlines_model(s).len() == s.len(),
        forall|i: int| 0 <= i < s.len() ==> #[trigger] inlines_model(s)[i] == inline_model(s[i]),
    decreases s.len(),
{
    if s.len() > 0 {
        lemma_inlines_model_index(s.drop_last());
    }
}

/// A deep copy of `x`.
pub fn clone_inline(x: &Inline) -> (r: Inline)
    ensures
        r@ == x@,
    decreases x,
{
    match x {
        Inline::Text(s) => Inline::Text(s.clone()),
        Inline::Styled(f, ch) => Inline::Styled(*f, clone_inlines(ch)),
        Inline::FootnoteRef(n) => Inline::FootnoteRef(*n),
        Inline::LineBreak => Inline::LineBreak,
        Inline::Tab => Inline::Tab,
        Inline::Href { uri, content } => Inline::Href { uri: uri.clone(), content: clone_inlines(content) },
    }
}

/// A deep copy of `v`.
pub fn clone_inlines(v: &Vec<Inline>) -> (r: Vec<Inline>)
    ensures
        inlines_model(r@) == inlines_model(v@),
    decreases v,
{
    let mut r: Vec<Inline> = Vec::new();
    let mut i: usize = 0;
    assert(inlines_model(r@) =~= inlines_model(v@.take(0)));
    while i < v.len()
        invariant
            i <= v@.len(),
            inlines_model(r@) == inlines_model(v@.take(i as int)),
        decreases v.len() - i,
    {
        proof {
            vstd::std_specs::vec::axiom_vec_index_decreases(*v, i as int);
        }
        let c = clone_inline(&v[i]);
        proof {
            lemma_inlines_model_push(r@, c);
            lemma_inlines_model_push(v@.take(i as int), v@[i as int]);
            assert(v@.take(i + 1) =~= v@.take(i as int).push(v@[i as int]));
        }
        r.push(c);
        i += 1;
    }
    assert(v@.take(v@.len() as int) =~= v@);
    r
}

impl Clone for Inline {
    fn clone(&self) -> (r: Self)
        ensures
            r@ == self@,
    {
        clone_inline(self)
    }
}

} // verus!

