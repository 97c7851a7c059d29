//! Loss reporting: what an export could not represent.

use vstd::prelude::*;
use vstd::std_specs::iter::IteratorSpec;

verus! {

/// The category of information that an export dropped.
#[derive(Debug, Clone, PartialEq, Eq)]
pub enum LossKind {
    FontInfo,
    CharColor,
    NamedStyle,
    SectionSettings,
    FloatingObject,
    TextBox,
    TrackChanges,
    FormulaFallback,
    Caption,
    Other(String),
}

/// Model of a [`LossKind`].
pub enum LossKindModel {
    FontInfo,
    CharColor,
    NamedStyle,
    SectionSettings,
    FloatingObject,
    TextBox,
    TrackChanges,
    FormulaFallback,
    Caption,
    Other(Seq<char>),
}

impl View for LossKind {
    type V = LossKindModel;

    open spec fn view(&self) -> LossKindModel {
        match self {
            LossKind::FontInfo => LossKindModel::FontInfo,
            LossKind::CharColor => LossKindModel::CharColor,
            LossKind::NamedStyle => LossKindModel::NamedStyle,
            LossKind::SectionSettings => LossKindModel::SectionSettings,
            LossKind::FloatingObject => LossKindModel::FloatingObject,
            LossKind::TextBox => LossKindModel::TextBox,
            LossKind::TrackChanges => LossKindModel::TrackChanges,
            LossKind::FormulaFallback => LossKindModel::FormulaFallback,
            LossKind::Caption => LossKindModel::Caption,
            LossKind::Other(s) => LossKindModel::Other(s@),
        }
    }
}

/// One dropped piece of information: its kind, where it was, and what it was.
#[derive(Debug, Clone, PartialEq, Eq)]
pub struct LossEntry {
    pub kind: LossKind,
    pub location: String,
    pub detail: String,
}

/// Model of a [`LossEntry`].
pub struct LossEntryModel {
    pub kind: LossKindModel,
    pub location: Seq<char>,
    pub detail: Seq<char>,
}

impl View for LossEntry {
    type V = LossEntryModel;

    open spec fn view(&self) -> LossEntryModel {
        LossEntryModel { kind: self.kind@, location: self.location@, detail: self.detail@ }
    }
}

/// The loss entry with the given parts.
pub open spec fn loss_model(kind: LossKindModel, location: Seq<char>, detail: Seq<char>) -> LossEntryModel {
    LossEntryModel { kind, location, detail }
}

/// Models of a sequence of loss entries.
pub open spec fn entries_model(s: Seq<LossEntry>) -> Seq<LossEntryModel> {
    s.map_values(|e: LossEntry| e@)
}

/// An ordered collection of loss entries.
#[derive(Debug, Clone, PartialEq, Eq)]
pub struct LossReport {
    entries: Vec<LossEntry>,
}

impl View for LossReport {
    type V = Seq<LossEntryModel>;

    closed spec fn view(&self) -> Seq<LossEntryModel> {
        entries_model(self.entries@)
    }
}

impl LossReport {
    /// An empty report.
    pub fn new() -> (r: LossReport)
        ensures
            r@ == Seq::<LossEntryModel>::empty(),
    {
        let r = LossReport { entries: Vec::new() };
        assert(r@ =~= Seq::<LossEntryModel>::empty());
        r
    }

    /// Appends `entry`.
    pub fn push(&mut self, entry: LossEntry)
        ensures
            final(self)@ == old(self)@.push(entry@),
    {
        self.entries.push(entry);
        assert(final(self)@ =~= old(self)@.push(entry@));
    }

    /// Number of entries.
    pub fn len(&self) -> (n: usize)
        ensures
            n == self@.len(),
    {
        self.entries.len()
    }

    /// Whether the report holds no entry.
    pub fn is_empty(&self) -> (b: bool)
        ensures
            b == (self@.len() == 0),
    {
        self.entries.len() == 0
    }

    /// The entries, in the order they were recorded.
    pub fn entries(&self) -> (s: &[LossEntry])
        ensures
            entries_model(s@) == self@,
    {
        self.entries.as_slice()
    }

    /// Iterates over the entries in order.
    pub fn iter(&self) -> (it: std::slice::Iter<'_, LossEntry>)
        ensures
            it.remaining().len() == self@.len(),
            forall|i: int| 0 <= i < self@.len() ==> (#[trigger] it.remaining()[i])@ == self@[i],
    {
        let s = self.entries.as_slice();
        let it = s.iter();
        proof {
            vstd::std_specs::slice::axiom_spec_slice_iter(s);
        }
        it
    }
}

} // verus!
