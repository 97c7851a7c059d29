use vstd::prelude::*;

verus! {

/// The six inline formatting flags that DocLang can express.
#[derive(Debug, Clone, Copy, PartialEq, Eq, Structural)]
pub struct StyleFlags {
    pub bold: bool,
    pub italic: bool,
    pub underline: bool,
    pub strike: bool,
    pub superscript: bool,
    pub subscript: bool,
}

impl StyleFlags {
    /// Flags with every formatting bit cleared.
    pub open spec fn spec_plain() -> StyleFlags {
        StyleFlags {
            bold: false,
            italic: false,
            underline: false,
            strike: false,
            superscript: false,
            subscript: false,
        }
    }

    /// Whether no formatting bit is set.
    pub fn is_plain(&self) -> (res: bool)
        ensures
            res == (*self == StyleFlags::spec_plain()),
    {
        !(self.bold || self.italic || self.underline || self.strike || self.superscript
            || self.subscript)
    }
}

impl Default for StyleFlags {
    fn default() -> (res: StyleFlags)
        ensures
            res == StyleFlags::spec_plain(),
    {
        StyleFlags {
            bold: false,
            italic: false,
            underline: false,
            strike: false,
            superscript: false,
            subscript: false,
        }
    }
}

} // verus!
