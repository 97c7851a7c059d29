//! Error type for EqEdit → LaTeX conversion.

use vstd::prelude::*;

use crate::text::owned;

verus! {

/// Errors produced by EqEdit → LaTeX conversion.
///
/// Conversion is permissive: unknown commands and identifiers never error.
/// The only failure mode is structurally irrecoverable input.
#[derive(Debug, Clone, Copy, PartialEq, Eq, Structural)]
pub enum EqError {
    /// Braces in the script are not balanced (an unmatched `{` or `}`), and
    /// recovery is not possible.
    UnbalancedBrace,
}

impl EqError {
    /// The human-readable message of this error.
    pub fn message(&self) -> (s: String)
        ensures
            s@ == "unbalanced braces in EqEdit script"@,
    {
        match self {
            EqError::UnbalancedBrace => owned("unbalanced braces in EqEdit script"),
        }
    }
}

} // verus!
