//! Formulas of the Semantic IR.

use vstd::prelude::*;

use super::prov::Prov;

verus! {

/// An equation: its EqEdit source and, when conversion succeeded, LaTeX.
#[derive(Debug, Clone, PartialEq, Eq)]
pub struct Formula {
    pub raw_eqedit: String,
    pub latex: Option<String>,
    pub prov: Option<Prov>,
}

} // verus!
