//! Conversion options.

use vstd::prelude::*;

use crate::resources::ResourcePolicy;

verus! {

/// How properties that DocLang cannot express are treated.
#[derive(Debug, Clone, Copy, PartialEq, Eq, Structural)]
pub enum Mode {
    /// Standard DocLang only; unexpressible information goes to the loss report.
    Lean,
    /// Unexpressible properties are kept in namespaced custom elements.
    Preserve,
}

/// Options shared by every exporter.
#[derive(Debug, Clone)]
pub struct ConvertOptions {
    pub mode: Mode,
    /// Whether layout bounding boxes are requested.
    pub with_location: bool,
    /// How image resources are referenced.
    pub resource_policy: ResourcePolicy,
}

impl Default for ConvertOptions {
    fn default() -> (o: ConvertOptions)
        ensures
            o.mode == Mode::Lean,
            !o.with_location,
            o.resource_policy is DataUri,
    {
        ConvertOptions {
            mode: Mode::Lean,
            with_location: false,
            resource_policy: ResourcePolicy::DataUri,
        }
    }
}

} // verus!
