//! Errors of the HWP → DocLang conversion pipeline.

use vstd::prelude::*;

use crate::text::{owned, push_str};

verus! {

/// Errors produced by the HWP → DocLang conversion pipeline.
#[derive(Debug, Clone, PartialEq, Eq)]
pub enum ConvertError {
    /// The parser failed to parse the input bytes.
    Parse(String),
    /// Encrypted documents are rejected by the parser itself.
    EncryptedDocument,
    /// Distribution (배포용) documents parse, but converting them is out of
    /// scope for v1 by policy.
    DistributionDocumentUnsupported,
    /// HWP 3.x and legacy HWPML inputs are out of scope for v1.
    UnsupportedFormat(&'static str),
    /// XML serialization failure.
    Xml(String),
}

/// The human-readable message of an error.
pub open spec fn convert_error_message(e: ConvertError) -> Seq<char> {
    match e {
        ConvertError::Parse(s) => "failed to parse HWP document: "@ + s@,
        ConvertError::EncryptedDocument => "encrypted HWP documents are not supported"@,
        ConvertError::DistributionDocumentUnsupported =>
            "distribution (배포용) HWP documents are not supported in v1"@,
        ConvertError::UnsupportedFormat(s) => "unsupported input format: "@ + s@,
        ConvertError::Xml(s) => "failed to serialize DocLang XML: "@ + s@,
    }
}

impl ConvertError {
    /// The human-readable message of this error.
    pub fn message(&self) -> (s: String)
        ensures
            s@ == convert_error_message(*self),
    {
        match self {
            ConvertError::Parse(detail) => {
                let mut s = owned("failed to parse HWP document: ");
                push_str(&mut s, detail.as_str());
                s
            },
            ConvertError::EncryptedDocument => owned("encrypted HWP documents are not supported"),
            ConvertError::DistributionDocumentUnsupported => owned(
                "distribution (배포용) HWP documents are not supported in v1",
            ),
            ConvertError::UnsupportedFormat(what) => {
                let mut s = owned("unsupported input format: ");
                push_str(&mut s, what);
                s
            },
            ConvertError::Xml(detail) => {
                let mut s = owned("failed to serialize DocLang XML: ");
                push_str(&mut s, detail.as_str());
                s
            },
        }
    }
}

} // verus!
