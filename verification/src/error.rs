//! The typed failures the conversion engine reports. Markup the engine has
//! not been taught is a fatal error rather than silently dropped content.

use vstd::prelude::*;

verus! {

/// The mathematical view of an engine error.
pub ghost enum GErr {
    /// An element tag the walker has no rendering for.
    UnknownTag(Seq<char>),
    /// A block element whose class list matches no known marker.
    UnknownClass(Seq<char>),
    /// An inline style declaration without its `:` separator.
    MalformedDeclaration(Seq<char>),
    /// A font-size value that is not a byte-sized decimal number.
    MalformedFontSize(Seq<char>),
    /// A citation block with no child element holding the quoted text.
    EmptyCitationBlock,
}

/// A fatal conversion failure, identifying the offending tag, class or
/// declaration.
#[derive(Debug, PartialEq)]
pub enum EngineError {
    /// An element tag the walker has no rendering for.
    UnknownTag(String),
    /// A block element whose class list matches no known marker.
    UnknownClass(String),
    /// An inline style declaration without its `:` separator.
    MalformedDeclaration(String),
    /// A font-size value that is not a byte-sized decimal number.
    MalformedFontSize(String),
    /// A citation block with no child element holding the quoted text.
    EmptyCitationBlock,
}

impl View for EngineError {
    type V = GErr;

    open spec fn view(&self) -> GErr {
        match self {
            EngineError::UnknownTag(t) => GErr::UnknownTag(t@),
            EngineError::UnknownClass(c) => GErr::UnknownClass(c@),
            EngineError::MalformedDeclaration(d) => GErr::MalformedDeclaration(d@),
            EngineError::MalformedFontSize(v) => GErr::MalformedFontSize(v@),
            EngineError::EmptyCitationBlock => GErr::EmptyCitationBlock,
        }
    }
}

} // verus!
