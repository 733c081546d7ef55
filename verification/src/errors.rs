//! What can go wrong while the spans of a chapter are replaced.

use vstd::prelude::*;
use crate::item::Error;
use crate::item::ErrorModel;

verus! {

/// Why a chapter could not be processed, as far as that is decided without
/// looking outside of the text.
#[derive(Debug)]
pub enum ScientificError {
    /// A span could not be classified.
    MathYank(Error),
    /// The renderer is not one of those that are supported.
    RendererNotSupported(String),
    /// LaTeX refused an equation: the message, the input at which it
    /// stopped and the line of that input.
    InvalidMath(String, String, usize),
    /// A reference names an identifier that nothing has registered yet.
    InvalidReference { to: String, lineno: usize },
    /// A reference names a kind that is not known.
    UnknownReferenceKind { kind: String, lineno: usize },
    /// A reference has the wrong number of segments.
    UnexpectedReferenceArgCount { count: usize, lineno: usize },
    /// The bibliography could not be converted.
    InvalidBibliography(String),
    /// The conversion of an equation to an image failed.
    InvalidDvisvgm(String),
    /// An odd number of `$` was found.
    UnevenNumberDollar,
    /// The configuration holds no section for this preprocessor.
    KeySectionNotFound,
    /// The bibliography file does not exist.
    BibliographyMissing(String),
}

/// What a [`ScientificError`] stands for.
pub enum ScientificErrorModel {
    MathYank(ErrorModel),
    RendererNotSupported(Seq<char>),
    InvalidMath(Seq<char>, Seq<char>, nat),
    InvalidReference { to: Seq<char>, lineno: nat },
    UnknownReferenceKind { kind: Seq<char>, lineno: nat },
    UnexpectedReferenceArgCount { count: nat, lineno: nat },
    InvalidBibliography(Seq<char>),
    InvalidDvisvgm(Seq<char>),
    UnevenNumberDollar,
    KeySectionNotFound,
    BibliographyMissing(Seq<char>),
}

impl View for ScientificError {
    type V = ScientificErrorModel;

    open spec fn view(&self) -> ScientificErrorModel {
        match self {
            ScientificError::MathYank(e) => ScientificErrorModel::MathYank(e@),
            ScientificError::RendererNotSupported(s) => ScientificErrorModel::RendererNotSupported(
                s@,
            ),
            ScientificError::InvalidMath(a, b, n) => ScientificErrorModel::InvalidMath(
                a@,
                b@,
                *n as nat,
            ),
            ScientificError::InvalidReference { to, lineno } => {
                ScientificErrorModel::InvalidReference { to: to@, lineno: *lineno as nat }
            },
            ScientificError::UnknownReferenceKind { kind, lineno } => {
                ScientificErrorModel::UnknownReferenceKind { kind: kind@, lineno: *lineno as nat }
            },
            ScientificError::UnexpectedReferenceArgCount { count, lineno } => {
                ScientificErrorModel::UnexpectedReferenceArgCount {
                    count: *count as nat,
                    lineno: *lineno as nat,
                }
            },
            ScientificError::InvalidBibliography(s) => ScientificErrorModel::InvalidBibliography(
                s@,
            ),
            ScientificError::InvalidDvisvgm(s) => ScientificErrorModel::InvalidDvisvgm(s@),
            ScientificError::UnevenNumberDollar => ScientificErrorModel::UnevenNumberDollar,
            ScientificError::KeySectionNotFound => ScientificErrorModel::KeySectionNotFound,
            ScientificError::BibliographyMissing(s) => ScientificErrorModel::BibliographyMissing(
                s@,
            ),
        }
    }
}

} // verus!
