//! The renderers that the output can be prepared for.

use vstd::prelude::*;
use crate::errors::ScientificError;
use crate::errors::ScientificErrorModel;
use crate::text::same_text;

verus! {

/// A renderer that is supported.
#[derive(Debug, Clone, Copy, PartialEq, Eq)]
pub enum SupportedRenderer {
    Tectonic,
    Latex,
    Markdown,
    Html,
}

/// The lower case form of a text, as `str::to_lowercase` gives it.
pub uninterp spec fn lowercase_of(text: Seq<char>) -> Seq<char>;

/// `str::to_lowercase` of the standard library: the lower case form of `s`
/// by the rules of Unicode. The contract gives the result a name and says
/// no more of it.
#[verifier::external_body]
fn to_lowercase(s: &str) -> (lower: String)
    ensures
        lower@ == lowercase_of(s@),
{
    s.to_lowercase()
}

/// The renderer that a name in lower case stands for.
pub open spec fn renderer_of(name: Seq<char>) -> Option<SupportedRenderer> {
    if name == "tectonic"@ {
        Some(SupportedRenderer::Tectonic)
    } else if name == "latex"@ {
        Some(SupportedRenderer::Latex)
    } else if name == "markdown"@ {
        Some(SupportedRenderer::Markdown)
    } else if name == "html"@ {
        Some(SupportedRenderer::Html)
    } else {
        None
    }
}

impl SupportedRenderer {
    /// The name of the renderer.
    pub fn as_str(&self) -> (name: &str)
        ensures
            name@ == match self {
                SupportedRenderer::Html => "html"@,
                SupportedRenderer::Tectonic => "tectonic"@,
                SupportedRenderer::Latex => "latex"@,
                SupportedRenderer::Markdown => "markdown"@,
            },
    {
        match self {
            SupportedRenderer::Html => "html",
            SupportedRenderer::Tectonic => "tectonic",
            SupportedRenderer::Latex => "latex",
            SupportedRenderer::Markdown => "markdown",
        }
    }

    /// The name of the renderer, as a text of its own.
    pub fn to_string(&self) -> (name: String)
        ensures
            name@ == match self {
                SupportedRenderer::Html => "html"@,
                SupportedRenderer::Tectonic => "tectonic"@,
                SupportedRenderer::Latex => "latex"@,
                SupportedRenderer::Markdown => "markdown"@,
            },
    {
        String::from_str(self.as_str())
    }

    /// The renderer that `name` stands for, where `name` is in lower case.
    /// Any other name is an error that holds the name.
    pub fn from_lowercase(name: &str) -> (renderer: Result<SupportedRenderer, ScientificError>)
        ensures
            match renderer {
                Ok(r) => renderer_of(name@) == Some(r),
                Err(e) => renderer_of(name@) is None && e@
                    == ScientificErrorModel::RendererNotSupported(name@),
            },
    {
        if same_text(name, "tectonic") {
            Ok(SupportedRenderer::Tectonic)
        } else if same_text(name, "latex") {
            Ok(SupportedRenderer::Latex)
        } else if same_text(name, "markdown") {
            Ok(SupportedRenderer::Markdown)
        } else if same_text(name, "html") {
            Ok(SupportedRenderer::Html)
        } else {
            Err(ScientificError::RendererNotSupported(name.to_owned()))
        }
    }

    /// The renderer that `s` stands for, whatever the case of its letters.
    /// Any other name is an error that holds the name in lower case.
    pub fn from_str(s: &str) -> (renderer: Result<SupportedRenderer, ScientificError>)
        ensures
            match renderer {
                Ok(r) => renderer_of(lowercase_of(s@)) == Some(r),
                Err(e) => renderer_of(lowercase_of(s@)) is None && e@
                    == ScientificErrorModel::RendererNotSupported(lowercase_of(s@)),
            },
    {
        let lower = to_lowercase(s);
        SupportedRenderer::from_lowercase(lower.as_str())
    }
}

} // verus!
