//! What the programs around the library are set up with.

use vstd::prelude::*;
use crate::renderer::lowercase_of;
use crate::renderer::renderer_of;
use crate::renderer::SupportedRenderer;

verus! {

/// The date that a document carries where none is configured: the LaTeX
/// macro for the day on which the document is typeset.
pub fn today() -> (date: String)
    ensures
        date@ == "\\today"@,
{
    String::from_str("\\today")
}

/// The configuration of the output through Tectonic.
#[derive(Debug)]
pub struct TectonicConfig {
    /// The names of the chapters that are left out.
    pub ignores: Vec<String>,
    /// Whether a LaTeX file is written.
    pub latex: bool,
    /// Whether a PDF file is written.
    pub pdf: bool,
    /// Whether a Markdown file is written.
    pub markdown: bool,
    /// The path of a template that takes the place of the built-in one.
    pub custom_template: Option<String>,
    /// The directories in which assets are looked up.
    pub assets: Vec<String>,
    /// The date for the `\date` macro.
    pub date: String,
}

impl Default for TectonicConfig {
    fn default() -> (config: Self)
        ensures
            config.ignores@.len() == 0,
            config.latex,
            config.pdf,
            config.markdown,
            config.assets@.len() == 0,
            config.custom_template is None,
            config.date@ == "\\today"@,
    {
        TectonicConfig {
            ignores: Vec::new(),
            latex: true,
            pdf: true,
            markdown: true,
            assets: Vec::new(),
            custom_template: None,
            date: today(),
        }
    }
}

/// What a preprocessor is asked on its command line.
#[derive(Debug)]
pub enum Sub {
    /// Whether it supports a renderer.
    Supports { renderer: String },
}

impl Sub {
    /// The renderer that is asked for.
    pub fn to_string(&self) -> (text: String)
        ensures
            text@ == match self {
                Sub::Supports { renderer } => renderer@,
            },
    {
        match self {
            Sub::Supports { renderer } => renderer.clone(),
        }
    }
}

/// The command line of a preprocessor.
#[derive(Debug)]
pub struct Args {
    /// The question that is asked, where one is asked.
    pub supports: Option<Sub>,
}

/// Whether a renderer of that name is supported, whatever the case of its
/// letters.
pub open spec fn is_supported(renderer: Seq<char>) -> bool {
    renderer_of(lowercase_of(renderer)) is Some
}

/// The preprocessor that replaces charts by rendered images.
#[derive(Debug)]
pub struct Fishextract;

impl Fishextract {
    /// The preprocessor.
    pub fn new() -> Fishextract {
        Fishextract
    }

    /// The name under which the preprocessor is configured.
    pub fn name(&self) -> (name: &str)
        ensures
            name@ == "fishextract"@,
    {
        "fishextract"
    }

    /// Whether the preprocessor works for a renderer of that name.
    pub fn supports_renderer(&self, renderer: &str) -> (supported: bool)
        ensures
            supported == is_supported(renderer@),
    {
        SupportedRenderer::from_str(renderer).is_ok()
    }
}

/// The preprocessor that replaces mathematics and references.
#[derive(Debug)]
pub struct Scientific;

impl Scientific {
    /// The preprocessor.
    pub fn new() -> Scientific {
        Scientific
    }

    /// The name under which the preprocessor is configured.
    pub fn name(&self) -> (name: &str)
        ensures
            name@ == "scientific"@,
    {
        "scientific"
    }

    /// Whether the preprocessor works for a renderer of that name.
    pub fn supports_renderer(&self, renderer: &str) -> (supported: bool)
        ensures
            supported == is_supported(renderer@),
    {
        SupportedRenderer::from_str(renderer).is_ok()
    }
}

} // verus!
