//! The text that takes the place of a span.

use vstd::prelude::*;
use vstd::string::StringSliceAdditionalSpecFns;
use crate::content::Content;
use crate::renderer::SupportedRenderer;

verus! {

/// A span together with what was rendered for it.
#[derive(Debug)]
pub struct Replacement<'a> {
    /// The span that is replaced.
    pub content: Content<'a>,
    /// A text that stands in for the payload of the span with the
    /// renderers that take LaTeX, where there is one.
    pub intermediate: Option<String>,
    /// The path of the rendered file among the fragments.
    pub svg_fragment_file: String,
    /// The path under which the rendered file is referred to in the output.
    pub svg_asset_file: String,
}

impl<'a> Replacement<'a> {
    /// Whether the span has a text to stand for it: an intermediate text,
    /// or a payload that can be trimmed.
    pub open spec fn has_inner(&self) -> bool {
        self.intermediate is Some || self.content@.trimmable()
    }

    /// The text that stands for the span: the intermediate text where
    /// there is one, the characters of the payload where there is none.
    pub open spec fn inner(&self) -> Seq<char> {
        match self.intermediate {
            Some(text) => text@,
            None => vstd::utf8::decode_utf8(self.content@.trim().text),
        }
    }

    /// The intermediate text where there is one, and else the payload of
    /// the span.
    pub fn inner_str_or_intermediate(&'a self) -> (text: &'a str)
        requires
            self.has_inner(),
        ensures
            text@ == self.inner(),
    {
        match &self.intermediate {
            Some(intermediate) => intermediate.as_str(),
            None => {
                let payload = self.content.trimmed().as_str();
                proof {
                    vstd::utf8::encode_utf8_decode_utf8(payload@);
                }
                payload
            },
        }
    }
}

/// The decimal digit for a number below ten.
pub open spec fn digit(d: nat) -> char {
    if d == 0 {
        '0'
    } else if d == 1 {
        '1'
    } else if d == 2 {
        '2'
    } else if d == 3 {
        '3'
    } else if d == 4 {
        '4'
    } else if d == 5 {
        '5'
    } else if d == 6 {
        '6'
    } else if d == 7 {
        '7'
    } else if d == 8 {
        '8'
    } else {
        '9'
    }
}

/// The decimal numeral of a number.
pub open spec fn decimal(n: nat) -> Seq<char>
    decreases n,
{
    if n < 10 {
        seq![digit(n)]
    } else {
        decimal(n / 10).push(digit(n % 10))
    }
}

/// The decimal digit for a number below ten, as a text.
fn digit_text(d: usize) -> (text: &'static str)
    requires
        d < 10,
    ensures
        text@ == seq![digit(d as nat)],
{
    proof {
        reveal_strlit("0");
        reveal_strlit("1");
        reveal_strlit("2");
        reveal_strlit("3");
        reveal_strlit("4");
        reveal_strlit("5");
        reveal_strlit("6");
        reveal_strlit("7");
        reveal_strlit("8");
        reveal_strlit("9");
    }
    let text = if d == 0 {
        "0"
    } else if d == 1 {
        "1"
    } else if d == 2 {
        "2"
    } else if d == 3 {
        "3"
    } else if d == 4 {
        "4"
    } else if d == 5 {
        "5"
    } else if d == 6 {
        "6"
    } else if d == 7 {
        "7"
    } else if d == 8 {
        "8"
    } else {
        "9"
    };
    assert(text@ =~= seq![digit(d as nat)]);
    text
}

/// The decimal numeral of `n`.
pub fn decimal_string(n: usize) -> (text: String)
    ensures
        text@ == decimal(n as nat),
    decreases n,
{
    if n < 10 {
        String::from_str(digit_text(n))
    } else {
        let text = decimal_string(n / 10).concat(digit_text(n % 10));
        assert(text@ =~= decimal(n as nat));
        text
    }
}

/// A figure for a web page: the image with its caption.
pub open spec fn figure_html(
    refer: Seq<char>,
    file: Seq<char>,
    head_num: Seq<char>,
    figures_counter: nat,
    title: Seq<char>,
) -> Seq<char> {
    "<figure id=\""@
        + refer
        + "\" class=\"figure\">\n                    <object data=\""@
        + file
        + "\" type=\"image/svg+xml\"/></object>\n                    <figcaption>Figure "@
        + head_num
        + decimal(figures_counter)
        + " "@
        + title
        + "</figcaption>\n                </figure>"@
}

/// A block in LaTeX: the text between two lines of `$$`.
pub open spec fn block_tex(inner: Seq<char>) -> Seq<char> {
    "$$"@ + inner + "\n$$"@
}

/// A block equation for a web page: the image with its number.
pub open spec fn equation_html(
    refer: Seq<char>,
    file: Seq<char>,
    head_num: Seq<char>,
    equations_counter: nat,
) -> Seq<char> {
    "<div id=\""@
        + refer
        + "\" class=\"equation\">\n                    <div class=\"equation_inner\">\n                        <object data=\""@
        + file
        + "\" type=\"image/svg+xml\"></object>\n                    </div><span>("@
        + head_num
        + decimal(equations_counter)
        + ")</span>\n                </div>"@
}

/// An inline equation for a web page: the image.
pub open spec fn inline_html(file: Seq<char>) -> Seq<char> {
    "<object class=\"equation_inline\" data=\""@ + file + "\" type=\"image/svg+xml\"></object>"@
}

/// An inline equation in LaTeX: the text between two `$`.
pub open spec fn inline_tex(inner: Seq<char>) -> Seq<char> {
    "$"@ + inner + "$"@
}

/// Whether the renderer takes LaTeX.
pub open spec fn takes_tex(renderer: SupportedRenderer) -> bool {
    renderer == SupportedRenderer::Latex || renderer == SupportedRenderer::Tectonic
}

/// The text that takes the place of a figure.
pub fn format_figure<'a>(
    replacement: &Replacement<'a>,
    refer: &str,
    head_num: &str,
    figures_counter: usize,
    title: &str,
    renderer: SupportedRenderer,
) -> (text: String)
    requires
        takes_tex(renderer) ==> replacement.has_inner(),
    ensures
        text@ == if takes_tex(renderer) {
            block_tex(replacement.inner())
        } else {
            figure_html(
                refer@,
                replacement.svg_asset_file@,
                head_num@,
                figures_counter as nat,
                title@,
            )
        },
{
    match renderer {
        SupportedRenderer::Html | SupportedRenderer::Markdown => {
            let file = replacement.svg_asset_file.as_str();
            let figures_counter = decimal_string(figures_counter);
            String::from_str("<figure id=\"")
                .concat(refer)
                .concat("\" class=\"figure\">\n                    <object data=\"")
                .concat(file)
                .concat("\" type=\"image/svg+xml\"/></object>\n                    <figcaption>Figure ")
                .concat(head_num)
                .concat(figures_counter.as_str())
                .concat(" ")
                .concat(title)
                .concat("</figcaption>\n                </figure>")
        },
        SupportedRenderer::Latex | SupportedRenderer::Tectonic => {
            let inner = replacement.inner_str_or_intermediate();
            String::from_str("$$").concat(inner).concat("\n$$")
        },
    }
}

/// The text that takes the place of a block equation.
pub fn format_equation_block<'a>(
    replacement: &Replacement<'a>,
    refer: &str,
    head_num: &str,
    equations_counter: usize,
    renderer: SupportedRenderer,
) -> (text: String)
    requires
        takes_tex(renderer) ==> replacement.has_inner(),
    ensures
        text@ == if takes_tex(renderer) {
            block_tex(replacement.inner())
        } else {
            equation_html(
                refer@,
                replacement.svg_asset_file@,
                head_num@,
                equations_counter as nat,
            )
        },
{
    match renderer {
        SupportedRenderer::Html | SupportedRenderer::Markdown => {
            let file = replacement.svg_asset_file.as_str();
            let equations_counter = decimal_string(equations_counter);
            String::from_str("<div id=\"")
                .concat(refer)
                .concat("\" class=\"equation\">\n                    <div class=\"equation_inner\">\n                        <object data=\"")
                .concat(file)
                .concat("\" type=\"image/svg+xml\"></object>\n                    </div><span>(")
                .concat(head_num)
                .concat(equations_counter.as_str())
                .concat(")</span>\n                </div>")
        },
        SupportedRenderer::Latex | SupportedRenderer::Tectonic => {
            let inner = replacement.inner_str_or_intermediate();
            String::from_str("$$").concat(inner).concat("\n$$")
        },
    }
}

/// The text that takes the place of an inline equation.
pub fn format_equation_inline<'a>(replacement: &Replacement<'a>, renderer: SupportedRenderer) -> (text:
    String)
    requires
        takes_tex(renderer) ==> replacement.has_inner(),
    ensures
        text@ == if takes_tex(renderer) {
            inline_tex(replacement.inner())
        } else {
            inline_html(replacement.svg_asset_file@)
        },
{
    match renderer {
        SupportedRenderer::Html | SupportedRenderer::Markdown => {
            let file = replacement.svg_asset_file.as_str();
            String::from_str("<object class=\"equation_inline\" data=\"")
                .concat(file)
                .concat("\" type=\"image/svg+xml\"></object>")
        },
        SupportedRenderer::Latex | SupportedRenderer::Tectonic => {
            let inner = replacement.inner_str_or_intermediate();
            String::from_str("$").concat(inner).concat("$")
        },
    }
}

/// A reference to an entry of the bibliography: a link for a web page,
/// and else the reference as it was written.
pub open spec fn bib_reference(refere: Seq<char>, title: Seq<char>, renderer: SupportedRenderer)
    -> Seq<char> {
    if renderer == SupportedRenderer::Html {
        "<a class=\"bib_ref\" href='bibliography.html#"@ + refere + "'>"@ + title + "</a>"@
    } else {
        "$ref:bib:"@ + refere + "$"@
    }
}

/// A reference to a figure: a link for a web page, and else the reference
/// as it was written.
pub open spec fn fig_reference(refere: Seq<char>, title: Seq<char>, renderer: SupportedRenderer)
    -> Seq<char> {
    if renderer == SupportedRenderer::Html {
        "<a class=\"fig_ref\" href='#"@ + refere + "'>"@ + title + "</a>"@
    } else {
        "$ref:fig:"@ + refere + "$"@
    }
}

/// A reference to an equation: a link for a web page, and else the
/// reference as it was written.
pub open spec fn equ_reference(refere: Seq<char>, title: Seq<char>, renderer: SupportedRenderer)
    -> Seq<char> {
    if renderer == SupportedRenderer::Html {
        "<a class=\"equ_ref\" href='#"@ + refere + "'>Eq. ("@ + title + ")</a>"@
    } else {
        "$ref:equ:"@ + refere + "$"@
    }
}

/// The text that takes the place of a reference to the bibliography.
pub fn format_bib_reference(refere: &str, title: &str, renderer: SupportedRenderer) -> (text: String)
    ensures
        text@ == bib_reference(refere@, title@, renderer),
{
    match renderer {
        SupportedRenderer::Html => String::from_str("<a class=\"bib_ref\" href='bibliography.html#")
            .concat(refere)
            .concat("'>")
            .concat(title)
            .concat("</a>"),
        SupportedRenderer::Latex | SupportedRenderer::Tectonic | SupportedRenderer::Markdown => String::from_str("$ref:bib:")
            .concat(refere)
            .concat("$"),
    }
}

/// The text that takes the place of a reference to a figure.
pub fn format_fig_reference(refere: &str, title: &str, renderer: SupportedRenderer) -> (text: String)
    ensures
        text@ == fig_reference(refere@, title@, renderer),
{
    match renderer {
        SupportedRenderer::Html => String::from_str("<a class=\"fig_ref\" href='#")
            .concat(refere)
            .concat("'>")
            .concat(title)
            .concat("</a>"),
        SupportedRenderer::Latex | SupportedRenderer::Tectonic | SupportedRenderer::Markdown => String::from_str("$ref:fig:")
            .concat(refere)
            .concat("$"),
    }
}

/// The text that takes the place of a reference to an equation.
pub fn format_equ_reference(refere: &str, title: &str, renderer: SupportedRenderer) -> (text: String)
    ensures
        text@ == equ_reference(refere@, title@, renderer),
{
    match renderer {
        SupportedRenderer::Html => String::from_str("<a class=\"equ_ref\" href='#")
            .concat(refere)
            .concat("'>Eq. (")
            .concat(title)
            .concat(")</a>"),
        SupportedRenderer::Latex | SupportedRenderer::Tectonic | SupportedRenderer::Markdown => String::from_str("$ref:equ:")
            .concat(refere)
            .concat("$"),
    }
}

} // verus!
