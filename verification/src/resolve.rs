//! What becomes of a classified span: references are resolved, blocks are
//! registered, and the text that takes the place of the span is made.
//!
//! References are resolved in the order of the text. A reference to an
//! identifier that no earlier block has registered is an error.

use vstd::prelude::*;
use vstd::utf8::decode_utf8;
use crate::content::Content;
use crate::content::ContentModel;
use crate::errors::ScientificError;
use crate::errors::ScientificErrorModel;
use crate::format::bib_reference;
use crate::format::block_tex;
use crate::format::decimal;
use crate::format::equ_reference;
use crate::format::equation_html;
use crate::format::fig_reference;
use crate::format::figure_html;
use crate::format::format_bib_reference;
use crate::format::format_equ_reference;
use crate::format::format_equation_block;
use crate::format::format_equation_inline;
use crate::format::format_fig_reference;
use crate::format::format_figure;
use crate::format::inline_html;
use crate::format::inline_tex;
use crate::format::Replacement;
use crate::format::takes_tex;
use crate::item::BlockEqu;
use crate::item::BlockEquModel;
use crate::item::classify_block;
use crate::item::classify_inline;
use crate::item::ErrorModel;
use crate::item::Inline;
use crate::item::InlineModel;
use crate::item::Reference;
use crate::item::RefKind;
use crate::renderer::SupportedRenderer;
use crate::text::lemma_bytes_not_empty;
use crate::text::lemma_chars_of_bytes;
use crate::tracker::ReferenceTracker;

verus! {

/// The texts of a list of strings.
pub open spec fn texts(list: Seq<String>) -> Seq<Seq<char>> {
    Seq::new(list.len(), |i: int| list[i]@)
}

/// The text for a reference of a kind.
pub open spec fn reference_text(
    kind: RefKind,
    refere: Seq<char>,
    title: Seq<char>,
    renderer: SupportedRenderer,
) -> Seq<char> {
    match kind {
        RefKind::Bibliography => bib_reference(refere, title, renderer),
        RefKind::Figure => fig_reference(refere, title, renderer),
        RefKind::Equation => equ_reference(refere, title, renderer),
    }
}

/// The text that takes the place of a reference: made from the label
/// under which the identifier was registered. A reference to an
/// identifier that was not registered is an error, which holds the
/// identifier and the line of the reference.
pub fn resolve_reference(
    reference: &Reference<'_>,
    lineno: usize,
    references: &ReferenceTracker,
    renderer: SupportedRenderer,
) -> (text: Result<String, ScientificError>)
    ensures
        match text {
            Ok(t) => references@.contains_key(reference.refere@) && t@ == reference_text(
                reference.ref_kind,
                reference.refere@,
                references@[reference.refere@],
                renderer,
            ),
            Err(e) => !references@.contains_key(reference.refere@) && e@
                == (ScientificErrorModel::InvalidReference {
                to: reference.refere@,
                lineno: lineno as nat,
            }),
        },
{
    let title = match references.get(reference.refere) {
        Some(title) => title,
        None => {
            return Err(
                ScientificError::InvalidReference { to: reference.refere.to_owned(), lineno },
            );
        },
    };
    Ok(
        match reference.ref_kind {
            RefKind::Bibliography => format_bib_reference(
                reference.refere,
                title.as_str(),
                renderer,
            ),
            RefKind::Figure => format_fig_reference(reference.refere, title.as_str(), renderer),
            RefKind::Equation => format_equ_reference(reference.refere, title.as_str(), renderer),
        },
    )
}

/// The identifier under which a figure without one is registered.
pub open spec fn unknown_refer() -> Seq<char> {
    "unknown var"@
}

/// Whether a block is a figure: it has a title.
pub open spec fn is_figure(title: Option<&str>) -> bool {
    title is Some
}

/// Whether a block is a numbered equation: it has no title and an
/// identifier that is not empty.
pub open spec fn is_numbered(refer: Option<&str>, title: Option<&str>) -> bool {
    title is None && refer is Some && refer->0@.len() > 0
}

/// The identifier under which a block is registered: its own, or
/// `unknown var` for a figure without one.
pub open spec fn registered_refer(refer: Option<&str>) -> Seq<char> {
    match refer {
        Some(r) => r@,
        None => unknown_refer(),
    }
}

/// The label under which a block is registered: `Figure`, the number of
/// the chapter and `1` for a figure, the number of the chapter and `1`
/// for an equation.
pub open spec fn registered_label(title: Option<&str>, chapter_number: Seq<char>) -> Seq<char> {
    if is_figure(title) {
        "Figure "@ + chapter_number + decimal(1)
    } else {
        chapter_number + decimal(1)
    }
}

/// The references behind a block: a figure and a numbered equation
/// register their label, any other block changes nothing.
pub open spec fn references_behind(
    before: Map<Seq<char>, Seq<char>>,
    refer: Option<&str>,
    title: Option<&str>,
    chapter_number: Seq<char>,
) -> Map<Seq<char>, Seq<char>> {
    if is_figure(title) || is_numbered(refer, title) {
        before.insert(registered_refer(refer), registered_label(title, chapter_number))
    } else {
        before
    }
}

/// The text that takes the place of a block.
pub open spec fn block_text(
    replacement: &Replacement<'_>,
    refer: Option<&str>,
    title: Option<&str>,
    chapter_number: Seq<char>,
    renderer: SupportedRenderer,
) -> Seq<char> {
    if takes_tex(renderer) {
        block_tex(replacement.inner())
    } else if is_figure(title) {
        figure_html(
            registered_refer(refer),
            replacement.svg_asset_file@,
            chapter_number,
            1,
            title->0@,
        )
    } else if is_numbered(refer, title) {
        equation_html(refer->0@, replacement.svg_asset_file@, chapter_number, 1)
    } else {
        equation_html(Seq::empty(), replacement.svg_asset_file@, chapter_number, 0)
    }
}

/// Takes in a rendered block: its file joins the fragments that are in
/// use, its label is registered where it is a figure or a numbered
/// equation, and the text that takes its place is returned.
pub fn add_object(
    replacement: &Replacement<'_>,
    refer: Option<&str>,
    title: Option<&str>,
    chapter_number: &str,
    references: &mut ReferenceTracker,
    used_fragments: &mut Vec<String>,
    renderer: SupportedRenderer,
) -> (text: String)
    requires
        takes_tex(renderer) ==> replacement.has_inner(),
    ensures
        texts(final(used_fragments)@) == texts(old(used_fragments)@).push(
            replacement.svg_fragment_file@,
        ),
        final(references)@ == references_behind(old(references)@, refer, title, chapter_number@),
        text@ == block_text(replacement, refer, title, chapter_number@, renderer),
{
    let ghost before = used_fragments@;
    used_fragments.push(replacement.svg_fragment_file.clone());
    assert(texts(used_fragments@) =~= texts(before).push(replacement.svg_fragment_file@));
    proof {
        reveal_strlit("");
        reveal_strlit("1");
        assert(decimal(1) =~= "1"@);
    }
    if let Some(title) = title {
        let refer = match refer {
            Some(r) => r,
            None => "unknown var",
        };
        let label = String::from_str("Figure ").concat(chapter_number).concat("1");
        references.add(refer, label.as_str());
        format_figure(replacement, refer, chapter_number, 1, title, renderer)
    } else {
        let numbered = match refer {
            Some(r) => r.as_bytes().len() > 0,
            None => false,
        };
        proof {
            if refer is Some {
                vstd::utf8::encode_utf8_decode_utf8(refer->0@);
                if refer->0@.len() == 0 {
                    assert(refer->0@ =~= Seq::<char>::empty());
                } else {
                    lemma_bytes_not_empty(refer->0@);
                }
            }
        }
        if numbered {
            let refer = refer.unwrap();
            let label = String::from_str(chapter_number).concat("1");
            references.add(refer, label.as_str());
            format_equation_block(replacement, refer, chapter_number, 1, renderer)
        } else {
            format_equation_block(replacement, "", chapter_number, 0, renderer)
        }
    }
}

/// Takes in a rendered inline equation: its file joins the fragments that
/// are in use, and the text that takes its place is returned.
pub fn add_inline_equation(
    replacement: Replacement<'_>,
    used_fragments: &mut Vec<String>,
    renderer: SupportedRenderer,
) -> (text: String)
    requires
        takes_tex(renderer) ==> replacement.has_inner(),
    ensures
        texts(final(used_fragments)@) == texts(old(used_fragments)@).push(
            replacement.svg_fragment_file@,
        ),
        text@ == if takes_tex(renderer) {
            inline_tex(replacement.inner())
        } else {
            inline_html(replacement.svg_asset_file@)
        },
{
    let ghost before = used_fragments@;
    let text = format_equation_inline(&replacement, renderer);
    let ghost file = replacement.svg_fragment_file@;
    used_fragments.push(replacement.svg_fragment_file);
    assert(texts(used_fragments@) =~= texts(before).push(file));
    text
}

/// What is decided of an inline span before anything is rendered: the
/// text of a reference, or that the span holds an equation, which has yet
/// to be rendered.
pub open spec fn inline_plan(
    content: ContentModel,
    references: Map<Seq<char>, Seq<char>>,
    renderer: SupportedRenderer,
) -> Result<Option<Seq<char>>, ScientificErrorModel> {
    match classify_inline(content) {
        Err(e) => Err(ScientificErrorModel::MathYank(e)),
        Ok(InlineModel::Equation(_)) => Ok(None),
        Ok(InlineModel::Reference(reference)) => {
            let refere = decode_utf8(reference.refere);
            if references.contains_key(refere) {
                Ok(Some(reference_text(reference.ref_kind, refere, references[refere], renderer)))
            } else {
                Err(
                    ScientificErrorModel::InvalidReference {
                        to: refere,
                        lineno: content.start.line as nat,
                    },
                )
            }
        },
    }
}

/// Decides what becomes of an inline span. A reference is resolved to the
/// text that takes its place. An equation has to be rendered first: for
/// it the result is `None`, and [`add_inline_equation`] takes in what was
/// rendered.
///
/// The span has to be one that can be trimmed.
pub fn transform_inline_as_needed<'a>(
    content: &'a Content<'a>,
    references: &ReferenceTracker,
    renderer: SupportedRenderer,
) -> (text: Result<Option<String>, ScientificError>)
    requires
        content@.trimmable(),
    ensures
        match text {
            Ok(Some(t)) => inline_plan(content@, references@, renderer) == Ok::<
                Option<Seq<char>>,
                ScientificErrorModel,
            >(Some(t@)),
            Ok(None) => inline_plan(content@, references@, renderer) == Ok::<
                Option<Seq<char>>,
                ScientificErrorModel,
            >(None),
            Err(e) => inline_plan(content@, references@, renderer) == Err::<
                Option<Seq<char>>,
                ScientificErrorModel,
            >(e@),
        },
{
    let lineno = content.start.lineno;
    match Inline::try_from(content) {
        Err(e) => Err(ScientificError::MathYank(e)),
        Ok(Inline::Equation(_)) => Ok(None),
        Ok(Inline::Reference(reference)) => {
            proof {
                lemma_chars_of_bytes(reference.refere);
            }
            match resolve_reference(&reference, lineno, references, renderer) {
                Ok(text) => Ok(Some(text)),
                Err(e) => Err(e),
            }
        },
    }
}

/// Decides what becomes of a block: it is classified, and has then to be
/// rendered as its kind asks. [`add_object`] takes in what was rendered.
///
/// The span has to be one that can be trimmed.
pub fn transform_block_as_needed<'a>(content: &'a Content<'a>) -> (block: Result<
    BlockEqu<'a>,
    ScientificError,
>)
    requires
        content@.trimmable(),
    ensures
        match block {
            Ok(b) => classify_block(content@) == Ok::<BlockEquModel, ErrorModel>(b@),
            Err(e) => classify_block(content@) is Err && e@ == ScientificErrorModel::MathYank(
                classify_block(content@)->Err_0,
            ),
        },
{
    match BlockEqu::try_from(content) {
        Ok(block) => Ok(block),
        Err(e) => Err(ScientificError::MathYank(e)),
    }
}

} // verus!
