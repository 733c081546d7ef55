//! Spans on their way to LaTeX.
//!
//! Before a document is handed to a Markdown parser, every span to replace
//! gives way to its number between two `$`, and the span itself is put on a
//! stack. Where the parser then reports mathematics, the number leads back
//! to the span, which is classified and written as LaTeX.

use vstd::prelude::*;
use vstd::string::StringSliceAdditionalSpecFns;
use vstd::utf8::decode_utf8;
use crate::content::Content;
use crate::content::ContentModel;
use crate::content::Tagged;
use crate::format::decimal;
use crate::format::decimal_string;
use crate::item::BlockEqu;
use crate::item::classify;
use crate::item::Error;
use crate::item::ErrorModel;
use crate::item::Inline;
use crate::item::InlineModel;
use crate::item::Item;
use crate::item::ItemModel;
use crate::text::lemma_chars_of_bytes;
use crate::text::lemma_str_valid;
use crate::text::slice_str;
use crate::text::trim_space;
use crate::text::trim_str;

verus! {

/// The byte of `#`, which marks a heading.
pub const HASH: u8 = 0x23;

/// The number of `#` at the start of `text`, counted from index `from`.
pub open spec fn hashes_from(text: Seq<u8>, from: int) -> int
    decreases text.len() - from,
{
    if from < 0 || from >= text.len() || text[from] != HASH {
        0
    } else {
        1 + hashes_from(text, from + 1)
    }
}

/// The title in the first line of a Markdown file: the line without the
/// `#` at its start and without white space around it. A line of nothing
/// but `#` is kept as it is, but for the white space.
pub open spec fn title_of(line: Seq<u8>) -> Seq<u8> {
    let hashes = hashes_from(line, 0);
    let from = if hashes >= line.len() {
        0
    } else {
        hashes
    };
    trim_space(line.subrange(from, line.len() as int))
}

/// The title in `first_line`, the first line of a Markdown file.
pub fn title_string(first_line: &str) -> (title: String)
    ensures
        title@ == decode_utf8(title_of(first_line.spec_bytes())),
{
    let text = first_line.as_bytes();
    let len = text.len();
    let mut hashes: usize = 0;
    while hashes < len && text[hashes] == HASH
        invariant
            hashes <= len,
            len == text@.len(),
            hashes_from(text@, 0) == hashes + hashes_from(text@, hashes as int),
            forall|k: int| 0 <= k < hashes ==> text@[k] == HASH,
        decreases len - hashes,
    {
        hashes += 1;
    }
    let from = if hashes >= len {
        0
    } else {
        hashes
    };
    proof {
        lemma_str_valid(first_line);
        crate::text::lemma_boundary(text@, 0);
        if from > 0 {
            crate::text::lemma_boundary_after_ascii(text@, from - 1);
        }
    }
    let title = trim_str(slice_str(first_line, from, len));
    proof {
        lemma_chars_of_bytes(title);
    }
    title.to_owned()
}

/// Descriptions pass through as they are.
pub fn parse_html_description(tex: String) -> (out: String)
    ensures
        out == tex,
{
    tex
}

/// The span of a tagged span.
pub open spec fn content_of(span: Tagged<'_>) -> Content<'_> {
    match span {
        Tagged::Replace(c) => c,
        Tagged::Keep(c) => c,
    }
}

/// The number of spans to replace among the first `n` spans.
pub open spec fn replaced_before(spans: Seq<Tagged<'_>>, n: int) -> nat
    decreases n,
{
    if n <= 0 {
        0
    } else {
        replaced_before(spans, n - 1) + if spans[n - 1] is Replace {
            1nat
        } else {
            0nat
        }
    }
}

/// The text of the first `n` spans where every span to replace has given
/// way to its number between two `$`. The numbers start at zero.
pub open spec fn numbered_text(spans: Seq<Tagged<'_>>, n: int) -> Seq<char>
    decreases n,
{
    if n <= 0 {
        Seq::empty()
    } else if spans[n - 1] is Replace {
        numbered_text(spans, n - 1) + "$"@ + decimal(replaced_before(spans, n - 1)) + "$"@
    } else {
        numbered_text(spans, n - 1) + content_of(spans[n - 1]).s@
    }
}

/// The spans to replace among the first `n` spans, in order.
pub open spec fn replaced_spans(spans: Seq<Tagged<'_>>, n: int) -> Seq<ContentModel>
    decreases n,
{
    if n <= 0 {
        Seq::empty()
    } else if spans[n - 1] is Replace {
        replaced_spans(spans, n - 1).push(content_of(spans[n - 1])@)
    } else {
        replaced_spans(spans, n - 1)
    }
}

/// The models of a list of spans.
pub open spec fn content_models(list: Seq<Content<'_>>) -> Seq<ContentModel> {
    Seq::new(list.len(), |i: int| list[i]@)
}

/// Puts the spans to replace on a stack and writes the text in which each
/// of them has given way to its number on that stack.
pub fn stack_equations<'a>(spans: Vec<Tagged<'a>>) -> (out: (String, Vec<Content<'a>>))
    ensures
        out.0@ == numbered_text(spans@, spans@.len() as int),
        content_models(out.1@) == replaced_spans(spans@, spans@.len() as int),
{
    let mut text = String::new();
    let mut stack: Vec<Content<'a>> = Vec::new();
    let mut i: usize = 0;
    assert(content_models(stack@) =~= Seq::<ContentModel>::empty());
    while i < spans.len()
        invariant
            i <= spans@.len(),
            text@ == numbered_text(spans@, i as int),
            content_models(stack@) == replaced_spans(spans@, i as int),
            stack@.len() == replaced_before(spans@, i as int),
            stack@.len() <= i,
        decreases spans@.len() - i,
    {
        match &spans[i] {
            Tagged::Replace(content) => {
                let number = decimal_string(stack.len());
                let ghost before = stack@;
                let ghost old_text = text@;
                text.append("$");
                text.append(number.as_str());
                text.append("$");
                stack.push(content.clone());
                proof {
                    assert(text@ =~= old_text + "$"@ + number@ + "$"@);
                    assert(content_models(stack@) =~= content_models(before).push(content@));
                }
            },
            Tagged::Keep(content) => {
                text.append(content.s);
            },
        }
        i += 1;
    }
    (text, stack)
}

/// An item written as LaTeX: a block as an `align` environment, with a
/// label where it has an identifier, an inline equation between two `$`,
/// a reference as `\eqref`.
pub open spec fn tex_of(item: ItemModel) -> Seq<char> {
    match item {
        ItemModel::Block(block) => {
            let math = decode_utf8(trim_space(block.content.trim().text));
            match block.refer {
                Some(refer) => "\n\\begin{align}%\n\\label{"@ + decode_utf8(refer) + "}%\n"@ + math
                    + "\n\\end{align}"@,
                None => "\n\\begin{align}%\n"@ + math + "\n\\end{align}"@,
            }
        },
        ItemModel::Inline(InlineModel::Equation(content)) => "$"@ + decode_utf8(
            content.trim().text,
        ) + "$"@,
        ItemModel::Inline(InlineModel::Reference(reference)) => "\\eqref{"@ + decode_utf8(
            reference.refere,
        ) + "}"@,
    }
}

/// Classifies the span `content` and writes it as LaTeX.
///
/// The span has to be one that can be trimmed.
pub fn math_to_tex<'a>(content: &'a Content<'a>) -> (tex: Result<String, Error>)
    requires
        content@.trimmable(),
    ensures
        match tex {
            Ok(t) => classify(content@) is Ok && t@ == tex_of(classify(content@)->Ok_0),
            Err(e) => classify(content@) == Err::<ItemModel, ErrorModel>(e@),
        },
{
    let item = match Item::try_from(content) {
        Ok(item) => item,
        Err(e) => {
            return Err(e);
        },
    };
    Ok(
        match item {
            Item::Block(BlockEqu { title: _, refer, kind: _, content }) => {
                let math = trim_str(content.trimmed().as_str());
                proof {
                    lemma_chars_of_bytes(math);
                }
                match refer {
                    Some(refer) => {
                        proof {
                            lemma_chars_of_bytes(refer);
                        }
                        String::from_str("\n\\begin{align}%\n\\label{").concat(refer).concat(
                            "}%\n",
                        ).concat(math).concat("\n\\end{align}")
                    },
                    None => String::from_str("\n\\begin{align}%\n").concat(math).concat(
                        "\n\\end{align}",
                    ),
                }
            },
            Item::Inline(Inline::Equation(equation)) => {
                let math = equation.content.trimmed().as_str();
                proof {
                    lemma_chars_of_bytes(math);
                }
                String::from_str("$").concat(math).concat("$")
            },
            Item::Inline(Inline::Reference(reference)) => {
                proof {
                    lemma_chars_of_bytes(reference.refere);
                }
                String::from_str("\\eqref{").concat(reference.refere).concat("}")
            },
        },
    )
}

/// The value of a text of decimal digits, read up to index `n`.
pub open spec fn digits_value(text: Seq<u8>, n: int) -> nat
    decreases n,
{
    if n <= 0 {
        0
    } else {
        digits_value(text, n - 1) * 10 + (text[n - 1] - 0x30) as nat
    }
}

/// Whether every byte of `text` is a decimal digit.
pub open spec fn all_digits(text: Seq<u8>) -> bool {
    forall|i: int| 0 <= i < text.len() ==> 0x30 <= #[trigger] text[i] <= 0x39
}

/// The number that a text holds: decimal digits, at least one, with or
/// without a `+` before them, that give a value within `usize`. Any other
/// text holds no number.
pub open spec fn index_of(text: Seq<u8>) -> Option<usize> {
    let digits = if text.len() > 0 && text[0] == 0x2B {
        text.subrange(1, text.len() as int)
    } else {
        text
    };
    if digits.len() > 0 && all_digits(digits) && digits_value(digits, digits.len() as int)
        <= usize::MAX {
        Some(digits_value(digits, digits.len() as int) as usize)
    } else {
        None
    }
}

/// With more digits the value is not smaller.
proof fn lemma_digits_grow(text: Seq<u8>, m: int, n: int)
    requires
        0 <= m <= n <= text.len(),
        all_digits(text),
    ensures
        digits_value(text, m) <= digits_value(text, n),
    decreases n - m,
{
    if m < n {
        lemma_digits_grow(text, m, n - 1);
        assert(0x30 <= text[n - 1] <= 0x39);
    }
}

/// Reads the number of a span on the stack.
pub fn parse_index(text: &str) -> (index: Option<usize>)
    ensures
        index == index_of(text.spec_bytes()),
{
    let bytes = text.as_bytes();
    let len = bytes.len();
    let start: usize = if len > 0 && bytes[0] == 0x2B {
        1
    } else {
        0
    };
    let ghost digits = bytes@.subrange(start as int, len as int);
    assert(bytes@.subrange(0, len as int) =~= bytes@);
    assert(digits == if bytes@.len() > 0 && bytes@[0] == 0x2B {
        bytes@.subrange(1, bytes@.len() as int)
    } else {
        bytes@
    });
    if start == len {
        return None;
    }
    let mut value: usize = 0;
    let mut i: usize = start;
    while i < len
        invariant
            start <= i <= len,
            len == bytes@.len(),
            bytes@ == text.spec_bytes(),
            digits == bytes@.subrange(start as int, len as int),
            digits == if bytes@.len() > 0 && bytes@[0] == 0x2B {
                bytes@.subrange(1, bytes@.len() as int)
            } else {
                bytes@
            },
            value == digits_value(digits, i - start),
            forall|k: int| 0 <= k < i - start ==> 0x30 <= #[trigger] digits[k] <= 0x39,
        decreases len - i,
    {
        let b = bytes[i];
        assert(digits[i - start] == b);
        if b < 0x30 || b > 0x39 {
            assert(!all_digits(digits)) by {
                assert(!(0x30 <= digits[i - start] <= 0x39));
            }
            return None;
        }
        let d = (b - 0x30) as usize;
        let next = match value.checked_mul(10) {
            Some(v) => v.checked_add(d),
            None => None,
        };
        match next {
            Some(v) => {
                value = v;
            },
            None => {
                proof {
                    assert(digits_value(digits, i - start + 1) == value * 10 + d);
                    assert(value * 10 + d > usize::MAX);
                    if all_digits(digits) {
                        lemma_digits_grow(digits, i - start + 1, digits.len() as int);
                    }
                }
                return None;
            },
        }
        i += 1;
    }
    Some(value)
}

} // verus!
