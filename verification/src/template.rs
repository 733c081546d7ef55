//! Templates: documents with places that are filled in.

use vstd::prelude::*;
use vstd::string::StringSliceAdditionalSpecFns;
use vstd::utf8::encode_utf8;
use crate::position::block_delimiter;
use crate::position::block_text;
use crate::replace::lemma_boundary_after_match;
use crate::replace::lemma_encode_concat;
use crate::replace::lemma_match_on_boundary;
use crate::replace::replace_text;
use crate::replace::replaced_text;
use crate::text::lemma_boundary;
use crate::text::lemma_bytes_not_empty;
use crate::text::lemma_str_valid;
use crate::text::slice_str;
use crate::text::starts_with_at;

verus! {

/// The first index at or after `from` at which `pattern` stands in `text`,
/// or an index behind the length of `text` where it stands nowhere.
pub open spec fn next_match(text: Seq<u8>, pattern: Seq<u8>, from: int) -> int
    decreases text.len() - from,
{
    if from < 0 || from > text.len() {
        text.len() as int + 1
    } else if pattern.is_prefix_of(text.subrange(from, text.len() as int)) {
        from
    } else if from == text.len() {
        text.len() as int + 1
    } else {
        next_match(text, pattern, from + 1)
    }
}

/// Where the next match stands: not before `from`, and where it lies
/// within the text, `pattern` stands there in full.
pub proof fn lemma_next_match(text: Seq<u8>, pattern: Seq<u8>, from: int)
    requires
        0 <= from <= text.len(),
    ensures
        from <= next_match(text, pattern, from) <= text.len() + 1,
        next_match(text, pattern, from) <= text.len() ==> {
            &&& pattern.is_prefix_of(
                text.subrange(next_match(text, pattern, from), text.len() as int),
            )
            &&& next_match(text, pattern, from) + pattern.len() <= text.len()
        },
    decreases text.len() - from,
{
    if !pattern.is_prefix_of(text.subrange(from, text.len() as int)) && from < text.len() {
        lemma_next_match(text, pattern, from + 1);
    }
}

/// The first index at or after `from` at which `pattern` stands in `text`.
pub fn find_text(text: &[u8], pattern: &[u8], from: usize) -> (at: Option<usize>)
    requires
        from <= text@.len(),
    ensures
        match at {
            Some(i) => i == next_match(text@, pattern@, from as int) && i <= text@.len(),
            None => next_match(text@, pattern@, from as int) > text@.len(),
        },
{
    let len = text.len();
    let mut i: usize = from;
    while i < len
        invariant
            from <= i <= len,
            len == text@.len(),
            next_match(text@, pattern@, from as int) == next_match(text@, pattern@, i as int),
        decreases len - i,
    {
        if starts_with_at(text, i, len, pattern) {
            return Some(i);
        }
        i += 1;
    }
    if starts_with_at(text, len, len, pattern) {
        Some(len)
    } else {
        None
    }
}

/// A template with `tex` in the place between its first two `$$`. A
/// template with one `$$` gets `tex` behind it, a template without any
/// stays as it is, and a template with more than two has no place that
/// could be meant.
pub open spec fn filled_fragment(template: Seq<u8>, tex: Seq<u8>) -> Option<Seq<u8>> {
    let mark = block_delimiter();
    let len = template.len() as int;
    let first = next_match(template, mark, 0);
    if first > len {
        Some(template)
    } else {
        let second = next_match(template, mark, first + 2);
        if second > len {
            Some(template.subrange(0, first) + mark + tex)
        } else if next_match(template, mark, second + 2) > len {
            Some(template.subrange(0, first) + mark + tex + mark + template.subrange(second + 2, len))
        } else {
            None
        }
    }
}

/// Puts `tex` into the place of `template` between its two `$$`.
pub fn fill_fragment(template: &str, tex: &str) -> (filled: Option<String>)
    ensures
        match filled {
            Some(text) => filled_fragment(template.spec_bytes(), tex.spec_bytes()) == Some(
                encode_utf8(text@),
            ),
            None => filled_fragment(template.spec_bytes(), tex.spec_bytes()) is None,
        },
{
    let text = template.as_bytes();
    let len = text.len();
    let mark = block_text();
    proof {
        lemma_str_valid(template);
        lemma_str_valid(mark);
        lemma_boundary(text@, 0);
        lemma_next_match(text@, block_delimiter(), 0);
    }
    let first = match find_text(text, mark.as_bytes(), 0) {
        Some(first) => first,
        None => {
            return Some(String::from_str(template));
        },
    };
    proof {
        lemma_match_on_boundary(text@, first as int, block_delimiter());
        lemma_boundary_after_match(text@, first as int, block_delimiter());
        lemma_next_match(text@, block_delimiter(), first + 2);
    }
    let head = slice_str(template, 0, first);
    let start = String::from_str(head).concat(mark).concat(tex);
    proof {
        lemma_encode_concat(head@, mark@);
        lemma_encode_concat(head@ + mark@, tex@);
    }
    let second = match find_text(text, mark.as_bytes(), first + 2) {
        Some(second) => second,
        None => {
            return Some(start);
        },
    };
    proof {
        lemma_match_on_boundary(text@, second as int, block_delimiter());
        lemma_boundary_after_match(text@, second as int, block_delimiter());
        lemma_next_match(text@, block_delimiter(), second + 2);
    }
    match find_text(text, mark.as_bytes(), second + 2) {
        Some(_) => None,
        None => {
            let tail = slice_str(template, second + 2, len);
            let ghost before = start@;
            let filled = start.concat(mark).concat(tail);
            proof {
                lemma_encode_concat(before, mark@);
                lemma_encode_concat(before + mark@, tail@);
            }
            Some(filled)
        },
    }
}

/// A document with the title, the authors and the date of a book in the
/// places that it keeps for them: `\title{}`, `\author{}` and `\date{}`.
pub open spec fn filled_template(
    template: Seq<u8>,
    title: Seq<char>,
    authors: Seq<char>,
    date: Seq<char>,
) -> Seq<u8> {
    let titled = replaced_text(
        template,
        0,
        "\\title{}".spec_bytes(),
        encode_utf8("\\title{"@ + title + "}"@),
    );
    let signed = replaced_text(
        titled,
        0,
        "\\author{}".spec_bytes(),
        encode_utf8("\\author{"@ + authors + "}"@),
    );
    replaced_text(signed, 0, "\\date{}".spec_bytes(), encode_utf8("\\date{"@ + date + "}"@))
}

/// Puts the title, the authors and the date of a book into `template`.
pub fn fill_template(template: &str, title: &str, authors: &str, date: &str) -> (filled: String)
    ensures
        encode_utf8(filled@) == filled_template(
            template.spec_bytes(),
            title@,
            authors@,
            date@,
        ),
{
    proof {
        reveal_strlit("\\title{}");
        reveal_strlit("\\author{}");
        reveal_strlit("\\date{}");
        lemma_bytes_not_empty("\\title{}"@);
        lemma_bytes_not_empty("\\author{}"@);
        lemma_bytes_not_empty("\\date{}"@);
    }
    let with_title = String::from_str("\\title{").concat(title).concat("}");
    let with_authors = String::from_str("\\author{").concat(authors).concat("}");
    let with_date = String::from_str("\\date{").concat(date).concat("}");
    let titled = replace_text(template, "\\title{}", with_title.as_str());
    let signed = replace_text(titled.as_str(), "\\author{}", with_authors.as_str());
    replace_text(signed.as_str(), "\\date{}", with_date.as_str())
}

/// A document with `latex` behind the first `mdbook-tectonic begin` in
/// it, or nothing where the document holds no such place.
pub open spec fn injected(template: Seq<u8>, latex: Seq<u8>) -> Option<Seq<u8>> {
    let mark = "mdbook-tectonic begin".spec_bytes();
    let at = next_match(template, mark, 0);
    if at > template.len() {
        None
    } else {
        Some(
            template.subrange(0, at + mark.len()) + latex + template.subrange(
                at + mark.len(),
                template.len() as int,
            ),
        )
    }
}

/// Puts `latex` into `template`, behind the place that is marked for it.
pub fn inject_latex(template: &str, latex: &str) -> (filled: Option<String>)
    ensures
        match filled {
            Some(text) => injected(template.spec_bytes(), latex.spec_bytes()) == Some(
                encode_utf8(text@),
            ),
            None => injected(template.spec_bytes(), latex.spec_bytes()) is None,
        },
{
    let text = template.as_bytes();
    let len = text.len();
    let mark = "mdbook-tectonic begin";
    let width = mark.as_bytes().len();
    proof {
        lemma_str_valid(template);
        lemma_str_valid(mark);
        lemma_boundary(text@, 0);
        lemma_next_match(text@, mark.spec_bytes(), 0);
        reveal_strlit("mdbook-tectonic begin");
        lemma_bytes_not_empty(mark@);
    }
    let at = match find_text(text, mark.as_bytes(), 0) {
        Some(at) => at,
        None => {
            return None;
        },
    };
    proof {
        lemma_match_on_boundary(text@, at as int, mark.spec_bytes());
        lemma_boundary_after_match(text@, at as int, mark.spec_bytes());
    }
    let head = slice_str(template, 0, at + width);
    let tail = slice_str(template, at + width, len);
    let filled = String::from_str(head).concat(latex).concat(tail);
    proof {
        lemma_encode_concat(head@, latex@);
        lemma_encode_concat(head@ + latex@, tail@);
    }
    Some(filled)
}

} // verus!
