//! The bibliography: what is taken from the program that converts it.
//!
//! The program prints a web page. Of that page the list of entries is
//! kept: the lines from the one that opens the list to the one before the
//! line that closes it. In each of them the anchors get an `id` in place of
//! a `name`. The lines are joined without anything between them.

use vstd::prelude::*;
use vstd::string::StringSliceAdditionalSpecFns;
use vstd::utf8::encode_utf8;
use crate::format::decimal;
use crate::format::decimal_string;
use crate::latex::contains;
use crate::latex::holds;
use crate::replace::lemma_encode_concat;
use crate::replace::replace_text;
use crate::replace::replaced_text;
use crate::text::find_byte;
use crate::text::lemma_boundary;
use crate::text::lemma_boundary_after_ascii;
use crate::text::lemma_bytes_not_empty;
use crate::text::lemma_find_first_bounds;
use crate::text::lemma_line_break_bounds;
use crate::text::lemma_line_break_is_find_first;
use crate::text::lemma_str_valid;
use crate::text::LF;
use crate::text::line_break;
use crate::text::on_boundary;
use crate::text::same_bytes;
use crate::text::slice_str;
use crate::tracker::ReferenceTracker;

verus! {

/// How far the list of entries has been read.
#[derive(Debug, Clone, Copy, PartialEq, Eq)]
pub enum ListPhase {
    /// The list has not been opened yet.
    Before,
    /// The list is open.
    Inside,
    /// The list has been closed.
    Behind,
}

/// A line of the list with `<a id="` in place of every `<a name="`.
pub open spec fn renamed(line: Seq<u8>) -> Seq<u8> {
    replaced_text(line, 0, "<a name=\"".spec_bytes(), "<a id=\"".spec_bytes())
}

/// The phase behind a line: the line `<dl class="bib2xhtml">` opens the
/// list, the line `</dl>` closes an open list.
pub open spec fn phase_behind(line: Seq<u8>, phase: ListPhase) -> ListPhase {
    match phase {
        ListPhase::Before => if line == "<dl class=\"bib2xhtml\">".spec_bytes() {
            ListPhase::Inside
        } else {
            ListPhase::Before
        },
        ListPhase::Inside => if line == "</dl>".spec_bytes() {
            ListPhase::Behind
        } else {
            ListPhase::Inside
        },
        ListPhase::Behind => ListPhase::Behind,
    }
}

/// What is kept of the lines from the one that starts at `cursor` on.
/// Lines end at a line feed.
pub open spec fn kept_lines(page: Seq<u8>, cursor: int, phase: ListPhase) -> Seq<u8>
    decreases page.len() - cursor,
    via kept_lines_decreases
{
    if cursor < 0 || cursor > page.len() {
        Seq::empty()
    } else {
        let end = line_break(page, cursor);
        let line = page.subrange(cursor, end);
        let behind = phase_behind(line, phase);
        let kept = if behind == ListPhase::Inside {
            renamed(line)
        } else {
            Seq::empty()
        };
        if end < page.len() {
            kept + kept_lines(page, end + 1, behind)
        } else {
            kept
        }
    }
}

#[via_fn]
proof fn kept_lines_decreases(page: Seq<u8>, cursor: int, phase: ListPhase) {
    if 0 <= cursor <= page.len() {
        lemma_line_break_bounds(page, cursor);
    }
}

/// The list of entries in the page that the program has printed.
pub fn bibliography_html(page: &str) -> (list: String)
    ensures
        encode_utf8(list@) == kept_lines(page.spec_bytes(), 0, ListPhase::Before),
{
    let text = page.as_bytes();
    let len = text.len();
    let mut list = String::new();
    let mut phase = ListPhase::Before;
    let mut cursor: usize = 0;
    let mut done = false;
    proof {
        lemma_str_valid(page);
        lemma_boundary(text@, 0);
        reveal_strlit("<a name=\"");
        lemma_bytes_not_empty("<a name=\""@);
        assert(encode_utf8(list@) =~= Seq::<u8>::empty());
        assert(Seq::<u8>::empty() + kept_lines(text@, 0, ListPhase::Before) =~= kept_lines(
            text@,
            0,
            ListPhase::Before,
        ));
    }
    while !done
        invariant
            cursor <= len,
            len == text@.len(),
            text@ == page.spec_bytes(),
            vstd::utf8::valid_utf8(text@),
            on_boundary(text@, cursor as int),
            "<a name=\"".spec_bytes().len() > 0,
            !done ==> kept_lines(text@, 0, ListPhase::Before) == encode_utf8(list@) + kept_lines(
                text@,
                cursor as int,
                phase,
            ),
            done ==> kept_lines(text@, 0, ListPhase::Before) == encode_utf8(list@),
        decreases len - cursor + if done {
            0int
        } else {
            1int
        },
    {
        let end = find_byte(text, LF, cursor);
        proof {
            lemma_find_first_bounds(text@, LF, cursor as int);
            lemma_line_break_is_find_first(text@, cursor as int);
            if end < len {
                lemma_boundary_after_ascii(text@, end as int);
            }
        }
        let line = slice_str(page, cursor, end);
        let ghost before = list@;
        let ghost rest = if end < len {
            kept_lines(text@, end + 1, phase_behind(line.spec_bytes(), phase))
        } else {
            Seq::<u8>::empty()
        };
        phase = match phase {
            ListPhase::Before => if same_bytes(
                line.as_bytes(),
                "<dl class=\"bib2xhtml\">".as_bytes(),
            ) {
                ListPhase::Inside
            } else {
                ListPhase::Before
            },
            ListPhase::Inside => if same_bytes(line.as_bytes(), "</dl>".as_bytes()) {
                ListPhase::Behind
            } else {
                ListPhase::Inside
            },
            ListPhase::Behind => ListPhase::Behind,
        };
        let inside = match phase {
            ListPhase::Inside => true,
            _ => false,
        };
        if inside {
            let entry = replace_text(line, "<a name=\"", "<a id=\"");
            list.append(entry.as_str());
            proof {
                lemma_encode_concat(before, entry@);
                assert(encode_utf8(before) + (renamed(line.spec_bytes()) + rest) =~= encode_utf8(
                    before,
                ) + renamed(line.spec_bytes()) + rest);
            }
        } else {
            proof {
                assert(encode_utf8(before) + (Seq::<u8>::empty() + rest) =~= encode_utf8(before)
                    + rest);
            }
        }
        proof {
            assert(encode_utf8(list@) + Seq::<u8>::empty() =~= encode_utf8(list@));
        }
        if end < len {
            cursor = end + 1;
        } else {
            done = true;
        }
    }
    list
}

/// Whether the program has reported errors: what it has printed as its
/// complaints holds `error messages)`.
pub fn bibliography_failed(complaints: &str) -> (failed: bool)
    ensures
        failed == holds(complaints.spec_bytes(), "error messages)".spec_bytes()),
{
    contains(complaints.as_bytes(), "error messages)".as_bytes())
}

/// The label of the entry at `index` of the bibliography: its number in
/// the order of the file, counted from one, between square brackets.
pub open spec fn label_of(index: nat) -> Seq<char> {
    "["@ + decimal(index + 1) + "]"@
}

/// The label of an entry of the bibliography.
pub fn bibliography_label(index: usize) -> (label: String)
    requires
        index < usize::MAX,
    ensures
        label@ == label_of(index as nat),
{
    let number = decimal_string(index + 1);
    String::from_str("[").concat(number.as_str()).concat("]")
}

/// The references with the first `n` of the entries of a bibliography:
/// each key gets the label of its entry, and of two entries with one key
/// the later one counts.
pub open spec fn with_entries(
    references: Map<Seq<char>, Seq<char>>,
    keys: Seq<String>,
    n: nat,
) -> Map<Seq<char>, Seq<char>>
    decreases n,
{
    if n == 0 {
        references
    } else {
        with_entries(references, keys, (n - 1) as nat).insert(
            keys[n - 1]@,
            label_of((n - 1) as nat),
        )
    }
}

/// Registers the entries of a bibliography, given by their keys in the
/// order of the file.
pub fn register_bibliography(references: &mut ReferenceTracker, keys: &Vec<String>)
    ensures
        final(references)@ == with_entries(old(references)@, keys@, keys@.len()),
{
    let n = keys.len();
    let mut i: usize = 0;
    while i < n
        invariant
            i <= n,
            n == keys@.len(),
            references@ == with_entries(old(references)@, keys@, i as nat),
        decreases n - i,
    {
        let label = bibliography_label(i);
        references.add(keys[i].as_str(), label.as_str());
        i += 1;
    }
}

} // verus!
