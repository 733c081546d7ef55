//! A document as a whole: scanned, then cut into its spans.
//!
//! The scanner counts byte offsets line by line and closes an open inline
//! span with an offset of its own, so its positions need not fit the text
//! they were found in. They do fit a balanced document: one whose lines
//! end in a bare line feed, where no line leaves an inline span open and
//! no block stays open at the end.

use vstd::prelude::*;
use vstd::string::StringSliceAdditionalSpecFns;
use vstd::utf8::valid_utf8;
use crate::content::Tagged;
use crate::content::tagged_models;
use crate::pair::delimiter_len;
use crate::pair::iter_over_dollar_encompassed_blocks;
use crate::pair::joined;
use crate::pair::lemma_spans_rebuild_source;
use crate::pair::pair_spec;
use crate::pair::positions_fit;
use crate::pair::spans_fit;
use crate::pair::spans_tile;
use crate::pair::window;
use crate::pair::window_count;
use crate::pair::window_fits;
use crate::pair::window_from;
use crate::pair::window_replaces;
use crate::pair::window_to;
use crate::position::block_delimiter;
use crate::position::inline_delimiter;
use crate::position::PositionModel;
use crate::scan::dollar_split_tags_iter;
use crate::scan::dollars_before;
use crate::scan::in_turn;
use crate::scan::inline_line_marks;
use crate::scan::inline_marks;
use crate::scan::lemma_inline_marks_shape;
use crate::scan::lemma_scan_alternates;
use crate::scan::line_end;
use crate::scan::quiet_blocks;
use crate::scan::scan_from;
use crate::scan::scan_line;
use crate::scan::scan_spec;
use crate::scan::ScanState;
use crate::scan::state_after;
use crate::scan::suppressed;
use crate::text::chars_before;
use crate::text::lemma_boundary_after_ascii;
use crate::text::lemma_chars_before_monotonic;
use crate::text::lemma_line_break_bounds;
use crate::text::lemma_slice_valid;
use crate::text::LF;
use crate::text::line_break;
use crate::text::on_boundary;
use crate::trim::lemma_delimited_trimmable;

verus! {

/// Whether the document is balanced from the line that starts at `cursor`
/// on: no line ends in a carriage return before its line feed, no line
/// that is scanned for inline delimiters holds an odd number of live `$`,
/// and the document ends outside of a block.
pub open spec fn balanced_from(text: Seq<u8>, cursor: int, state: ScanState) -> bool
    decreases text.len() - cursor,
    via balanced_from_decreases
{
    if cursor < 0 || cursor >= text.len() {
        !state.in_block
    } else {
        let end = line_break(text, cursor);
        let line = text.subrange(cursor, end);
        &&& line_end(text, cursor, end) == end
        &&& !suppressed(line, state) && !block_delimiter().is_prefix_of(line) ==> dollars_before(
            line,
            line.len() as int,
        ) % 2 == 0
        &&& if end < text.len() {
            balanced_from(text, end + 1, state_after(line, state))
        } else {
            !state_after(line, state).in_block
        }
    }
}

#[via_fn]
proof fn balanced_from_decreases(text: Seq<u8>, cursor: int, state: ScanState) {
    if 0 <= cursor < text.len() {
        lemma_line_break_bounds(text, cursor);
    }
}

/// Whether the document is balanced: its lines end in a bare line feed,
/// no line leaves an inline span open and no block stays open at the end.
pub open spec fn balanced(text: Seq<u8>) -> bool {
    balanced_from(text, 0, ScanState::fresh())
}

/// Whether position `i` stands where its delimiter stands in the text,
/// behind the position before it and not before `floor`, a block delimiter
/// at the start of a line.
pub open spec fn in_place(text: Seq<u8>, marks: Seq<PositionModel>, i: int, floor: int) -> bool {
    let mark = marks[i];
    &&& mark.delimiter.text() == inline_delimiter() || mark.delimiter.text() == block_delimiter()
    &&& floor <= mark.byte_offset
    &&& i > 0 ==> marks[i - 1].byte_offset + delimiter_len(marks[i - 1]) <= mark.byte_offset
    &&& mark.byte_offset + delimiter_len(mark) <= text.len()
    &&& text.subrange(mark.byte_offset, mark.byte_offset + delimiter_len(mark))
        == mark.delimiter.text()
    &&& mark.delimiter.text() == block_delimiter() ==> mark.byte_offset == 0 || text[mark.byte_offset
        - 1] == LF
}

/// Whether every position stands where its delimiter stands in the text,
/// in the order of the text and without overlap.
pub open spec fn all_in_place(text: Seq<u8>, marks: Seq<PositionModel>, floor: int) -> bool {
    forall|i: int| 0 <= i < marks.len() ==> #[trigger] in_place(text, marks, i, floor)
}

/// The positions of a balanced line stand where their delimiters stand.
proof fn lemma_line_in_place(text: Seq<u8>, cursor: int, lineno: int, state: ScanState)
    requires
        0 <= cursor < text.len(),
        cursor == 0 || text[cursor - 1] == LF,
        balanced_from(text, cursor, state),
    ensures
        ({
            let end = line_break(text, cursor);
            let line = text.subrange(cursor, end);
            let scan = scan_line(line, lineno, cursor, state);
            &&& all_in_place(text, scan.marks, cursor)
            &&& scan.state == state_after(line, state)
            &&& scan.marks.len() % 2 == if scan.state.in_block != state.in_block {
                1int
            } else {
                0int
            }
            &&& forall|i: int|
                0 <= i < scan.marks.len() ==> (#[trigger] scan.marks[i]).byte_offset
                    + delimiter_len(scan.marks[i]) <= end
        }),
{
    lemma_line_break_bounds(text, cursor);
    let end = line_break(text, cursor);
    let line = text.subrange(cursor, end);
    let scan = scan_line(line, lineno, cursor, state);
    lemma_inline_marks_shape(line, line.len() as int, lineno, cursor);
    if suppressed(line, state) {
        assert(scan.marks.len() == 0);
    } else if block_delimiter().is_prefix_of(line) {
        assert(scan.marks.len() == 1);
        assert(line.subrange(0, 2) =~= text.subrange(cursor, cursor + 2));
        assert(in_place(text, scan.marks, 0, cursor));
    } else {
        let marks = inline_marks(line, line.len() as int, lineno, cursor);
        assert(inline_line_marks(line, lineno, cursor) == marks);
        assert(scan.marks == marks);
        assert forall|i: int| 0 <= i < marks.len() implies #[trigger] in_place(
            text,
            marks,
            i,
            cursor,
        ) && marks[i].byte_offset + delimiter_len(marks[i]) <= end by {
            let mark = marks[i];
            assert(line[mark.byte_offset - cursor] == text[mark.byte_offset]);
            assert(text.subrange(mark.byte_offset, mark.byte_offset + 1) =~= inline_delimiter());
            if i > 0 {
                assert(marks[i - 1].byte_offset < mark.byte_offset);
            }
        }
    }
}

/// The positions of a balanced document, from a line on, stand where
/// their delimiters stand.
proof fn lemma_scan_in_place(text: Seq<u8>, cursor: int, lineno: int, state: ScanState)
    requires
        0 <= cursor,
        cursor == 0 || (cursor <= text.len() && text[cursor - 1] == LF),
        balanced_from(text, cursor, state),
    ensures
        all_in_place(text, scan_from(text, cursor, lineno, cursor, state), cursor),
        scan_from(text, cursor, lineno, cursor, state).len() % 2 == if state.in_block {
            1int
        } else {
            0int
        },
    decreases text.len() - cursor,
{
    if cursor < text.len() {
        lemma_line_break_bounds(text, cursor);
        lemma_line_in_place(text, cursor, lineno, state);
        let end = line_break(text, cursor);
        let line = text.subrange(cursor, end);
        let scan = scan_line(line, lineno, cursor, state);
        let rest = if end < text.len() {
            scan_from(text, end + 1, lineno + 1, cursor + line.len() + 1, scan.state)
        } else {
            Seq::empty()
        };
        if end < text.len() {
            lemma_scan_in_place(text, end + 1, lineno + 1, scan.state);
        }
        let all = scan.marks + rest;
        assert(scan.marks + Seq::<PositionModel>::empty() =~= scan.marks);
        assert(all == scan_from(text, cursor, lineno, cursor, state));
        assert forall|i: int| 0 <= i < all.len() implies #[trigger] in_place(
            text,
            all,
            i,
            cursor,
        ) by {
            if i < scan.marks.len() {
                assert(in_place(text, scan.marks, i, cursor));
                assert(all[i] == scan.marks[i]);
                if i > 0 {
                    assert(all[i - 1] == scan.marks[i - 1]);
                }
            } else {
                let j = i - scan.marks.len();
                assert(in_place(text, rest, j, end + 1));
                assert(all[i] == rest[j]);
                if j > 0 {
                    assert(all[i - 1] == rest[j - 1]);
                } else if scan.marks.len() > 0 {
                    assert(all[i - 1] == scan.marks[scan.marks.len() - 1]);
                }
            }
        }
    }
}

/// Positions that stand where their delimiters stand, an even number of
/// them, fit the text and bound spans that tile it.
proof fn lemma_in_place_fits(text: Seq<u8>, marks: Seq<PositionModel>)
    requires
        valid_utf8(text),
        all_in_place(text, marks, 0),
        marks.len() % 2 == 0,
    ensures
        spans_fit(text, marks),
        spans_tile(text, marks),
{
    assert forall|i: int| 0 <= i < marks.len() implies {
        &&& on_boundary(text, (#[trigger] marks[i]).byte_offset)
        &&& on_boundary(text, marks[i].byte_offset + delimiter_len(marks[i]))
        &&& delimiter_len(marks[i]) > 0
    } by {
        assert(in_place(text, marks, i, 0));
        let at = marks[i].byte_offset;
        let part = text.subrange(at, at + delimiter_len(marks[i]));
        assert(part[0] == text[at]);
        lemma_boundary_after_ascii(text, at);
        if delimiter_len(marks[i]) == 2 {
            assert(part[1] == text[at + 1]);
            lemma_boundary_after_ascii(text, at + 1);
        }
    }
    assert forall|k: int| 0 <= k < window_count(marks) implies #[trigger] window_fits(
        text,
        marks,
        k,
    ) by {
        assert(in_place(text, marks, k, 0));
        assert(in_place(text, marks, k + 1, 0));
        let open = marks[k];
        let close = marks[k + 1];
        let from = window_from(marks, k);
        let to = window_to(marks, k);
        if window_replaces(k) {
            let part = text.subrange(from, to);
            assert(part.subrange(0, delimiter_len(open)) =~= text.subrange(
                open.byte_offset,
                open.byte_offset + delimiter_len(open),
            ));
            assert(part.subrange(part.len() - delimiter_len(close), part.len() as int)
                =~= text.subrange(close.byte_offset, close.byte_offset + delimiter_len(close)));
        }
    }
    if marks.len() > 0 {
        assert(in_place(text, marks, 0, 0));
        assert(in_place(text, marks, marks.len() - 1, 0));
        lemma_boundary_at_start(text);
        assert(on_boundary(text, text.len() as int));
    }
    assert forall|k: int| 0 <= k < window_count(marks) && !window_replaces(k) implies marks[k].byte_offset
        > 0 || delimiter_len(#[trigger] marks[k]) == 0 by {
        assert(in_place(text, marks, k, 0));
        assert(in_place(text, marks, k - 1, 0));
    }
}

/// The start of a text is a boundary.
proof fn lemma_boundary_at_start(text: Seq<u8>)
    requires
        valid_utf8(text),
    ensures
        on_boundary(text, 0),
{
    crate::text::lemma_boundary(text, 0);
}

/// The positions that the scanner finds in a balanced document stand where
/// their delimiters stand, and their byte offsets grow from each to the
/// next.
pub proof fn lemma_balanced_positions_in_place(text: Seq<u8>)
    requires
        balanced(text),
    ensures
        all_in_place(text, scan_spec(text), 0),
        scan_spec(text).len() % 2 == 0,
        forall|i: int, j: int|
            0 <= i < j < scan_spec(text).len() ==> (#[trigger] scan_spec(text)[i]).byte_offset < (
            #[trigger] scan_spec(text)[j]).byte_offset,
{
    lemma_scan_in_place(text, 0, 1, ScanState::fresh());
    let marks = scan_spec(text);
    assert forall|i: int, j: int| 0 <= i < j < marks.len() implies (#[trigger] marks[i]).byte_offset
        < (#[trigger] marks[j]).byte_offset by {
        lemma_in_place_ordered(text, marks, i, j);
    }
}

/// Positions that are in place stand in the order of the text.
proof fn lemma_in_place_ordered(text: Seq<u8>, marks: Seq<PositionModel>, i: int, j: int)
    requires
        all_in_place(text, marks, 0),
        0 <= i < j < marks.len(),
    ensures
        marks[i].byte_offset < marks[j].byte_offset,
    decreases j - i,
{
    assert(in_place(text, marks, j, 0));
    assert(in_place(text, marks, j - 1, 0));
    if i < j - 1 {
        lemma_in_place_ordered(text, marks, i, j - 1);
    }
}

/// The positions that the scanner finds in a balanced document fit it, and
/// the spans that they bound, joined in order, are the document.
pub proof fn lemma_balanced_document_rebuilds(text: Seq<u8>)
    requires
        valid_utf8(text),
        balanced(text),
    ensures
        spans_fit(text, scan_spec(text)),
        spans_tile(text, scan_spec(text)),
        joined(pair_spec(text, scan_spec(text))) == text,
{
    lemma_scan_in_place(text, 0, 1, ScanState::fresh());
    lemma_in_place_fits(text, scan_spec(text));
    lemma_spans_rebuild_source(text, scan_spec(text));
}

/// In a balanced document in which no line inside an open `$$` block
/// holds a live `$`, every span to replace can be trimmed: it lies between
/// an opening and a closing delimiter of one kind, starts and ends with
/// them, and has the shape that their kind asks for.
pub proof fn lemma_replaced_spans_trimmable(text: Seq<u8>, k: int)
    requires
        valid_utf8(text),
        balanced(text),
        quiet_blocks(text),
        0 <= k < window_count(scan_spec(text)),
        window_replaces(k),
    ensures
        window(text, scan_spec(text), k).replace,
        window(text, scan_spec(text), k).content.trimmable(),
        window(text, scan_spec(text), k).content.delimited(),
        window(text, scan_spec(text), k).content.bounded_by_delimiters(),
        window(text, scan_spec(text), k).content.start_del.text() == window(
            text,
            scan_spec(text),
            k,
        ).content.end_del.text(),
{
    let marks = scan_spec(text);
    lemma_balanced_positions_in_place(text);
    lemma_in_place_fits(text, marks);
    lemma_scan_alternates(text);
    assert(in_turn(marks, k, false));
    assert(in_turn(marks, k + 1, false));
    assert(in_place(text, marks, k, 0));
    assert(in_place(text, marks, k + 1, 0));
    assert(window_fits(text, marks, k));
    let open = marks[k];
    let close = marks[k + 1];
    let content = window(text, marks, k).content;
    let part = content.text;
    let len = part.len() as int;
    assert(inline_delimiter() != block_delimiter()) by {
        assert(inline_delimiter().len() != block_delimiter().len());
    }
    assert(close.delimiter.text() == open.delimiter.text());
    lemma_slice_valid(text, content.from, content.to);
    if open.delimiter.text() == inline_delimiter() {
        assert(part.subrange(0, 1)[0] == part[0]);
        assert(part.subrange(len - 1, len)[0] == part[len - 1]);
        assert(chars_before(part, 1) == 1) by {
            assert(chars_before(part, 0) == 0);
        }
        lemma_chars_before_monotonic(part, 1, len - 1);
    } else {
        let at = close.byte_offset - 1 - open.byte_offset;
        assert(part[at] == text[close.byte_offset - 1]);
        lemma_line_break_bounds(part, 0);
    }
    lemma_delimited_trimmable(content);
}

/// Scans `source` and cuts it into its spans, where the positions that the
/// scanner finds fit the text.
pub fn dollar_spans<'a>(source: &'a str) -> (spans: Option<Vec<Tagged<'a>>>)
    ensures
        spans is Some <==> source.spec_bytes().len() < usize::MAX && spans_fit(
            source.spec_bytes(),
            scan_spec(source.spec_bytes()),
        ),
        spans is Some ==> tagged_models(spans->0@) == pair_spec(
            source.spec_bytes(),
            scan_spec(source.spec_bytes()),
        ),
{
    if source.as_bytes().len() == usize::MAX {
        return None;
    }
    let positions = dollar_split_tags_iter(source);
    if positions_fit(source, &positions) {
        Some(iter_over_dollar_encompassed_blocks(source, positions))
    } else {
        None
    }
}

} // verus!
