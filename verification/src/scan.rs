//! The scanner: where the delimiters of a document stand.
//!
//! The text is read line by line. Lines inside a `<pre>` block or a code
//! fence are passed over. A line that starts with `$$` opens or closes a
//! block. On every other line each `$` outside of backticks opens or closes
//! an inline span, and a line that leaves a span open is closed at its end
//! by a delimiter without text.
//!
//! Lines end at a line feed; a carriage return directly before it is not
//! part of the line. Byte offsets are counted as if every line ended in a
//! single byte, so behind a carriage return and line feed pair they fall
//! short of the true offset by one for each such pair.

use vstd::prelude::*;
use vstd::string::is_ascii_spec_bytes;
use vstd::string::StringSliceAdditionalSpecFns;
use vstd::utf8::is_ascii_chars;
use crate::position::block_delimiter;
use crate::position::block_text;
use crate::position::empty_text;
use crate::position::inline_delimiter;
use crate::position::inline_text;
use crate::position::LiCo;
use crate::position::Marker;
use crate::position::MarkerModel;
use crate::position::Place;
use crate::position::position_models;
use crate::position::PositionModel;
use crate::position::SplitTagPosition;
use crate::text::BACKTICK;
use crate::text::chars_before;
use crate::text::CR;
use crate::text::DOLLAR;
use crate::text::find_line_break;
use crate::text::lemma_line_break_bounds;
use crate::text::LF;
use crate::text::line_break;
use crate::text::starts_with_at;

verus! {

/// What the scanner remembers from one line to the next.
#[derive(Debug, Clone, Copy, PartialEq, Eq)]
pub struct ScanState {
    /// Inside a `<pre>` block.
    pub in_pre: bool,
    /// Inside a code fence.
    pub in_code: bool,
    /// Inside a `$$` block.
    pub in_block: bool,
}

impl ScanState {
    /// The state at the start of a document: outside of everything.
    pub open spec fn fresh() -> ScanState {
        ScanState { in_pre: false, in_code: false, in_block: false }
    }

    /// The state at the start of a document.
    pub fn new() -> (state: ScanState)
        ensures
            state == ScanState::fresh(),
    {
        ScanState { in_pre: false, in_code: false, in_block: false }
    }
}

/// The bytes of `<pre`, which opens a preformatted block.
pub open spec fn pre_open() -> Seq<u8> {
    seq![0x3Cu8, 0x70u8, 0x72u8, 0x65u8]
}

/// The bytes of `</pre>`, which closes a preformatted block.
pub open spec fn pre_close() -> Seq<u8> {
    seq![0x3Cu8, 0x2Fu8, 0x70u8, 0x72u8, 0x65u8, 0x3Eu8]
}

/// The bytes of three backticks, which open or close a code fence.
pub open spec fn fence() -> Seq<u8> {
    seq![BACKTICK, BACKTICK, BACKTICK]
}

/// The number of backticks among the first `n` bytes of `line`.
pub open spec fn backticks_before(line: Seq<u8>, n: int) -> nat
    decreases n,
{
    if n <= 0 {
        0
    } else {
        backticks_before(line, n - 1) + if line[n - 1] == BACKTICK {
            1nat
        } else {
            0nat
        }
    }
}

/// Whether byte `i` of `line` is a `$` outside of inline code: one with an
/// even number of backticks before it.
pub open spec fn live_dollar(line: Seq<u8>, i: int) -> bool {
    0 <= i < line.len() && line[i] == DOLLAR && backticks_before(line, i) % 2 == 0
}

/// The number of live `$` among the first `n` bytes of `line`.
pub open spec fn dollars_before(line: Seq<u8>, n: int) -> nat
    decreases n,
{
    if n <= 0 {
        0
    } else {
        dollars_before(line, n - 1) + if live_dollar(line, n - 1) {
            1nat
        } else {
            0nat
        }
    }
}

/// The position reported for the live `$` at byte `i` of a line, which is
/// the `rank`-th on that line, counted from zero: it opens a span where
/// `rank` is even and closes one where it is odd.
pub open spec fn inline_mark(line: Seq<u8>, i: int, rank: nat, lineno: int, offset: int)
    -> PositionModel {
    PositionModel {
        lico: Place { line: lineno, column: chars_before(line, i) as int + 1 },
        byte_offset: offset + i,
        delimiter: if rank % 2 == 0 {
            MarkerModel::Start(inline_delimiter())
        } else {
            MarkerModel::End(inline_delimiter())
        },
    }
}

/// The positions of the live `$` among the first `n` bytes of `line`, in
/// order.
pub open spec fn inline_marks(line: Seq<u8>, n: int, lineno: int, offset: int) -> Seq<
    PositionModel,
>
    decreases n,
{
    if n <= 0 {
        Seq::empty()
    } else {
        let before = inline_marks(line, n - 1, lineno, offset);
        if live_dollar(line, n - 1) {
            before.push(inline_mark(line, n - 1, before.len(), lineno, offset))
        } else {
            before
        }
    }
}

/// The closing delimiter without text that is put behind a line which a
/// lone `$` has left open. Its byte offset is the length of the line.
pub open spec fn repair_mark(line: Seq<u8>, lineno: int) -> PositionModel {
    PositionModel {
        lico: Place { line: lineno, column: chars_before(line, line.len() as int) as int + 1 },
        byte_offset: line.len() as int,
        delimiter: MarkerModel::End(Seq::empty()),
    }
}

/// The positions on a line that is scanned for inline delimiters: its live
/// `$`, and the repair where their number is odd.
pub open spec fn inline_line_marks(line: Seq<u8>, lineno: int, offset: int) -> Seq<
    PositionModel,
> {
    let marks = inline_marks(line, line.len() as int, lineno, offset);
    if marks.len() % 2 == 1 {
        marks.push(repair_mark(line, lineno))
    } else {
        marks
    }
}

/// The position of a `$$` line: column one of the line, opening where it
/// puts the scanner inside a block.
pub open spec fn block_mark(lineno: int, offset: int, opens: bool) -> PositionModel {
    PositionModel {
        lico: Place { line: lineno, column: 1 },
        byte_offset: offset,
        delimiter: if opens {
            MarkerModel::Start(block_delimiter())
        } else {
            MarkerModel::End(block_delimiter())
        },
    }
}

/// What one line yields: the state behind it and the positions on it.
pub struct LineScan {
    pub state: ScanState,
    pub marks: Seq<PositionModel>,
}

/// The scan of one line, the rules taken in this order:
/// a line that starts with `<pre` enters a preformatted block, one that
/// starts with `</pre>` leaves it, and neither they nor a line inside a
/// preformatted block yield anything; a line that starts with three
/// backticks opens or closes the code fence, and neither it nor a line
/// inside a code fence yields anything; a line that starts with `$$` opens
/// or closes the block and yields one position; every other line is
/// scanned for inline delimiters.
pub open spec fn scan_line(line: Seq<u8>, lineno: int, offset: int, state: ScanState)
    -> LineScan {
    if pre_open().is_prefix_of(line) {
        LineScan { state: ScanState { in_pre: true, ..state }, marks: Seq::empty() }
    } else if pre_close().is_prefix_of(line) {
        LineScan { state: ScanState { in_pre: false, ..state }, marks: Seq::empty() }
    } else if state.in_pre {
        LineScan { state, marks: Seq::empty() }
    } else if fence().is_prefix_of(line) {
        LineScan { state: ScanState { in_code: !state.in_code, ..state }, marks: Seq::empty() }
    } else if state.in_code {
        LineScan { state, marks: Seq::empty() }
    } else if block_delimiter().is_prefix_of(line) {
        let in_block = !state.in_block;
        LineScan {
            state: ScanState { in_block, ..state },
            marks: seq![block_mark(lineno, offset, in_block)],
        }
    } else {
        LineScan { state, marks: inline_line_marks(line, lineno, offset) }
    }
}

/// Where the text of the line that starts at `from` ends, given the line
/// feed or end of text at `end`: a carriage return directly before a line
/// feed is left out.
pub open spec fn line_end(text: Seq<u8>, from: int, end: int) -> int {
    if end < text.len() && from < end && text[end - 1] == CR {
        end - 1
    } else {
        end
    }
}

/// The positions from the line that starts at byte `cursor` to the end of
/// the text. `lineno` is the number of that line, `offset` the byte offset
/// counted for its start and `state` the state before it.
pub open spec fn scan_from(text: Seq<u8>, cursor: int, lineno: int, offset: int, state: ScanState)
    -> Seq<PositionModel>
    decreases text.len() - cursor,
    via scan_from_decreases
{
    if cursor < 0 || cursor >= text.len() {
        Seq::empty()
    } else {
        let end = line_break(text, cursor);
        let line = text.subrange(cursor, line_end(text, cursor, end));
        let scan = scan_line(line, lineno, offset, state);
        if end < text.len() {
            scan.marks + scan_from(
                text,
                end + 1,
                lineno + 1,
                offset + line.len() + 1,
                scan.state,
            )
        } else {
            scan.marks
        }
    }
}

#[via_fn]
proof fn scan_from_decreases(
    text: Seq<u8>,
    cursor: int,
    lineno: int,
    offset: int,
    state: ScanState,
) {
    if 0 <= cursor < text.len() {
        lemma_line_break_bounds(text, cursor);
    }
}

/// The delimiter positions of a document, in the order of the text.
pub open spec fn scan_spec(text: Seq<u8>) -> Seq<PositionModel> {
    scan_from(text, 0, 1, 0, ScanState::fresh())
}

/// Whether `positions` is the scan of `source`.
pub open spec fn is_scan_of(positions: Seq<SplitTagPosition<'_>>, source: &str) -> bool {
    position_models(positions) == scan_spec(source.spec_bytes())
}

/// The text `<pre`.
fn pre_open_text() -> (s: &'static str)
    ensures
        s.spec_bytes() == pre_open(),
{
    let s = "<pre";
    proof {
        reveal_strlit("<pre");
        assert(is_ascii_chars(s@));
        is_ascii_spec_bytes(s);
        assert(s.spec_bytes() =~= pre_open());
    }
    s
}

/// The text `</pre>`.
fn pre_close_text() -> (s: &'static str)
    ensures
        s.spec_bytes() == pre_close(),
{
    let s = "</pre>";
    proof {
        reveal_strlit("</pre>");
        assert(is_ascii_chars(s@));
        is_ascii_spec_bytes(s);
        assert(s.spec_bytes() =~= pre_close());
    }
    s
}

/// The text of three backticks.
fn fence_text() -> (s: &'static str)
    ensures
        s.spec_bytes() == fence(),
{
    let s = "```";
    proof {
        reveal_strlit("```");
        assert(is_ascii_chars(s@));
        is_ascii_spec_bytes(s);
        assert(s.spec_bytes() =~= fence());
    }
    s
}

/// The models of positions with one more are the models with one more.
proof fn lemma_models_push(positions: Seq<SplitTagPosition<'_>>, next: SplitTagPosition<'_>)
    ensures
        position_models(positions.push(next)) == position_models(positions).push(next@),
{
    assert(position_models(positions.push(next)) =~= position_models(positions).push(next@));
}

/// Scans the bytes of `text` from `from` to `to`, one line that is neither
/// suppressed nor a block line, and pushes its positions onto `out`.
fn scan_inline_into<'a>(
    text: &[u8],
    from: usize,
    to: usize,
    lineno: usize,
    offset: usize,
    out: &mut Vec<SplitTagPosition<'a>>,
)
    requires
        from <= to <= text@.len(),
        text@.len() < usize::MAX,
        offset <= from,
    ensures
        position_models(final(out)@) == position_models(old(out)@) + inline_line_marks(
            text@.subrange(from as int, to as int),
            lineno as int,
            offset as int,
        ),
{
    let ghost line = text@.subrange(from as int, to as int);
    let ghost before = position_models(out@);
    let mut in_code = false;
    let mut open = false;
    let mut column: usize = 1;
    let mut i: usize = from;
    while i < to
        invariant
            from <= i <= to <= text@.len(),
            text@.len() < usize::MAX,
            offset <= from,
            line == text@.subrange(from as int, to as int),
            in_code == (backticks_before(line, i - from) % 2 == 1),
            open == (inline_marks(line, i - from, lineno as int, offset as int).len() % 2 == 1),
            column == chars_before(line, i - from) + 1,
            column <= i - from + 1,
            position_models(out@) == before + inline_marks(
                line,
                i - from,
                lineno as int,
                offset as int,
            ),
        decreases to - i,
    {
        let b = text[i];
        let ghost k = i - from;
        let ghost marks = inline_marks(line, k, lineno as int, offset as int);
        assert(line[k] == b);
        if b == DOLLAR && !in_code {
            open = !open;
            let delimiter = if open {
                Marker::Start(inline_text())
            } else {
                Marker::End(inline_text())
            };
            let position = SplitTagPosition {
                lico: LiCo { lineno, column },
                byte_offset: offset + (i - from),
                delimiter,
            };
            proof {
                assert(live_dollar(line, k));
                assert(position@ == inline_mark(line, k, marks.len(), lineno as int, offset as int));
                lemma_models_push(out@, position);
                assert((before + marks).push(position@) =~= before + marks.push(position@));
            }
            out.push(position);
        } else if b == BACKTICK {
            in_code = !in_code;
        }
        if !(0x80 <= b && b <= 0xbf) {
            column += 1;
        }
        i += 1;
    }
    if open {
        let position = SplitTagPosition {
            lico: LiCo { lineno, column },
            byte_offset: to - from,
            delimiter: Marker::End(empty_text()),
        };
        proof {
            let marks = inline_marks(line, line.len() as int, lineno as int, offset as int);
            assert(position@ == repair_mark(line, lineno as int));
            lemma_models_push(out@, position);
            assert((before + marks).push(position@) =~= before + marks.push(position@));
        }
        out.push(position);
    }
}

/// Scans one line, the bytes of `text` from `from` to `to`, pushes its
/// positions onto `out` and returns the state behind the line.
fn scan_line_into<'a>(
    text: &[u8],
    from: usize,
    to: usize,
    lineno: usize,
    offset: usize,
    state: ScanState,
    out: &mut Vec<SplitTagPosition<'a>>,
) -> (next: ScanState)
    requires
        from <= to <= text@.len(),
        text@.len() < usize::MAX,
        offset <= from,
    ensures
        next == scan_line(
            text@.subrange(from as int, to as int),
            lineno as int,
            offset as int,
            state,
        ).state,
        position_models(final(out)@) == position_models(old(out)@) + scan_line(
            text@.subrange(from as int, to as int),
            lineno as int,
            offset as int,
            state,
        ).marks,
{
    let ghost before = position_models(out@);
    if starts_with_at(text, from, to, pre_open_text().as_bytes()) {
        assert(before + Seq::<PositionModel>::empty() =~= before);
        return ScanState { in_pre: true, in_code: state.in_code, in_block: state.in_block };
    }
    if starts_with_at(text, from, to, pre_close_text().as_bytes()) {
        assert(before + Seq::<PositionModel>::empty() =~= before);
        return ScanState { in_pre: false, in_code: state.in_code, in_block: state.in_block };
    }
    if state.in_pre {
        assert(before + Seq::<PositionModel>::empty() =~= before);
        return state;
    }
    if starts_with_at(text, from, to, fence_text().as_bytes()) {
        assert(before + Seq::<PositionModel>::empty() =~= before);
        return ScanState { in_pre: state.in_pre, in_code: !state.in_code, in_block: state.in_block };
    }
    if state.in_code {
        assert(before + Seq::<PositionModel>::empty() =~= before);
        return state;
    }
    if starts_with_at(text, from, to, block_text().as_bytes()) {
        let in_block = !state.in_block;
        let delimiter = if in_block {
            Marker::Start(block_text())
        } else {
            Marker::End(block_text())
        };
        let position = SplitTagPosition {
            lico: LiCo { lineno, column: 1 },
            byte_offset: offset,
            delimiter,
        };
        proof {
            assert(position@ == block_mark(lineno as int, offset as int, in_block));
            lemma_models_push(out@, position);
            assert(before.push(position@) =~= before + seq![position@]);
        }
        out.push(position);
        return ScanState { in_pre: state.in_pre, in_code: state.in_code, in_block };
    }
    scan_inline_into(text, from, to, lineno, offset, out);
    state
}

/// Finds the delimiters of `source`, in the order of the text.
///
/// The result is the scan of the text as [`scan_spec`] defines it: it
/// depends on nothing but the text.
pub fn dollar_split_tags_iter<'a>(source: &'a str) -> (positions: Vec<SplitTagPosition<'a>>)
    requires
        source.spec_bytes().len() < usize::MAX,
    ensures
        is_scan_of(positions@, source),
{
    let text = source.as_bytes();
    let mut out: Vec<SplitTagPosition<'a>> = Vec::new();
    let mut state = ScanState::new();
    let mut cursor: usize = 0;
    let mut lineno: usize = 1;
    let mut offset: usize = 0;
    assert(position_models(out@) =~= Seq::<PositionModel>::empty());
    while cursor < text.len()
        invariant
            text@ == source.spec_bytes(),
            text@.len() < usize::MAX,
            cursor <= text@.len() + 1,
            lineno <= cursor + 1,
            offset <= cursor,
            scan_spec(text@) == position_models(out@) + scan_from(
                text@,
                cursor as int,
                lineno as int,
                offset as int,
                state,
            ),
        decreases text@.len() + 1 - cursor,
    {
        let end = find_line_break(text, cursor);
        let stop = if end < text.len() && cursor < end && text[end - 1] == CR {
            end - 1
        } else {
            end
        };
        let ghost line = text@.subrange(cursor as int, stop as int);
        let ghost before = position_models(out@);
        let ghost scan = scan_line(line, lineno as int, offset as int, state);
        let ghost rest = if end < text@.len() {
            scan_from(text@, end + 1, lineno + 1, offset + line.len() + 1, scan.state)
        } else {
            Seq::empty()
        };
        assert(stop == line_end(text@, cursor as int, end as int));
        state = scan_line_into(text, cursor, stop, lineno, offset, state, &mut out);
        assert(scan.marks + Seq::<PositionModel>::empty() =~= scan.marks);
        assert(before + (scan.marks + rest) =~= (before + scan.marks) + rest);
        offset = offset + (stop - cursor) + 1;
        lineno = lineno + 1;
        cursor = end + 1;
    }
    assert(position_models(out@) + Seq::<PositionModel>::empty() =~= position_models(out@));
    out
}

/// The state behind a line: it does not depend on where the line stands.
pub open spec fn state_after(line: Seq<u8>, state: ScanState) -> ScanState {
    scan_line(line, 1, 0, state).state
}

/// Whether a line is passed over: it opens or closes a preformatted
/// block or a code fence, or lies inside one.
pub open spec fn suppressed(line: Seq<u8>, state: ScanState) -> bool {
    pre_open().is_prefix_of(line) || pre_close().is_prefix_of(line) || state.in_pre
        || fence().is_prefix_of(line) || state.in_code
}

/// The byte at which line `k` of `text` starts, the first line being line
/// one. Where `text` has fewer lines, this is not below its length.
pub open spec fn line_start(text: Seq<u8>, k: int) -> int
    decreases k,
{
    if k <= 1 {
        0
    } else {
        let before = line_start(text, k - 1);
        if before >= text.len() {
            before
        } else {
            line_break(text, before) + 1
        }
    }
}

/// The text of line `k` of `text`.
pub open spec fn line_of(text: Seq<u8>, k: int) -> Seq<u8> {
    let from = line_start(text, k);
    text.subrange(from, line_end(text, from, line_break(text, from)))
}

/// The state of the scanner before line `k` of `text`.
pub open spec fn state_before(text: Seq<u8>, k: int) -> ScanState
    decreases k,
{
    if k <= 1 {
        ScanState::fresh()
    } else {
        state_after(line_of(text, k - 1), state_before(text, k - 1))
    }
}

/// Whether no line inside an open `$$` block holds a live `$`, from the
/// line that starts at `cursor` on.
pub open spec fn quiet_blocks_from(text: Seq<u8>, cursor: int, state: ScanState) -> bool
    decreases text.len() - cursor,
    via quiet_blocks_from_decreases
{
    if cursor < 0 || cursor >= text.len() {
        true
    } else {
        let end = line_break(text, cursor);
        let line = text.subrange(cursor, line_end(text, cursor, end));
        &&& state.in_block && !suppressed(line, state) && !block_delimiter().is_prefix_of(line)
            ==> dollars_before(line, line.len() as int) == 0
        &&& end < text.len() ==> quiet_blocks_from(text, end + 1, state_after(line, state))
    }
}

#[via_fn]
proof fn quiet_blocks_from_decreases(text: Seq<u8>, cursor: int, state: ScanState) {
    if 0 <= cursor < text.len() {
        lemma_line_break_bounds(text, cursor);
    }
}

/// Whether no line inside an open `$$` block of the document holds a live
/// `$`.
pub open spec fn quiet_blocks(text: Seq<u8>) -> bool {
    quiet_blocks_from(text, 0, ScanState::fresh())
}

/// Whether a delimiter is one that the scanner gives: an opening or
/// closing `$` or `$$`, or the closing delimiter without text that closes
/// a line.
pub open spec fn is_scan_delimiter(delimiter: MarkerModel) -> bool {
    ||| delimiter == MarkerModel::Start(inline_delimiter())
    ||| delimiter == MarkerModel::End(inline_delimiter())
    ||| delimiter == MarkerModel::Start(block_delimiter())
    ||| delimiter == MarkerModel::End(block_delimiter())
    ||| delimiter == MarkerModel::End(Seq::<u8>::empty())
}

/// Whether `close` closes what `open` opens: it is a closing delimiter
/// with the same text, or the repair behind an inline delimiter.
pub open spec fn closes_what_opens(open: PositionModel, close: PositionModel) -> bool {
    &&& open.delimiter is Start
    &&& close.delimiter is End
    &&& close.delimiter.text() == open.delimiter.text() || (open.delimiter.text()
        == inline_delimiter() && close.delimiter.text() == Seq::<u8>::empty())
}

/// Whether a position opens an inline span or a block.
pub open spec fn opens_span(position: PositionModel) -> bool {
    position.delimiter == MarkerModel::Start(inline_delimiter()) || position.delimiter
        == MarkerModel::Start(block_delimiter())
}

/// Whether position `i` is in turn: the positions open and close
/// alternately, and a closing delimiter is of the kind of the opening one
/// before it. With `opened`, a block is open before the first position,
/// which then closes it.
pub open spec fn in_turn(marks: Seq<PositionModel>, i: int, opened: bool) -> bool {
    if (i + if opened {
        1int
    } else {
        0int
    }) % 2 == 0 {
        opens_span(marks[i])
    } else if i == 0 {
        marks[i].delimiter == MarkerModel::End(block_delimiter())
    } else {
        closes_what_opens(marks[i - 1], marks[i])
    }
}

/// Whether every position is in turn.
pub open spec fn alternating_from(marks: Seq<PositionModel>, opened: bool) -> bool {
    forall|i: int| 0 <= i < marks.len() ==> #[trigger] in_turn(marks, i, opened)
}

/// Whether the positions open and close in turn, starting with an opening
/// one, and each closing delimiter is of the kind of the opening one
/// before it.
pub open spec fn alternating(marks: Seq<PositionModel>) -> bool {
    alternating_from(marks, false)
}

/// The positions of the live `$` of a line: how many there are, where they
/// stand and what they hold.
pub proof fn lemma_inline_marks_shape(line: Seq<u8>, n: int, lineno: int, offset: int)
    requires
        0 <= n <= line.len(),
    ensures
        inline_marks(line, n, lineno, offset).len() == dollars_before(line, n),
        forall|i: int|
            0 <= i < inline_marks(line, n, lineno, offset).len() ==> {
                let mark = #[trigger] inline_marks(line, n, lineno, offset)[i];
                &&& mark.lico.line == lineno
                &&& mark.lico.column >= 1
                &&& offset <= mark.byte_offset < offset + n
                &&& line[mark.byte_offset - offset] == DOLLAR
                &&& mark.delimiter == if i % 2 == 0 {
                    MarkerModel::Start(inline_delimiter())
                } else {
                    MarkerModel::End(inline_delimiter())
                }
            },
        forall|i: int, j: int|
            0 <= i < j < inline_marks(line, n, lineno, offset).len() ==> (#[trigger] inline_marks(
                line,
                n,
                lineno,
                offset,
            )[i]).byte_offset < (#[trigger] inline_marks(line, n, lineno, offset)[j]).byte_offset,
    decreases n,
{
    if n > 0 {
        lemma_inline_marks_shape(line, n - 1, lineno, offset);
    }
}

/// The positions of a line all stand on that line.
proof fn lemma_line_marks_on_line(line: Seq<u8>, lineno: int, offset: int, state: ScanState)
    ensures
        forall|i: int|
            0 <= i < scan_line(line, lineno, offset, state).marks.len() ==> (#[trigger] scan_line(
                line,
                lineno,
                offset,
                state,
            ).marks[i]).lico.line == lineno,
        forall|i: int|
            0 <= i < scan_line(line, lineno, offset, state).marks.len() ==> (#[trigger] scan_line(
                line,
                lineno,
                offset,
                state,
            ).marks[i]).lico.column >= 1,
        forall|i: int|
            0 <= i < scan_line(line, lineno, offset, state).marks.len() ==> is_scan_delimiter(
                (#[trigger] scan_line(line, lineno, offset, state).marks[i]).delimiter,
            ),
        scan_line(line, lineno, offset, state).state == state_after(line, state),
        suppressed(line, state) ==> scan_line(line, lineno, offset, state).marks.len() == 0,
{
    lemma_inline_marks_shape(line, line.len() as int, lineno, offset);
}

/// The positions of a line that is scanned for inline delimiters open and
/// close in turn, and end closed.
proof fn lemma_inline_line_alternates(line: Seq<u8>, lineno: int, offset: int)
    ensures
        alternating_from(inline_line_marks(line, lineno, offset), false),
        inline_line_marks(line, lineno, offset).len() % 2 == 0,
        dollars_before(line, line.len() as int) == 0 ==> inline_line_marks(
            line,
            lineno,
            offset,
        ).len() == 0,
{
    lemma_inline_marks_shape(line, line.len() as int, lineno, offset);
    let marks = inline_marks(line, line.len() as int, lineno, offset);
    let all = inline_line_marks(line, lineno, offset);
    assert forall|i: int| 0 <= i < all.len() implies #[trigger] in_turn(all, i, false) by {
        if i < marks.len() {
            assert(all[i] == marks[i]);
            if i > 0 {
                assert(all[i - 1] == marks[i - 1]);
            }
        } else {
            assert(all[i - 1] == marks[i - 1]);
        }
    }
}

/// Two runs of positions that are each in turn are in turn when one
/// follows the other, where the second starts as the first leaves it.
proof fn lemma_alternating_concat(
    head: Seq<PositionModel>,
    tail: Seq<PositionModel>,
    opened: bool,
    then_opened: bool,
)
    requires
        alternating_from(head, opened),
        alternating_from(tail, then_opened),
        then_opened == (opened != (head.len() % 2 == 1)),
        then_opened && head.len() > 0 ==> head.last().delimiter == MarkerModel::Start(
            block_delimiter(),
        ),
    ensures
        alternating_from(head + tail, opened),
{
    let all = head + tail;
    assert forall|i: int| 0 <= i < all.len() implies #[trigger] in_turn(all, i, opened) by {
        if i < head.len() {
            assert(in_turn(head, i, opened));
            assert(all[i] == head[i]);
            if i > 0 {
                assert(all[i - 1] == head[i - 1]);
            }
        } else {
            let j = i - head.len();
            assert(in_turn(tail, j, then_opened));
            assert(all[i] == tail[j]);
            if j > 0 {
                assert(all[i - 1] == tail[j - 1]);
            } else if head.len() > 0 {
                assert(all[i - 1] == head.last());
            }
        }
    }
}

/// The positions from a line on are in turn, where no line inside an
/// open block holds a live `$`.
proof fn lemma_scan_from_alternates(
    text: Seq<u8>,
    cursor: int,
    lineno: int,
    offset: int,
    state: ScanState,
)
    requires
        quiet_blocks_from(text, cursor, state),
    ensures
        alternating_from(scan_from(text, cursor, lineno, offset, state), state.in_block),
    decreases text.len() - cursor,
{
    if 0 <= cursor < text.len() {
        lemma_line_break_bounds(text, cursor);
        let end = line_break(text, cursor);
        let line = text.subrange(cursor, line_end(text, cursor, end));
        let scan = scan_line(line, lineno, offset, state);
        lemma_line_marks_on_line(line, lineno, offset, state);
        lemma_inline_line_alternates(line, lineno, offset);
        let rest = if end < text.len() {
            scan_from(text, end + 1, lineno + 1, offset + line.len() + 1, scan.state)
        } else {
            Seq::empty()
        };
        if end < text.len() {
            lemma_scan_from_alternates(
                text,
                end + 1,
                lineno + 1,
                offset + line.len() + 1,
                scan.state,
            );
        }
        assert(scan.marks + Seq::<PositionModel>::empty() =~= scan.marks);
        assert(alternating_from(scan.marks, state.in_block)) by {
            assert forall|i: int| 0 <= i < scan.marks.len() implies #[trigger] in_turn(
                scan.marks,
                i,
                state.in_block,
            ) by {
                if scan.marks.len() == 1 && block_delimiter().is_prefix_of(line) {
                } else {
                    assert(in_turn(inline_line_marks(line, lineno, offset), i, false));
                }
            }
        }
        assert(alternating_from(rest, scan.state.in_block));
        lemma_alternating_concat(scan.marks, rest, state.in_block, scan.state.in_block);
    }
}

/// The positions of a document open and close in turn, starting with an
/// opening one, and every closing delimiter is of the kind of the opening
/// one before it. This holds of every document in which no line inside an
/// open `$$` block holds a live `$`.
pub proof fn lemma_scan_alternates(text: Seq<u8>)
    requires
        quiet_blocks(text),
    ensures
        alternating(scan_spec(text)),
{
    lemma_scan_from_alternates(text, 0, 1, 0, ScanState::fresh());
}

/// Two scans of one text find the same positions.
pub proof fn lemma_scan_repeatable(
    source: &str,
    first: Seq<SplitTagPosition<'_>>,
    second: Seq<SplitTagPosition<'_>>,
)
    requires
        is_scan_of(first, source),
        is_scan_of(second, source),
    ensures
        position_models(first) == position_models(second),
{
}

/// Every position from line `k` on stands on a line that is not passed
/// over, and has the shape of a position of the scanner.
proof fn lemma_marks_on_live_lines(text: Seq<u8>, k: int, offset: int, i: int)
    requires
        k >= 1,
        0 <= line_start(text, k),
        0 <= i < scan_from(text, line_start(text, k), k, offset, state_before(text, k)).len(),
    ensures
        ({
            let mark = scan_from(text, line_start(text, k), k, offset, state_before(text, k))[i];
            &&& mark.lico.line >= k
            &&& mark.lico.column >= 1
            &&& is_scan_delimiter(mark.delimiter)
            &&& line_start(text, mark.lico.line) < text.len()
            &&& !suppressed(line_of(text, mark.lico.line), state_before(text, mark.lico.line))
        }),
    decreases text.len() - line_start(text, k),
{
    let cursor = line_start(text, k);
    let state = state_before(text, k);
    lemma_line_break_bounds(text, cursor);
    let end = line_break(text, cursor);
    let line = text.subrange(cursor, line_end(text, cursor, end));
    assert(line == line_of(text, k));
    let scan = scan_line(line, k, offset, state);
    lemma_line_marks_on_line(line, k, offset, state);
    if i < scan.marks.len() {
    } else {
        assert(line_start(text, k + 1) == end + 1);
        assert(state_before(text, k + 1) == scan.state);
        lemma_marks_on_live_lines(text, k + 1, offset + line.len() + 1, i - scan.marks.len());
    }
}

/// Every position of a document has a line and a column that are counted
/// from one, and a delimiter that the scanner can give: an opening or
/// closing `$` or `$$`, or a closing delimiter without text.
pub proof fn lemma_scan_marks_shape(text: Seq<u8>, i: int)
    requires
        0 <= i < scan_spec(text).len(),
    ensures
        scan_spec(text)[i].lico.line >= 1,
        scan_spec(text)[i].lico.column >= 1,
        is_scan_delimiter(scan_spec(text)[i].delimiter),
{
    lemma_marks_on_live_lines(text, 1, 0, i);
}

/// Every position of a document stands on a line that is not passed over:
/// a `$` in a preformatted block or in a code fence yields no position.
pub proof fn lemma_suppressed_lines_yield_nothing(text: Seq<u8>, i: int)
    requires
        0 <= i < scan_spec(text).len(),
    ensures
        scan_spec(text)[i].lico.line >= 1,
        line_start(text, scan_spec(text)[i].lico.line) < text.len(),
        !suppressed(
            line_of(text, scan_spec(text)[i].lico.line),
            state_before(text, scan_spec(text)[i].lico.line),
        ),
{
    lemma_marks_on_live_lines(text, 1, 0, i);
}

} // verus!
