//! Trimming: the payload of a span, without its delimiters.
//!
//! An inline span loses its first and its last character. A block span
//! loses its first line, which holds the opening `$$` and the parameters,
//! and its last line, which holds the closing `$$`. Where a span is bounded
//! by an end of the document, that side is taken as it stands.

use core::ops::Range;
use vstd::prelude::*;
use vstd::string::StringSliceAdditionalSpecFns;
use vstd::utf8::is_continuation_byte;
use vstd::utf8::valid_utf8;
use crate::content::Content;
use crate::content::ContentModel;
use crate::position::block_delimiter;
use crate::position::block_text;
use crate::position::inline_delimiter;
use crate::position::inline_text;
use crate::position::LiCo;
use crate::position::Marker;
use crate::position::MarkerModel;
use crate::position::Place;
use crate::text::char_count;
use crate::text::chars_before;
use crate::text::count_chars;
use crate::text::count_newlines;
use crate::text::find_line_break;
use crate::text::find_last_line_start;
use crate::text::last_line_break;
use crate::text::lemma_boundary_after_ascii;
use crate::text::lemma_chars_before_bound;
use crate::text::lemma_chars_before_monotonic;
use crate::text::lemma_counts_of_prefix;
use crate::text::lemma_last_line_break_bounds;
use crate::text::lemma_last_line_break_of_prefix;
use crate::text::lemma_line_break_bounds;
use crate::text::lemma_newlines_before_bound;
use crate::text::lemma_str_valid;
use crate::text::LF;
use crate::text::line_break;
use crate::text::newlines_before;
use crate::text::on_boundary;
use crate::text::same_bytes;
use crate::text::slice_str;
use crate::text::starts_with_at;

verus! {

/// The payload of a span: its text without the delimiters.
#[derive(Debug, PartialEq, Eq)]
pub struct Trimmed<'a> {
    /// The text between the delimiters.
    pub trimmed: &'a str,
    /// The text between the opening `$$` of a block and the end of its
    /// line, where there is any.
    pub parameters: Option<&'a str>,
    /// The coordinate of the first character of the payload, counted
    /// within the span.
    pub start: LiCo,
    /// The coordinate of the last character of the payload, counted within
    /// the span.
    pub end: LiCo,
    /// The bytes of the document that the payload covers.
    pub byte_range: Range<usize>,
}

/// What a [`Trimmed`] stands for.
pub struct TrimmedModel {
    /// The payload as UTF-8 bytes.
    pub text: Seq<u8>,
    pub parameters: Option<Seq<u8>>,
    pub start: Place,
    pub end: Place,
    /// The first byte offset of the payload in the document.
    pub from: int,
    /// The byte offset behind the payload in the document.
    pub to: int,
}

impl<'a> View for Trimmed<'a> {
    type V = TrimmedModel;

    open spec fn view(&self) -> TrimmedModel {
        TrimmedModel {
            text: self.trimmed.spec_bytes(),
            parameters: match self.parameters {
                Some(p) => Some(p.spec_bytes()),
                None => None,
            },
            start: self.start@,
            end: self.end@,
            from: self.byte_range.start as int,
            to: self.byte_range.end as int,
        }
    }
}

impl<'a> Clone for Trimmed<'a> {
    fn clone(&self) -> (copy: Self)
        ensures
            copy == *self,
    {
        Trimmed {
            trimmed: self.trimmed,
            parameters: self.parameters,
            start: self.start,
            end: self.end,
            byte_range: self.byte_range.start..self.byte_range.end,
        }
    }
}

impl<'a> Trimmed<'a> {
    /// The payload.
    pub fn as_str(&self) -> (text: &'a str)
        ensures
            text.spec_bytes() == self@.text,
    {
        self.trimmed
    }
}

/// The coordinate of the character that the byte before index `n` of `text`
/// belongs to, where lines and columns are counted from one and a line
/// feed counts as the first character of the line that it starts.
pub open spec fn place_at(text: Seq<u8>, n: int) -> Place {
    let line_start = last_line_break(text, n);
    let counted_from = if line_start < 0 {
        0
    } else {
        line_start
    };
    Place {
        line: newlines_before(text, n) as int + 1,
        column: chars_before(text, n) - chars_before(text, counted_from),
    }
}

/// The first index at or after `from` at which a character of `text`
/// starts, or the length of `text`.
pub open spec fn next_boundary(text: Seq<u8>, from: int) -> int
    decreases text.len() - from,
{
    if from < 0 || from >= text.len() {
        text.len() as int
    } else if !is_continuation_byte(text[from]) {
        from
    } else {
        next_boundary(text, from + 1)
    }
}

/// The last index before `before` at which a character of `text` starts,
/// or zero.
pub open spec fn prev_boundary(text: Seq<u8>, before: int) -> int
    decreases before,
{
    if before <= 0 {
        0
    } else if !is_continuation_byte(text[before - 1]) {
        before - 1
    } else {
        prev_boundary(text, before - 1)
    }
}

/// One side of a payload: its coordinate and its byte offset in the span.
pub struct Edge {
    pub place: Place,
    pub offset: int,
}

/// Whether the text of a span can lose an inline delimiter on each side:
/// it holds two characters or more.
pub open spec fn inline_shaped(text: Seq<u8>) -> bool {
    char_count(text) >= 2
}

/// Whether the text of a span can lose the first line of a block: it
/// starts with `$$` and holds a line feed.
pub open spec fn block_opened(text: Seq<u8>) -> bool {
    block_delimiter().is_prefix_of(text) && line_break(text, 0) < text.len()
}

/// Whether the text of a span can lose the last line of a block: it holds
/// a line feed.
pub open spec fn block_closed(text: Seq<u8>) -> bool {
    line_break(text, 0) < text.len()
}

/// Where the payload starts behind an inline delimiter: at the second
/// character of the span.
pub open spec fn inline_start(text: Seq<u8>) -> Edge {
    let offset = next_boundary(text, 1);
    Edge { place: place_at(text, offset + 1), offset }
}

/// Where the payload ends before an inline delimiter: at the last
/// character of the span. The coordinate is that of the character before
/// it.
pub open spec fn inline_end(text: Seq<u8>) -> Edge {
    let offset = prev_boundary(text, text.len() as int);
    Edge { place: place_at(text, offset), offset }
}

/// Where the payload starts behind the first line of a block: behind the
/// first line feed, at the first column of the second line.
pub open spec fn block_start(text: Seq<u8>) -> Edge {
    Edge { place: Place { line: 2, column: 1 }, offset: line_break(text, 0) + 1 }
}

/// Where the payload ends before the last line of a block: behind the
/// last line feed, which is the last character of the payload. Where the
/// payload is empty, the coordinate is that of its start.
pub open spec fn block_end(text: Seq<u8>) -> Edge {
    let first = line_break(text, 0);
    let last = last_line_break(text, text.len() as int);
    Edge {
        place: if last <= first {
            Place { line: 2, column: 1 }
        } else {
            place_at(text, last)
        },
        offset: last + 1,
    }
}

/// The parameters of a block: the text between the opening `$$` and the
/// first line feed, or none where that is empty.
pub open spec fn block_parameters(text: Seq<u8>) -> Option<Seq<u8>> {
    let end = line_break(text, 0);
    if end <= 2 {
        None
    } else {
        Some(text.subrange(2, end))
    }
}

impl ContentModel {
    /// Whether the payload can start as the opening delimiter asks.
    pub open spec fn start_trimmable(self) -> bool {
        match self.start_del {
            MarkerModel::StartOfDocument(_, _) => true,
            MarkerModel::EndOfDocument(_, _) => false,
            _ => {
                ||| (self.start_del.text() == inline_delimiter() && inline_shaped(self.text))
                ||| (self.start_del.text() == block_delimiter() && block_opened(self.text))
            },
        }
    }

    /// Whether the payload can end as the closing delimiter asks.
    pub open spec fn end_trimmable(self) -> bool {
        match self.end_del {
            MarkerModel::EndOfDocument(_, _) => true,
            MarkerModel::StartOfDocument(_, _) => false,
            _ => {
                ||| (self.end_del.text() == inline_delimiter() && inline_shaped(self.text))
                ||| (self.end_del.text() == block_delimiter() && block_closed(self.text))
            },
        }
    }

    /// Whether both sides are delimiters with a text, none an end of the
    /// document.
    pub open spec fn delimited(self) -> bool {
        (self.start_del is Start || self.start_del is End) && (self.end_del is Start
            || self.end_del is End)
    }

    /// Where the payload starts: coordinate, and byte offset in the
    /// document.
    pub open spec fn trim_start(self) -> Edge {
        match self.start_del {
            MarkerModel::StartOfDocument(place, offset) => Edge { place, offset },
            _ => {
                let edge = if self.start_del.text() == inline_delimiter() {
                    inline_start(self.text)
                } else {
                    block_start(self.text)
                };
                Edge { place: edge.place, offset: self.from + edge.offset }
            },
        }
    }

    /// Where the payload ends: coordinate, and byte offset in the document.
    pub open spec fn trim_end(self) -> Edge {
        match self.end_del {
            MarkerModel::EndOfDocument(place, offset) => Edge { place, offset },
            _ => {
                let edge = if self.end_del.text() == inline_delimiter() {
                    inline_end(self.text)
                } else {
                    block_end(self.text)
                };
                Edge { place: edge.place, offset: self.from + edge.offset }
            },
        }
    }

    /// Whether the span can be trimmed: it is well formed, each side can
    /// be trimmed as its delimiter asks, two delimiters are of one kind,
    /// and the payload lies within the span.
    pub open spec fn trimmable(self) -> bool {
        &&& self.well_formed()
        &&& self.start_trimmable()
        &&& self.end_trimmable()
        &&& self.delimited() ==> self.start_del.text() == self.end_del.text()
        &&& self.from <= self.trim_start().offset <= self.trim_end().offset <= self.to
        &&& on_boundary(self.text, self.trim_start().offset - self.from)
        &&& on_boundary(self.text, self.trim_end().offset - self.from)
    }

    /// The payload of the span.
    pub open spec fn trim(self) -> TrimmedModel {
        let start = self.trim_start();
        let end = self.trim_end();
        TrimmedModel {
            text: self.text.subrange(start.offset - self.from, end.offset - self.from),
            parameters: if !(self.start_del is StartOfDocument) && self.start_del.text()
                == block_delimiter() {
                block_parameters(self.text)
            } else {
                None
            },
            start: start.place,
            end: end.place,
            from: start.offset,
            to: end.offset,
        }
    }

    /// Whether the span starts with the text of its opening delimiter and
    /// ends with the text of its closing one, as a span to replace does.
    pub open spec fn bounded_by_delimiters(self) -> bool {
        self.start_del.text().is_prefix_of(self.text) && self.end_del.text().is_suffix_of(
            self.text,
        )
    }
}

/// Where the next boundary stands: only continuation bytes lie between
/// `from` and it.
pub proof fn lemma_next_boundary(text: Seq<u8>, from: int)
    requires
        0 <= from <= text.len(),
    ensures
        from <= next_boundary(text, from) <= text.len(),
        on_boundary(text, next_boundary(text, from)),
        forall|i: int| from <= i < next_boundary(text, from) ==> is_continuation_byte(text[i]),
        chars_before(text, next_boundary(text, from)) == chars_before(text, from),
    decreases text.len() - from,
{
    if from < text.len() && is_continuation_byte(text[from]) {
        lemma_next_boundary(text, from + 1);
    }
}

/// Where the boundary before `before` stands: only continuation bytes
/// lie between it and `before`, and one character starts there.
pub proof fn lemma_prev_boundary(text: Seq<u8>, before: int)
    requires
        0 <= before <= text.len(),
    ensures
        0 <= prev_boundary(text, before) <= before,
        before > 0 ==> prev_boundary(text, before) < before,
        chars_before(text, before) > 0 ==> {
            &&& on_boundary(text, prev_boundary(text, before))
            &&& chars_before(text, prev_boundary(text, before)) + 1 == chars_before(text, before)
        },
        forall|i: int| prev_boundary(text, before) < i < before ==> is_continuation_byte(text[i]),
    decreases before,
{
    if before > 0 && is_continuation_byte(text[before - 1]) {
        lemma_prev_boundary(text, before - 1);
    }
}

/// Counting characters can be done in two parts.
pub proof fn lemma_chars_split(text: Seq<u8>, from: int, to: int)
    requires
        0 <= from <= to <= text.len(),
    ensures
        chars_before(text, to) == chars_before(text, from) + char_count(text.subrange(from, to)),
    decreases to - from,
{
    let part = text.subrange(from, to);
    if from < to {
        lemma_chars_split(text, from, to - 1);
        let shorter = text.subrange(from, to - 1);
        assert(part.subrange(0, to - 1 - from) =~= shorter);
        lemma_counts_of_prefix(part, to - 1 - from, to - 1 - from);
        assert(part[to - from - 1] == text[to - 1]);
    }
}

/// An inline span of valid UTF-8 with two characters or more has a payload
/// within it.
pub proof fn lemma_inline_edges(text: Seq<u8>)
    requires
        valid_utf8(text),
        inline_shaped(text),
    ensures
        0 < inline_start(text).offset <= inline_end(text).offset < text.len(),
        on_boundary(text, inline_start(text).offset),
        on_boundary(text, inline_end(text).offset),
        chars_before(text, inline_start(text).offset) == 1,
        chars_before(text, inline_end(text).offset) + 1 == char_count(text),
{
    let len = text.len() as int;
    lemma_chars_before_bound(text, len);
    lemma_next_boundary(text, 1);
    lemma_prev_boundary(text, len);
    vstd::utf8::is_char_boundary_start_end_of_seq(text);
    crate::text::lemma_boundary(text, 0);
    assert(!is_continuation_byte(text[0]));
    assert(chars_before(text, 1) == 1) by {
        assert(chars_before(text, 0) == 0);
    }
    let start = next_boundary(text, 1);
    let end = prev_boundary(text, len);
    if start > end {
        lemma_chars_before_monotonic(text, end, start);
    }
}

/// A block span of valid UTF-8 has a payload within it.
pub proof fn lemma_block_edges(text: Seq<u8>)
    requires
        valid_utf8(text),
        block_closed(text),
    ensures
        0 < block_start(text).offset <= block_end(text).offset <= text.len(),
        on_boundary(text, block_start(text).offset),
        on_boundary(text, block_end(text).offset),
        block_delimiter().is_prefix_of(text) ==> 2 < block_start(text).offset,
        block_delimiter().is_suffix_of(text) ==> block_end(text).offset + 2 <= text.len(),
{
    let len = text.len() as int;
    lemma_line_break_bounds(text, 0);
    lemma_last_line_break_bounds(text, len);
    let first = line_break(text, 0);
    let last = last_line_break(text, len);
    assert(last >= first) by {
        if last < first {
            assert(text[first] != LF);
        }
    }
    lemma_boundary_after_ascii(text, first);
    lemma_boundary_after_ascii(text, last);
    if block_delimiter().is_prefix_of(text) {
        assert(text.subrange(0, 2)[0] == text[0]);
        assert(text.subrange(0, 2)[1] == text[1]);
        assert(block_delimiter()[0] != LF && block_delimiter()[1] != LF);
    }
    if block_delimiter().is_suffix_of(text) {
        let tail = text.subrange(len - 2, len);
        assert(tail[0] == text[len - 2]);
        assert(tail[1] == text[len - 1]);
        assert(block_delimiter()[0] != LF && block_delimiter()[1] != LF);
    }
}

/// A span of valid UTF-8 between two delimiters of one kind can be
/// trimmed as soon as it has the shape that the kind asks for.
pub proof fn lemma_delimited_trimmable(content: ContentModel)
    requires
        valid_utf8(content.text),
        content.well_formed(),
        content.delimited(),
        content.start_del.text() == content.end_del.text(),
        content.start_trimmable(),
    ensures
        content.trimmable(),
{
    if content.start_del.text() == inline_delimiter() {
        assert(inline_delimiter() != block_delimiter()) by {
            assert(inline_delimiter().len() != block_delimiter().len());
        }
        lemma_inline_edges(content.text);
    } else {
        assert(inline_delimiter() != block_delimiter()) by {
            assert(inline_delimiter().len() != block_delimiter().len());
        }
        lemma_block_edges(content.text);
    }
}

/// The payload of a span that is bounded by its two delimiters lies
/// strictly inside them: it starts behind the opening delimiter and ends
/// before the closing one.
pub proof fn lemma_trim_inside_delimiters(content: ContentModel)
    requires
        valid_utf8(content.text),
        content.trimmable(),
        content.delimited(),
        content.bounded_by_delimiters(),
    ensures
        content.from + content.start_del.text().len() <= content.trim().from,
        content.trim().from <= content.trim().to,
        content.trim().to + content.end_del.text().len() <= content.to,
        content.from < content.trim().from,
        content.trim().to < content.to,
{
    let text = content.text;
    let len = text.len() as int;
    assert(inline_delimiter() != block_delimiter()) by {
        assert(inline_delimiter().len() != block_delimiter().len());
    }
    if content.start_del.text() == inline_delimiter() {
        lemma_inline_edges(text);
        assert(text.subrange(0, 1)[0] == text[0]);
        assert(text.subrange(len - 1, len)[0] == text[len - 1]);
        lemma_boundary_after_ascii(text, 0);
        lemma_next_boundary(text, 1);
        assert(next_boundary(text, 1) == 1);
        assert(!is_continuation_byte(text[len - 1]));
        assert(prev_boundary(text, len) == len - 1);
    } else {
        lemma_block_edges(text);
    }
}

/// The coordinate for index `n` of `text`.
fn place_of(text: &[u8], n: usize) -> (at: LiCo)
    requires
        n <= text@.len(),
        newlines_before(text@, n as int) < usize::MAX,
    ensures
        at@ == place_at(text@, n as int),
{
    let ghost head = text@.subrange(0, n as int);
    let newlines = count_newlines(text, 0, n);
    let line_start = find_last_line_start(text, 0, n);
    let counted_from = if line_start == 0 {
        0
    } else {
        line_start - 1
    };
    let column = count_chars(text, counted_from, n);
    proof {
        lemma_counts_of_prefix(text@, n as int, n as int);
        lemma_last_line_break_of_prefix(text@, n as int, n as int);
        lemma_chars_split(text@, counted_from as int, n as int);
    }
    LiCo { lineno: newlines + 1, column }
}

/// The first index at or after `from` at which a character starts.
fn find_next_boundary(text: &[u8], from: usize) -> (at: usize)
    requires
        from <= text@.len(),
    ensures
        at == next_boundary(text@, from as int),
        from <= at <= text@.len(),
{
    let mut i: usize = from;
    while i < text.len() && 0x80 <= text[i] && text[i] <= 0xbf
        invariant
            from <= i <= text@.len(),
            next_boundary(text@, from as int) == next_boundary(text@, i as int),
        decreases text@.len() - i,
    {
        i += 1;
    }
    i
}

/// The last index before `before` at which a character starts, or zero.
fn find_prev_boundary(text: &[u8], before: usize) -> (at: usize)
    requires
        before <= text@.len(),
    ensures
        at == prev_boundary(text@, before as int),
        at <= before,
{
    let mut i: usize = before;
    while i > 0 && 0x80 <= text[i - 1] && text[i - 1] <= 0xbf
        invariant
            i <= before <= text@.len(),
            prev_boundary(text@, before as int) == prev_boundary(text@, i as int),
        decreases i,
    {
        i -= 1;
    }
    if i > 0 {
        i - 1
    } else {
        0
    }
}

/// Bytes that hold no line feed add nothing to the number of line feeds.
proof fn lemma_newlines_unchanged(text: Seq<u8>, from: int, to: int)
    requires
        0 <= from <= to <= text.len(),
        forall|i: int| from <= i < to ==> text[i] != LF,
    ensures
        newlines_before(text, to) == newlines_before(text, from),
    decreases to - from,
{
    if from < to {
        lemma_newlines_unchanged(text, from, to - 1);
    }
}

/// What kind of side a delimiter asks for.
enum Side {
    Inline,
    Block,
    Document(LiCo, usize),
    Other,
}

/// The side that the opening delimiter asks for.
fn start_side(delimiter: &Marker<'_>) -> (side: Side)
    ensures
        match side {
            Side::Inline => !(delimiter@ is StartOfDocument) && !(delimiter@ is EndOfDocument)
                && delimiter@.text() == inline_delimiter(),
            Side::Block => !(delimiter@ is StartOfDocument) && !(delimiter@ is EndOfDocument)
                && delimiter@.text() == block_delimiter(),
            Side::Document(at, offset) => delimiter@ == MarkerModel::StartOfDocument(
                at@,
                offset as int,
            ),
            Side::Other => delimiter@ is EndOfDocument || (!(delimiter@ is StartOfDocument)
                && delimiter@.text() != inline_delimiter() && delimiter@.text()
                != block_delimiter()),
        },
{
    match delimiter {
        Marker::StartOfDocument(at, offset) => Side::Document(*at, *offset),
        Marker::EndOfDocument(_, _) => Side::Other,
        Marker::Start(text) | Marker::End(text) => {
            if same_bytes(text.as_bytes(), inline_text().as_bytes()) {
                Side::Inline
            } else if same_bytes(text.as_bytes(), block_text().as_bytes()) {
                Side::Block
            } else {
                Side::Other
            }
        },
    }
}

/// The side that the closing delimiter asks for.
fn end_side(delimiter: &Marker<'_>) -> (side: Side)
    ensures
        match side {
            Side::Inline => !(delimiter@ is StartOfDocument) && !(delimiter@ is EndOfDocument)
                && delimiter@.text() == inline_delimiter(),
            Side::Block => !(delimiter@ is StartOfDocument) && !(delimiter@ is EndOfDocument)
                && delimiter@.text() == block_delimiter(),
            Side::Document(at, offset) => delimiter@ == MarkerModel::EndOfDocument(
                at@,
                offset as int,
            ),
            Side::Other => delimiter@ is StartOfDocument || (!(delimiter@ is EndOfDocument)
                && delimiter@.text() != inline_delimiter() && delimiter@.text()
                != block_delimiter()),
        },
{
    match delimiter {
        Marker::EndOfDocument(at, offset) => Side::Document(*at, *offset),
        Marker::StartOfDocument(_, _) => Side::Other,
        Marker::Start(text) | Marker::End(text) => {
            if same_bytes(text.as_bytes(), inline_text().as_bytes()) {
                Side::Inline
            } else if same_bytes(text.as_bytes(), block_text().as_bytes()) {
                Side::Block
            } else {
                Side::Other
            }
        },
    }
}

impl<'a> Content<'a> {
    /// The payload of the span, where the span can be trimmed.
    pub fn try_trimmed(&self) -> (payload: Option<Trimmed<'a>>)
        ensures
            payload is Some <==> self@.trimmable(),
            payload is Some ==> payload->0@ == self@.trim(),
            payload is Some ==> self@.from <= payload->0@.from <= payload->0@.to <= self@.to,
    {
        if !self.is_well_formed() {
            return None;
        }
        let text = self.s.as_bytes();
        let len = text.len();
        let from = self.byte_range.start;
        let to = self.byte_range.end;
        let opening = start_side(&self.start_del);
        let closing = end_side(&self.end_del);
        proof {
            lemma_str_valid(self.s);
            assert(inline_delimiter() != block_delimiter()) by {
                assert(inline_delimiter().len() != block_delimiter().len());
            }
        }
        let first_break = find_line_break(text, 0);
        let chars = count_chars(text, 0, len);
        assert(text@.subrange(0, len as int) =~= text@);
        let mut parameters: Option<&'a str> = None;
        let (start, start_at): (LiCo, usize) = match opening {
            Side::Document(at, offset) => (at, offset),
            Side::Inline => {
                if chars < 2 {
                    return None;
                }
                let offset = find_next_boundary(text, 1);
                proof {
                    lemma_inline_edges(text@);
                    lemma_next_boundary(text@, 1);
                    lemma_newlines_before_bound(text@, 1);
                    assert forall|i: int| 1 <= i < offset implies text@[i] != LF by {
                        assert(is_continuation_byte(text@[i]));
                    }
                    lemma_newlines_unchanged(text@, 1, offset as int);
                }
                (place_of(text, offset + 1), from + offset)
            },
            Side::Block => {
                if !starts_with_at(text, 0, len, block_text().as_bytes()) || first_break >= len {
                    return None;
                }
                proof {
                    lemma_block_edges(text@);
                    lemma_line_break_bounds(text@, 0);
                    assert(text@.subrange(0, 2)[1] == text@[1]);
                    lemma_boundary_after_ascii(text@, 1);
                }
                if first_break > 2 {
                    parameters = Some(slice_str(self.s, 2, first_break));
                }
                (LiCo { lineno: 2, column: 1 }, from + (first_break + 1))
            },
            Side::Other => {
                return None;
            },
        };
        let (end, end_at): (LiCo, usize) = match closing {
            Side::Document(at, offset) => (at, offset),
            Side::Inline => {
                if chars < 2 {
                    return None;
                }
                let offset = find_prev_boundary(text, len);
                proof {
                    lemma_inline_edges(text@);
                    lemma_newlines_before_bound(text@, offset as int);
                }
                (place_of(text, offset), from + offset)
            },
            Side::Block => {
                if first_break >= len {
                    return None;
                }
                let last_start = find_last_line_start(text, 0, len);
                proof {
                    lemma_block_edges(text@);
                    lemma_line_break_bounds(text@, 0);
                    lemma_last_line_break_bounds(text@, len as int);
                    lemma_newlines_before_bound(text@, last_start - 1);
                }
                let at = if last_start - 1 <= first_break {
                    LiCo { lineno: 2, column: 1 }
                } else {
                    place_of(text, last_start - 1)
                };
                (at, from + last_start)
            },
            Side::Other => {
                return None;
            },
        };
        let delimited = match (&opening, &closing) {
            (Side::Document(_, _), _) => false,
            (_, Side::Document(_, _)) => false,
            _ => true,
        };
        if delimited {
            let same = match (&opening, &closing) {
                (Side::Inline, Side::Inline) => true,
                (Side::Block, Side::Block) => true,
                _ => false,
            };
            if !same {
                return None;
            }
        }
        if !(from <= start_at && start_at <= end_at && end_at <= to) {
            return None;
        }
        let first = start_at - from;
        let last = end_at - from;
        if first < len {
            let b = text[first];
            if 0x80 <= b && b <= 0xbf {
                return None;
            }
        }
        if last < len {
            let b = text[last];
            if 0x80 <= b && b <= 0xbf {
                return None;
            }
        }
        Some(
            Trimmed {
                trimmed: slice_str(self.s, first, last),
                parameters,
                start,
                end,
                byte_range: start_at..end_at,
            },
        )
    }

    /// The payload of the span: its text without the delimiters.
    ///
    /// The span has to be one that can be trimmed, which
    /// [`Content::try_trimmed`] finds out.
    pub fn trimmed(&self) -> (payload: Trimmed<'a>)
        requires
            self@.trimmable(),
        ensures
            payload@ == self@.trim(),
            self@.from <= payload@.from <= payload@.to <= self@.to,
    {
        match self.try_trimmed() {
            Some(payload) => payload,
            None => vstd::pervasive::unreached(),
        }
    }
}

impl<'a> Trimmed<'a> {
    /// The payload of `content`.
    ///
    /// The span has to be one that can be trimmed, which
    /// [`Content::try_trimmed`] finds out.
    pub fn from(content: &Content<'a>) -> (payload: Self)
        requires
            content@.trimmable(),
        ensures
            payload@ == content@.trim(),
            content@.from <= payload@.from <= payload@.to <= content@.to,
    {
        content.trimmed()
    }
}

} // verus!
