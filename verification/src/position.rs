//! Positions in a document and the delimiters found at them.

use vstd::prelude::*;
use vstd::string::is_ascii_spec_bytes;
use vstd::string::StringSliceAdditionalSpecFns;
use vstd::utf8::is_ascii_chars;
use crate::text::DOLLAR;
use crate::text::starts_with_at;

verus! {

/// A line and column coordinate, both counted from one.
///
/// It serves diagnostics only; text is always indexed by byte offsets.
/// Coordinates are ordered by line first, then by column.
#[derive(Debug, Clone, Copy, Hash, PartialEq, Eq, PartialOrd, Ord)]
pub struct LiCo {
    /// Line number, the first line being `1`.
    pub lineno: usize,
    /// Column number in characters, the first column being `1`.
    pub column: usize,
}

/// What a [`LiCo`] stands for: a line and a column as unbounded integers.
pub struct Place {
    pub line: int,
    pub column: int,
}

impl View for LiCo {
    type V = Place;

    open spec fn view(&self) -> Place {
        Place { line: self.lineno as int, column: self.column as int }
    }
}

impl Place {
    /// The order of coordinates: by line, then by column.
    pub open spec fn before_or_at(self, other: Place) -> bool {
        self.line < other.line || (self.line == other.line && self.column <= other.column)
    }
}

/// Coordinates are in a total order: any two can be compared, two that
/// are each not after the other are the same, and what is not after a
/// coordinate is not after any later one.
pub proof fn lemma_place_order(a: Place, b: Place, c: Place)
    ensures
        a.before_or_at(a),
        a.before_or_at(b) || b.before_or_at(a),
        a.before_or_at(b) && b.before_or_at(a) ==> a == b,
        a.before_or_at(b) && b.before_or_at(c) ==> a.before_or_at(c),
{
}

impl LiCo {
    /// Whether `self` does not come after `other`.
    pub fn before_or_at(&self, other: &LiCo) -> (r: bool)
        ensures
            r == self@.before_or_at(other@),
    {
        self.lineno < other.lineno || (self.lineno == other.lineno && self.column <= other.column)
    }
}

/// The text of an inline delimiter, `$`.
pub open spec fn inline_delimiter() -> Seq<u8> {
    seq![DOLLAR]
}

/// The text of a block delimiter, `$$`.
pub open spec fn block_delimiter() -> Seq<u8> {
    seq![DOLLAR, DOLLAR]
}

/// A delimiter found by the scanner, or one of the two ends of the document.
#[derive(Debug, Clone, Copy, Hash, PartialEq, Eq)]
pub enum Marker<'a> {
    /// Opens a span; the text is `$` or `$$`.
    Start(&'a str),
    /// Closes a span; the text is `$` or `$$`, or empty where the scanner
    /// closed a line that a lone `$` had left open.
    End(&'a str),
    /// The end of the document, with its coordinate and byte offset.
    EndOfDocument(LiCo, usize),
    /// The start of the document, with its coordinate and byte offset.
    StartOfDocument(LiCo, usize),
}

/// What a [`Marker`] stands for: its text is held as UTF-8 bytes.
pub enum MarkerModel {
    Start(Seq<u8>),
    End(Seq<u8>),
    EndOfDocument(Place, int),
    StartOfDocument(Place, int),
}

impl MarkerModel {
    /// The text of the delimiter; the two ends of the document have none.
    pub open spec fn text(self) -> Seq<u8> {
        match self {
            MarkerModel::Start(t) => t,
            MarkerModel::End(t) => t,
            MarkerModel::EndOfDocument(_, _) => Seq::empty(),
            MarkerModel::StartOfDocument(_, _) => Seq::empty(),
        }
    }

    /// Whether the text starts with `$$`.
    pub open spec fn is_block(self) -> bool {
        block_delimiter().is_prefix_of(self.text())
    }
}

impl<'a> View for Marker<'a> {
    type V = MarkerModel;

    open spec fn view(&self) -> MarkerModel {
        match *self {
            Marker::Start(s) => MarkerModel::Start(s.spec_bytes()),
            Marker::End(s) => MarkerModel::End(s.spec_bytes()),
            Marker::EndOfDocument(at, offset) => MarkerModel::EndOfDocument(at@, offset as int),
            Marker::StartOfDocument(at, offset) => MarkerModel::StartOfDocument(
                at@,
                offset as int,
            ),
        }
    }
}

/// The text `$`.
pub fn inline_text() -> (s: &'static str)
    ensures
        s.spec_bytes() == inline_delimiter(),
{
    let s = "$";
    proof {
        reveal_strlit("$");
        assert(is_ascii_chars(s@));
        is_ascii_spec_bytes(s);
        assert(s.spec_bytes() =~= inline_delimiter());
    }
    s
}

/// The text `$$`.
pub fn block_text() -> (s: &'static str)
    ensures
        s.spec_bytes() == block_delimiter(),
{
    let s = "$$";
    proof {
        reveal_strlit("$$");
        assert(is_ascii_chars(s@));
        is_ascii_spec_bytes(s);
        assert(s.spec_bytes() =~= block_delimiter());
    }
    s
}

/// The empty text.
pub fn empty_text() -> (s: &'static str)
    ensures
        s.spec_bytes() == Seq::<u8>::empty(),
{
    let s = "";
    proof {
        reveal_strlit("");
        assert(s@ =~= Seq::<char>::empty());
        assert(s.spec_bytes() =~= Seq::<u8>::empty());
    }
    s
}

impl<'a> Marker<'a> {
    /// Whether this is a block delimiter: its text starts with `$$`.
    pub fn is_block(&self) -> (block: bool)
        ensures
            block == self@.is_block(),
    {
        let text = self.as_str().as_bytes();
        let found = starts_with_at(text, 0, text.len(), block_text().as_bytes());
        assert(text@.subrange(0, text@.len() as int) =~= text@);
        found
    }

    /// The text of the delimiter, empty for the two ends of the document.
    pub fn as_str(&self) -> (text: &'a str)
        ensures
            text.spec_bytes() == self@.text(),
    {
        match self {
            Marker::Start(s) => s,
            Marker::End(s) => s,
            Marker::EndOfDocument(_, _) => empty_text(),
            Marker::StartOfDocument(_, _) => empty_text(),
        }
    }
}

/// One delimiter occurrence in a document.
#[derive(Debug, PartialEq, Eq)]
pub struct SplitTagPosition<'a> {
    /// Line and column of the delimiter.
    pub lico: LiCo,
    /// Offset in bytes from the beginning of the document.
    pub byte_offset: usize,
    /// The delimiter that stands there.
    pub delimiter: Marker<'a>,
}

impl<'a> Clone for SplitTagPosition<'a> {
    fn clone(&self) -> (copy: Self)
        ensures
            copy == *self,
    {
        SplitTagPosition {
            lico: self.lico,
            byte_offset: self.byte_offset,
            delimiter: self.delimiter,
        }
    }
}

/// What a [`SplitTagPosition`] stands for.
pub struct PositionModel {
    pub lico: Place,
    pub byte_offset: int,
    pub delimiter: MarkerModel,
}

impl<'a> View for SplitTagPosition<'a> {
    type V = PositionModel;

    open spec fn view(&self) -> PositionModel {
        PositionModel {
            lico: self.lico@,
            byte_offset: self.byte_offset as int,
            delimiter: self.delimiter@,
        }
    }
}

/// The models of a sequence of positions.
pub open spec fn position_models(positions: Seq<SplitTagPosition<'_>>) -> Seq<PositionModel> {
    Seq::new(positions.len(), |i: int| positions[i]@)
}

} // verus!
