//! Spans of a document: the text between two delimiters.

use core::ops::Range;
use vstd::prelude::*;
use vstd::string::StringSliceAdditionalSpecFns;
use crate::position::LiCo;
use crate::position::Marker;
use crate::position::MarkerModel;
use crate::position::Place;

verus! {

/// A span of the document: its text, where it stands and the two
/// delimiters that bound it.
#[derive(Debug, Hash, PartialEq, Eq)]
pub struct Content<'a> {
    /// The text of the span, the bytes of the document over `byte_range`.
    pub s: &'a str,
    /// The coordinate of the delimiter that opens the span.
    pub start: LiCo,
    /// The coordinate of the delimiter that closes the span.
    pub end: LiCo,
    /// The bytes of the document that the span covers.
    pub byte_range: Range<usize>,
    /// The delimiter before the span.
    pub start_del: Marker<'a>,
    /// The delimiter behind the span.
    pub end_del: Marker<'a>,
}

/// What a [`Content`] stands for.
pub struct ContentModel {
    /// The text of the span as UTF-8 bytes.
    pub text: Seq<u8>,
    pub start: Place,
    pub end: Place,
    /// The first byte offset of the span in the document.
    pub from: int,
    /// The byte offset behind the span in the document.
    pub to: int,
    pub start_del: MarkerModel,
    pub end_del: MarkerModel,
}

impl ContentModel {
    /// The byte range is as long as the text.
    pub open spec fn well_formed(self) -> bool {
        0 <= self.from <= self.to && self.to - self.from == self.text.len()
    }
}

impl<'a> View for Content<'a> {
    type V = ContentModel;

    open spec fn view(&self) -> ContentModel {
        ContentModel {
            text: self.s.spec_bytes(),
            start: self.start@,
            end: self.end@,
            from: self.byte_range.start as int,
            to: self.byte_range.end as int,
            start_del: self.start_del@,
            end_del: self.end_del@,
        }
    }
}

impl<'a> Clone for Content<'a> {
    fn clone(&self) -> (copy: Self)
        ensures
            copy == *self,
    {
        Content {
            s: self.s,
            start: self.start,
            end: self.end,
            byte_range: self.byte_range.start..self.byte_range.end,
            start_del: self.start_del,
            end_del: self.end_del,
        }
    }
}

impl<'a> Content<'a> {
    /// The text of the span.
    pub fn as_str(&self) -> (text: &'a str)
        ensures
            text.spec_bytes() == self@.text,
    {
        self.s
    }

    /// Whether the byte range is as long as the text.
    pub fn is_well_formed(&self) -> (ok: bool)
        ensures
            ok == self@.well_formed(),
    {
        self.byte_range.start <= self.byte_range.end && self.byte_range.end
            - self.byte_range.start == self.s.as_bytes().len()
    }
}

/// A span together with what is to become of it.
#[derive(Debug)]
pub enum Tagged<'a> {
    /// A span that is to be classified and replaced, delimiters included.
    Replace(Content<'a>),
    /// A span that passes through unchanged.
    Keep(Content<'a>),
}

/// What a [`Tagged`] stands for.
pub struct TaggedModel {
    pub replace: bool,
    pub content: ContentModel,
}

impl<'a> View for Tagged<'a> {
    type V = TaggedModel;

    open spec fn view(&self) -> TaggedModel {
        match *self {
            Tagged::Replace(content) => TaggedModel { replace: true, content: content@ },
            Tagged::Keep(content) => TaggedModel { replace: false, content: content@ },
        }
    }
}

impl<'a> Clone for Tagged<'a> {
    fn clone(&self) -> (copy: Self)
        ensures
            copy == *self,
    {
        match self {
            Tagged::Replace(c) => Tagged::Replace(c.clone()),
            Tagged::Keep(c) => Tagged::Keep(c.clone()),
        }
    }
}

impl<'a> Tagged<'a> {
    /// The span, whatever is to become of it.
    pub fn as_ref(&self) -> (content: &Content<'a>)
        ensures
            content@ == self@.content,
    {
        match self {
            Tagged::Replace(c) => c,
            Tagged::Keep(c) => c,
        }
    }

    /// The span, whatever was to become of it.
    pub fn into(self) -> (content: Content<'a>)
        ensures
            content@ == self@.content,
    {
        match self {
            Tagged::Replace(c) => c,
            Tagged::Keep(c) => c,
        }
    }
}

/// The models of a sequence of spans.
pub open spec fn tagged_models(spans: Seq<Tagged<'_>>) -> Seq<TaggedModel> {
    Seq::new(spans.len(), |i: int| spans[i]@)
}

} // verus!
