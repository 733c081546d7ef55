//! Classification: what a span to replace holds.
//!
//! A block span is an equation or a figure-producing block, with a kind,
//! an identifier to refer to it and a title, all three taken from the
//! parameters behind its opening `$$`. An inline span is a reference of the
//! form `ref:<kind>:<id>` or else an equation.

use vstd::prelude::*;
use vstd::string::StringSliceAdditionalSpecFns;
use vstd::utf8::encode_utf8;
use crate::content::Content;
use crate::content::ContentModel;
use crate::text::find_byte;
use crate::text::find_first;
use crate::text::lemma_boundary_after_ascii;
use crate::text::lemma_find_first_bounds;
use crate::text::lemma_str_valid;
use crate::text::same_bytes;
use crate::text::slice_str;
use crate::text::starts_with_at;
use crate::text::trim_space;
use crate::text::trim_str;

verus! {

/// The byte of `:`, which parts the segments of a reference.
pub const COLON: u8 = 0x3A;

/// The byte of `,`, which parts the parameters of a block.
pub const COMMA: u8 = 0x2C;

/// Why a span could not be classified.
#[derive(Debug)]
pub enum Error {
    /// The kind of a reference or of a block is not a known one.
    UnknownRefKind { ref_kind: String },
    /// The text does not start with `ref`.
    MissingRefPrefix { s: String },
    /// A reference names no kind.
    MissingRefKind { s: String },
    /// A reference names no identifier.
    MissingIdentifier { s: String },
}

/// What an [`Error`] stands for: the texts are held as UTF-8 bytes.
pub enum ErrorModel {
    UnknownRefKind(Seq<u8>),
    MissingRefPrefix(Seq<u8>),
    MissingRefKind(Seq<u8>),
    MissingIdentifier(Seq<u8>),
}

impl View for Error {
    type V = ErrorModel;

    open spec fn view(&self) -> ErrorModel {
        match self {
            Error::UnknownRefKind { ref_kind } => ErrorModel::UnknownRefKind(
                encode_utf8(ref_kind@),
            ),
            Error::MissingRefPrefix { s } => ErrorModel::MissingRefPrefix(encode_utf8(s@)),
            Error::MissingRefKind { s } => ErrorModel::MissingRefKind(encode_utf8(s@)),
            Error::MissingIdentifier { s } => ErrorModel::MissingIdentifier(encode_utf8(s@)),
        }
    }
}

impl Error {
    /// The message of the error.
    pub fn to_string(&self) -> (message: String)
        ensures
            message@ == match self {
                Error::UnknownRefKind { ref_kind } => "Unknown reference type "@ + ref_kind@,
                Error::MissingRefPrefix { s } => "Doesn't have a `ref` prefix: "@ + s@,
                Error::MissingRefKind { s } => "Missing ref kind: "@ + s@,
                Error::MissingIdentifier { s } => "Missing identifier: "@ + s@,
            },
    {
        match self {
            Error::UnknownRefKind { ref_kind } => String::from_str(
                "Unknown reference type ",
            ).concat(ref_kind.as_str()),
            Error::MissingRefPrefix { s } => String::from_str(
                "Doesn't have a `ref` prefix: ",
            ).concat(s.as_str()),
            Error::MissingRefKind { s } => String::from_str("Missing ref kind: ").concat(
                s.as_str(),
            ),
            Error::MissingIdentifier { s } => String::from_str("Missing identifier: ").concat(
                s.as_str(),
            ),
        }
    }
}

/// What kind of thing a reference points to.
#[derive(Debug, Clone, Copy, Hash, PartialEq, Eq)]
pub enum RefKind {
    Equation,
    Figure,
    Bibliography,
}

/// The kind that a token names in a reference: `equ` or `equation`, `fig`
/// or `figure`, `bib` or `bibliography`.
pub open spec fn ref_kind_of(token: Seq<u8>) -> Option<RefKind> {
    if token == "equ".spec_bytes() || token == "equation".spec_bytes() {
        Some(RefKind::Equation)
    } else if token == "fig".spec_bytes() || token == "figure".spec_bytes() {
        Some(RefKind::Figure)
    } else if token == "bib".spec_bytes() || token == "bibliography".spec_bytes() {
        Some(RefKind::Bibliography)
    } else {
        None
    }
}

impl RefKind {
    /// A pictogram and a word for the kind.
    pub fn as_emoji_w_desc(&self) -> (pair: (&'static str, &'static str))
        ensures
            pair.0@ == match self {
                RefKind::Figure => "ðŸ“ˆ"@,
                RefKind::Equation => "ðŸ§®"@,
                RefKind::Bibliography => "ðŸ“š"@,
            },
            pair.1@ == match self {
                RefKind::Figure => "figure"@,
                RefKind::Equation => "equation"@,
                RefKind::Bibliography => "bibliography"@,
            },
    {
        match self {
            RefKind::Figure => ("ðŸ“ˆ", "figure"),
            RefKind::Equation => ("ðŸ§®", "equation"),
            RefKind::Bibliography => ("ðŸ“š", "bibliography"),
        }
    }

    /// The pictogram for the kind.
    pub fn as_emoji(&self) -> (emoji: &'static str)
        ensures
            emoji@ == match self {
                RefKind::Figure => "ðŸ“ˆ"@,
                RefKind::Equation => "ðŸ§®"@,
                RefKind::Bibliography => "ðŸ“š"@,
            },
    {
        self.as_emoji_w_desc().0
    }

    /// The word for the kind.
    pub fn as_desc(&self) -> (desc: &'static str)
        ensures
            desc@ == match self {
                RefKind::Figure => "figure"@,
                RefKind::Equation => "equation"@,
                RefKind::Bibliography => "bibliography"@,
            },
    {
        self.as_emoji_w_desc().1
    }

    /// The kind that `s` names, or the error that holds `s`.
    pub fn from_str(s: &str) -> (kind: Result<RefKind, Error>)
        ensures
            match kind {
                Ok(k) => ref_kind_of(s.spec_bytes()) == Some(k),
                Err(e) => ref_kind_of(s.spec_bytes()) is None && e@ == ErrorModel::UnknownRefKind(
                    s.spec_bytes(),
                ),
            },
    {
        let token = s.as_bytes();
        if same_bytes(token, "equ".as_bytes()) || same_bytes(token, "equation".as_bytes()) {
            Ok(RefKind::Equation)
        } else if same_bytes(token, "fig".as_bytes()) || same_bytes(token, "figure".as_bytes()) {
            Ok(RefKind::Figure)
        } else if same_bytes(token, "bib".as_bytes()) || same_bytes(
            token,
            "bibliography".as_bytes(),
        ) {
            Ok(RefKind::Bibliography)
        } else {
            Err(Error::UnknownRefKind { ref_kind: s.to_owned() })
        }
    }
}

/// A reference: the identifier it names and the kind of thing it points
/// to. The prefix `ref:` is not part of it.
#[derive(Debug, Clone, Copy, Hash, PartialEq, Eq)]
pub struct Reference<'a> {
    /// The identifier under which the target is looked up.
    pub refere: &'a str,
    /// The kind of thing that the reference points to.
    pub ref_kind: RefKind,
}

/// What a [`Reference`] stands for.
pub struct ReferenceModel {
    pub refere: Seq<u8>,
    pub ref_kind: RefKind,
}

impl<'a> View for Reference<'a> {
    type V = ReferenceModel;

    open spec fn view(&self) -> ReferenceModel {
        ReferenceModel { refere: self.refere.spec_bytes(), ref_kind: self.ref_kind }
    }
}

/// The reference that `text` holds, of the form `<kind>:<id>`: the kind is
/// what stands before the first colon, the identifier what stands between
/// the first colon and the second, or the end. An unknown kind is an error,
/// and so is a text without a colon.
pub open spec fn parse_reference(text: Seq<u8>) -> Result<ReferenceModel, ErrorModel> {
    let first = find_first(text, COLON, 0);
    let token = text.subrange(0, first);
    match ref_kind_of(token) {
        None => Err(ErrorModel::UnknownRefKind(token)),
        Some(ref_kind) => {
            if first >= text.len() {
                Err(ErrorModel::MissingIdentifier(text))
            } else {
                let second = find_first(text, COLON, first + 1);
                Ok(ReferenceModel { refere: text.subrange(first + 1, second), ref_kind })
            }
        },
    }
}

impl<'a> Reference<'a> {
    /// Reads a reference of the form `<kind>:<id>`.
    pub fn from_str<'b>(s: &'b str) -> (reference: Result<Self, Error>) where 'b: 'a
        ensures
            match reference {
                Ok(r) => parse_reference(s.spec_bytes()) == Ok::<ReferenceModel, ErrorModel>(r@),
                Err(e) => parse_reference(s.spec_bytes()) == Err::<ReferenceModel, ErrorModel>(
                    e@,
                ),
            },
    {
        let text = s.as_bytes();
        let len = text.len();
        let first = find_byte(text, COLON, 0);
        proof {
            lemma_str_valid(s);
            lemma_find_first_bounds(text@, COLON, 0);
            if first < len {
                lemma_boundary_after_ascii(text@, first as int);
            }
            crate::text::lemma_boundary(text@, 0);
        }
        let token = slice_str(s, 0, first);
        let ref_kind = match RefKind::from_str(token) {
            Ok(kind) => kind,
            Err(e) => {
                return Err(e);
            },
        };
        if first >= len {
            assert(text@.subrange(0, len as int) =~= text@);
            return Err(Error::MissingIdentifier { s: s.to_owned() });
        }
        let second = find_byte(text, COLON, first + 1);
        proof {
            lemma_find_first_bounds(text@, COLON, first + 1);
            if second < len {
                lemma_boundary_after_ascii(text@, second as int);
            }
        }
        Ok(Reference { refere: slice_str(s, first + 1, second), ref_kind })
    }
}

/// The kind of a block.
#[derive(Debug, Clone, Copy, Hash, PartialEq, Eq)]
pub enum EquBlockKind {
    Latex,
    GnuPlot,
    GnuPlotOnly,
    Equation,
}

/// The kind that a token names in the parameters of a block: `gnuplot`,
/// `gnuplotonly`, and `equ` or `equation`.
pub open spec fn block_kind_of(token: Seq<u8>) -> Option<EquBlockKind> {
    if token == "gnuplot".spec_bytes() {
        Some(EquBlockKind::GnuPlot)
    } else if token == "gnuplotonly".spec_bytes() {
        Some(EquBlockKind::GnuPlotOnly)
    } else if token == "equ".spec_bytes() || token == "equation".spec_bytes() {
        Some(EquBlockKind::Equation)
    } else {
        None
    }
}

impl EquBlockKind {
    /// A pictogram and a word for the kind.
    pub fn as_emoji_w_desc(&self) -> (pair: (&'static str, &'static str))
        ensures
            pair.0@ == match self {
                EquBlockKind::Latex => "ðŸŒ‹"@,
                EquBlockKind::Equation => "ðŸ§®"@,
                EquBlockKind::GnuPlot | EquBlockKind::GnuPlotOnly => "ðŸ“ˆ"@,
            },
            pair.1@ == match self {
                EquBlockKind::Latex => "tex"@,
                EquBlockKind::Equation => "equation"@,
                EquBlockKind::GnuPlot | EquBlockKind::GnuPlotOnly => "figure"@,
            },
    {
        match self {
            EquBlockKind::Latex => ("ðŸŒ‹", "tex"),
            EquBlockKind::Equation => ("ðŸ§®", "equation"),
            EquBlockKind::GnuPlot | EquBlockKind::GnuPlotOnly => ("ðŸ“ˆ", "figure"),
        }
    }

    /// The pictogram for the kind.
    pub fn as_emoji(&self) -> (emoji: &'static str)
        ensures
            emoji@ == match self {
                EquBlockKind::Latex => "ðŸŒ‹"@,
                EquBlockKind::Equation => "ðŸ§®"@,
                EquBlockKind::GnuPlot | EquBlockKind::GnuPlotOnly => "ðŸ“ˆ"@,
            },
    {
        self.as_emoji_w_desc().0
    }

    /// The word for the kind.
    pub fn as_desc(&self) -> (desc: &'static str)
        ensures
            desc@ == match self {
                EquBlockKind::Latex => "tex"@,
                EquBlockKind::Equation => "equation"@,
                EquBlockKind::GnuPlot | EquBlockKind::GnuPlotOnly => "figure"@,
            },
    {
        self.as_emoji_w_desc().1
    }

    /// The kind that `s` names, or the error that holds `s`.
    pub fn from_str(s: &str) -> (kind: Result<EquBlockKind, Error>)
        ensures
            match kind {
                Ok(k) => block_kind_of(s.spec_bytes()) == Some(k),
                Err(e) => block_kind_of(s.spec_bytes()) is None && e@
                    == ErrorModel::UnknownRefKind(s.spec_bytes()),
            },
    {
        let token = s.as_bytes();
        if same_bytes(token, "gnuplot".as_bytes()) {
            Ok(EquBlockKind::GnuPlot)
        } else if same_bytes(token, "gnuplotonly".as_bytes()) {
            Ok(EquBlockKind::GnuPlotOnly)
        } else if same_bytes(token, "equ".as_bytes()) || same_bytes(token, "equation".as_bytes()) {
            Ok(EquBlockKind::Equation)
        } else {
            Err(Error::UnknownRefKind { ref_kind: s.to_owned() })
        }
    }
}

/// A block: an equation or a figure-producing block, with the identifier
/// under which it can be referred to and its title, where it has them.
#[derive(Debug, Hash, PartialEq, Eq)]
pub struct BlockEqu<'a> {
    /// The span that the block was read from.
    pub content: &'a Content<'a>,
    /// The kind of the block.
    pub kind: EquBlockKind,
    /// The identifier of the block.
    pub refer: Option<&'a str>,
    /// The title of the block.
    pub title: Option<&'a str>,
}

/// What a [`BlockEqu`] stands for.
pub struct BlockEquModel {
    pub content: ContentModel,
    pub kind: EquBlockKind,
    pub refer: Option<Seq<u8>>,
    pub title: Option<Seq<u8>>,
}

impl<'a> View for BlockEqu<'a> {
    type V = BlockEquModel;

    open spec fn view(&self) -> BlockEquModel {
        BlockEquModel {
            content: self.content@,
            kind: self.kind,
            refer: match self.refer {
                Some(t) => Some(t.spec_bytes()),
                None => None,
            },
            title: match self.title {
                Some(t) => Some(t.spec_bytes()),
                None => None,
            },
        }
    }
}

impl<'a> Clone for BlockEqu<'a> {
    fn clone(&self) -> (copy: Self)
        ensures
            copy == *self,
    {
        BlockEqu { content: self.content, kind: self.kind, refer: self.refer, title: self.title }
    }
}

/// The first of the parameters of a block, without white space around it:
/// what stands before the first comma.
pub open spec fn kind_field(parameters: Seq<u8>) -> Seq<u8> {
    trim_space(parameters.subrange(0, find_first(parameters, COMMA, 0)))
}

/// The second of the parameters of a block, without white space around it:
/// what stands between the first comma and the second, or the end. There
/// is none without a first comma.
pub open spec fn refer_field(parameters: Seq<u8>) -> Option<Seq<u8>> {
    let first = find_first(parameters, COMMA, 0);
    if first >= parameters.len() {
        None
    } else {
        Some(
            trim_space(parameters.subrange(first + 1, find_first(parameters, COMMA, first + 1))),
        )
    }
}

/// The third of the parameters of a block, without white space around it:
/// all that stands behind the second comma. There is none without a second
/// comma.
pub open spec fn title_field(parameters: Seq<u8>) -> Option<Seq<u8>> {
    let first = find_first(parameters, COMMA, 0);
    if first >= parameters.len() {
        None
    } else {
        let second = find_first(parameters, COMMA, first + 1);
        if second >= parameters.len() {
            None
        } else {
            Some(trim_space(parameters.subrange(second + 1, parameters.len() as int)))
        }
    }
}

/// The block that a span holds. Without parameters it is an equation
/// without identifier or title. With parameters, the first names the kind,
/// and an unknown kind is an error.
pub open spec fn classify_block(content: ContentModel) -> Result<BlockEquModel, ErrorModel> {
    match content.trim().parameters {
        None => Ok(
            BlockEquModel { content, kind: EquBlockKind::Equation, refer: None, title: None },
        ),
        Some(parameters) => match block_kind_of(kind_field(parameters)) {
            None => Err(ErrorModel::UnknownRefKind(kind_field(parameters))),
            Some(kind) => Ok(
                BlockEquModel {
                    content,
                    kind,
                    refer: refer_field(parameters),
                    title: title_field(parameters),
                },
            ),
        },
    }
}

impl<'a> BlockEqu<'a> {
    /// Reads the block that `content` holds.
    pub fn try_from(content: &'a Content<'a>) -> (block: Result<Self, Error>)
        requires
            content@.trimmable(),
        ensures
            match block {
                Ok(b) => classify_block(content@) == Ok::<BlockEquModel, ErrorModel>(b@),
                Err(e) => classify_block(content@) == Err::<BlockEquModel, ErrorModel>(e@),
            },
    {
        let payload = content.trimmed();
        let parameters = match payload.parameters {
            None => {
                return Ok(
                    BlockEqu { content, kind: EquBlockKind::Equation, refer: None, title: None },
                );
            },
            Some(parameters) => parameters,
        };
        let text = parameters.as_bytes();
        let len = text.len();
        let first = find_byte(text, COMMA, 0);
        proof {
            lemma_str_valid(parameters);
            lemma_find_first_bounds(text@, COMMA, 0);
            if first < len {
                lemma_boundary_after_ascii(text@, first as int);
            }
            crate::text::lemma_boundary(text@, 0);
        }
        let kind = match EquBlockKind::from_str(trim_str(slice_str(parameters, 0, first))) {
            Ok(kind) => kind,
            Err(e) => {
                return Err(e);
            },
        };
        if first >= len {
            return Ok(BlockEqu { content, kind, refer: None, title: None });
        }
        let second = find_byte(text, COMMA, first + 1);
        proof {
            lemma_find_first_bounds(text@, COMMA, first + 1);
            if second < len {
                lemma_boundary_after_ascii(text@, second as int);
            }
        }
        let refer = Some(trim_str(slice_str(parameters, first + 1, second)));
        let title = if second >= len {
            None
        } else {
            Some(trim_str(slice_str(parameters, second + 1, len)))
        };
        Ok(BlockEqu { content, kind, refer, title })
    }
}

/// An inline equation: the span that holds it.
#[derive(Debug, Hash, PartialEq, Eq)]
pub struct InlineEqu<'a> {
    pub content: &'a Content<'a>,
}

impl<'a> Clone for InlineEqu<'a> {
    fn clone(&self) -> (copy: Self)
        ensures
            copy == *self,
    {
        InlineEqu { content: self.content }
    }
}

impl<'a> InlineEqu<'a> {
    /// The inline equation that `value` holds.
    pub fn from(value: &'a Content<'a>) -> (equation: Self)
        ensures
            equation.content == value,
    {
        InlineEqu { content: value }
    }
}

/// What an inline span holds: a reference or an equation.
#[derive(Debug, Hash, PartialEq, Eq)]
pub enum Inline<'a> {
    /// A reference to a block, a figure or an entry of the bibliography.
    Reference(Reference<'a>),
    /// An equation.
    Equation(InlineEqu<'a>),
}

/// What an [`Inline`] stands for.
pub enum InlineModel {
    Reference(ReferenceModel),
    Equation(ContentModel),
}

impl<'a> View for Inline<'a> {
    type V = InlineModel;

    open spec fn view(&self) -> InlineModel {
        match self {
            Inline::Reference(r) => InlineModel::Reference(r@),
            Inline::Equation(e) => InlineModel::Equation(e.content@),
        }
    }
}

impl<'a> Clone for Inline<'a> {
    fn clone(&self) -> (copy: Self)
        ensures
            copy == *self,
    {
        match self {
            Inline::Reference(r) => Inline::Reference(*r),
            Inline::Equation(e) => Inline::Equation(e.clone()),
        }
    }
}

/// What an inline span holds: where its payload starts with `ref:`, the
/// reference that stands behind that prefix, and else an equation.
pub open spec fn classify_inline(content: ContentModel) -> Result<InlineModel, ErrorModel> {
    let payload = content.trim().text;
    let prefix = "ref:".spec_bytes();
    if prefix.is_prefix_of(payload) {
        match parse_reference(payload.subrange(prefix.len() as int, payload.len() as int)) {
            Ok(reference) => Ok(InlineModel::Reference(reference)),
            Err(e) => Err(e),
        }
    } else {
        Ok(InlineModel::Equation(content))
    }
}

impl<'a> Inline<'a> {
    /// Reads what the inline span `content` holds.
    pub fn try_from(content: &'a Content<'a>) -> (inline: Result<Self, Error>)
        requires
            content@.trimmable(),
        ensures
            match inline {
                Ok(i) => classify_inline(content@) == Ok::<InlineModel, ErrorModel>(i@),
                Err(e) => classify_inline(content@) == Err::<InlineModel, ErrorModel>(e@),
            },
    {
        let payload = content.trimmed().trimmed;
        let text = payload.as_bytes();
        let len = text.len();
        let prefix = "ref:";
        let skip = prefix.as_bytes().len();
        let found = starts_with_at(text, 0, len, prefix.as_bytes());
        assert(text@.subrange(0, len as int) =~= text@);
        if found {
            proof {
                lemma_str_valid(payload);
                reveal_strlit("ref:");
                vstd::string::is_ascii_spec_bytes(prefix);
                assert(prefix.spec_bytes().len() == 4);
                let head = text@.subrange(0, 4);
                assert(head[3] == prefix.spec_bytes()[3]);
                assert(text@[3] < 0x80);
                lemma_boundary_after_ascii(text@, 3);
            }
            match Reference::from_str(slice_str(payload, skip, len)) {
                Ok(reference) => Ok(Inline::Reference(reference)),
                Err(e) => Err(e),
            }
        } else {
            Ok(Inline::Equation(InlineEqu::from(content)))
        }
    }
}

/// What a span to replace holds.
#[derive(Debug, Hash, PartialEq, Eq)]
pub enum Item<'a> {
    /// An inline span: a reference or an equation.
    Inline(Inline<'a>),
    /// A block: an equation or a figure-producing block.
    Block(BlockEqu<'a>),
}

/// What an [`Item`] stands for.
pub enum ItemModel {
    Inline(InlineModel),
    Block(BlockEquModel),
}

impl<'a> View for Item<'a> {
    type V = ItemModel;

    open spec fn view(&self) -> ItemModel {
        match self {
            Item::Inline(i) => ItemModel::Inline(i@),
            Item::Block(b) => ItemModel::Block(b@),
        }
    }
}

impl<'a> Clone for Item<'a> {
    fn clone(&self) -> (copy: Self)
        ensures
            copy == *self,
    {
        match self {
            Item::Inline(i) => Item::Inline(i.clone()),
            Item::Block(b) => Item::Block(b.clone()),
        }
    }
}

/// What a span holds: a block where one of its delimiters is a block
/// delimiter, and else what an inline span holds.
pub open spec fn classify(content: ContentModel) -> Result<ItemModel, ErrorModel> {
    if content.start_del.is_block() || content.end_del.is_block() {
        match classify_block(content) {
            Ok(block) => Ok(ItemModel::Block(block)),
            Err(e) => Err(e),
        }
    } else {
        match classify_inline(content) {
            Ok(inline) => Ok(ItemModel::Inline(inline)),
            Err(e) => Err(e),
        }
    }
}

impl<'a> Item<'a> {
    /// Classifies the span `content`.
    ///
    /// The span has to be one that can be trimmed, which
    /// [`Content::try_trimmed`] finds out.
    pub fn try_from(content: &'a Content<'a>) -> (item: Result<Self, Error>)
        requires
            content@.trimmable(),
        ensures
            match item {
                Ok(i) => classify(content@) == Ok::<ItemModel, ErrorModel>(i@),
                Err(e) => classify(content@) == Err::<ItemModel, ErrorModel>(e@),
            },
    {
        if content.start_del.is_block() || content.end_del.is_block() {
            match BlockEqu::try_from(content) {
                Ok(block) => Ok(Item::Block(block)),
                Err(e) => Err(e),
            }
        } else {
            match Inline::try_from(content) {
                Ok(inline) => Ok(Item::Inline(inline)),
                Err(e) => Err(e),
            }
        }
    }
}

} // verus!
