//! The writer: the events of a Markdown document, written as LaTeX.
//!
//! A Markdown parser reports a document as a run of events. The writer
//! takes them one by one and adds to its output what stands for each in
//! LaTeX. What an event needs from outside of the text is part of the
//! event: the title of the file that a link leads to, the path under which
//! an image was found, the LaTeX that a piece of HTML was turned into.

use vstd::prelude::*;
use vstd::string::StringSliceAdditionalSpecFns;
use vstd::utf8::decode_utf8;
use vstd::utf8::encode_utf8;
use vstd::utf8::encode_utf8_decode_utf8;
use crate::content::Content;
use crate::item::classify;
use crate::item::COMMA;
use crate::item::Error;
use crate::item::ErrorModel;
use crate::replace::escape_text;
use crate::replace::escaped;
use crate::replace::replace_text;
use crate::replace::replaced_text;
use crate::tex::index_of;
use crate::tex::math_to_tex;
use crate::tex::parse_index;
use crate::tex::tex_of;
use crate::text::find_byte;
use crate::text::find_first;
use crate::text::lemma_boundary;
use crate::text::lemma_boundary_after_ascii;
use crate::text::lemma_bytes_not_empty;
use crate::text::lemma_chars_of_bytes;
use crate::text::lemma_find_first_bounds;
use crate::text::lemma_line_break_is_find_first;
use crate::text::lemma_str_valid;
use crate::text::LF;
use crate::text::line_break;
use crate::text::on_boundary;
use crate::text::slice_str;
use crate::text::starts_with_at;

verus! {

/// What the writer has last come into.
#[derive(Debug, Clone, Copy, PartialEq, Eq)]
pub enum EventType {
    Code,
    Emphasis,
    Header,
    Html,
    Strong,
    Table,
    TableHead,
    Text,
}

/// What the writer is in at present.
#[derive(Debug, Clone, Copy)]
pub struct CurrentType {
    pub event_type: EventType,
}

/// The level of a heading.
#[derive(Debug, Clone, Copy, PartialEq, Eq)]
pub enum HeadingLevel {
    H1,
    H2,
    H3,
    H4,
    H5,
    H6,
}

/// One event of a Markdown document, with what it needs from outside of
/// the text.
#[derive(Debug, Clone, Copy)]
pub enum TexEvent<'a> {
    StartHeading(HeadingLevel),
    EndHeading,
    StartEmphasis,
    EndEmphasis,
    StartStrong,
    EndStrong,
    StartList { ordered: bool },
    EndList { ordered: bool },
    StartParagraph,
    EndParagraph,
    /// A link to `url`. For a link into the book, `title` is the title of
    /// the file that it leads to, where that file was found.
    StartLink { url: &'a str, title: Option<&'a str> },
    EndLink,
    StartTable,
    StartTableHead,
    EndTableHead,
    /// The end of a table. `width` is the share of the width of the text
    /// that each column gets, as a decimal fraction.
    EndTable { width: &'a str },
    StartTableCell,
    EndTableCell,
    StartTableRow,
    EndTableRow,
    /// An image, with the path under which it was found.
    StartImage { path: &'a str, caption: &'a str },
    StartItem,
    EndItem,
    /// A block of code, with the line behind its fence where it has one.
    StartCodeBlock { language: Option<&'a str> },
    EndCodeBlock,
    Code(&'a str),
    /// A piece of HTML, with the LaTeX that it was turned into.
    Html(&'a str),
    Text(&'a str),
    SoftBreak,
    HardBreak,
    /// Any other event: it leaves no trace.
    Other,
}

/// The state of a writer: what it has written and what it is in.
#[derive(Debug)]
pub struct TexWriter {
    /// What has been written so far.
    pub output: String,
    /// What the writer is in at present.
    pub current: CurrentType,
    /// The number of cells in the head of the table that is being
    /// written.
    pub cells: usize,
    /// Whether the writer is inside a block of code.
    pub is_code: bool,
}

/// What a [`TexWriter`] stands for.
pub struct WriterModel {
    pub output: Seq<char>,
    pub current: EventType,
    pub cells: nat,
    pub is_code: bool,
}

impl View for TexWriter {
    type V = WriterModel;

    open spec fn view(&self) -> WriterModel {
        WriterModel {
            output: self.output@,
            current: self.current.event_type,
            cells: self.cells as nat,
            is_code: self.is_code,
        }
    }
}

/// The kebab case form of a text, as the crate `Inflector` gives it.
pub uninterp spec fn kebab_case_of(text: Seq<char>) -> Seq<char>;

/// `to_kebab_case` of the crate `Inflector`: the words of `s` in lower
/// case with `-` between them. The contract gives the result a name and
/// says no more of it. The function reserves twice the length of `s`, so
/// the text has to be so short that twice its length can be reserved.
#[verifier::external_body]
fn to_kebab_case(s: &str) -> (out: String)
    requires
        2 * s.spec_bytes().len() <= isize::MAX,
    ensures
        out@ == kebab_case_of(s@),
{
    inflector::cases::kebabcase::to_kebab_case(s)
}

/// The text under which a heading is labelled: none is kept.
pub open spec fn header_value() -> Seq<char> {
    ""@
}

/// What ends a heading: the closing brace and two labels, the text of the
/// heading as it is and in kebab case.
pub open spec fn heading_end(header: Seq<char>, kebab: Seq<char>) -> Seq<char> {
    "}\n\\label{"@ + header + "}\n\\label{"@ + kebab + "}\n"@
}

/// The command that opens a heading of a level.
pub open spec fn heading_command(level: HeadingLevel) -> Seq<char> {
    match level {
        HeadingLevel::H1 => "\\chapter{"@,
        HeadingLevel::H2 => "\\section{"@,
        HeadingLevel::H3 => "\\subsection{"@,
        HeadingLevel::H4 => "\\subsubsection{"@,
        HeadingLevel::H5 => "\\paragraph{"@,
        HeadingLevel::H6 => "\\subparagraph{"@,
    }
}

/// Whether the last two bytes of what was written can be taken back.
pub open spec fn can_shorten(output: Seq<char>) -> bool {
    encode_utf8(output).len() >= 2 && on_boundary(encode_utf8(output), encode_utf8(output).len() - 2)
}

/// What was written, without its last two bytes.
pub open spec fn shortened(output: Seq<char>) -> Seq<char> {
    decode_utf8(encode_utf8(output).subrange(0, encode_utf8(output).len() - 2))
}

/// The columns of a table: for each cell of its head one column of the
/// given width.
pub open spec fn columns(width: Seq<char>, cells: nat) -> Seq<char>
    decreases cells,
{
    if cells == 0 {
        Seq::empty()
    } else {
        columns(width, (cells - 1) as nat) + "C{"@ + width + "\\textwidth} "@
    }
}

/// What was written, with the columns in the place that was kept for
/// them.
pub open spec fn with_columns(output: Seq<char>, columns: Seq<char>) -> Seq<char> {
    decode_utf8(
        replaced_text(encode_utf8(output), 0, "!!!".spec_bytes(), encode_utf8(columns)),
    )
}

/// Inline code as it is written: an ellipsis becomes three dots and the
/// Cyrillic letter Ze the digit three; in a heading `#` gets a backslash,
/// elsewhere the replacement character does.
pub open spec fn inline_code(text: Seq<u8>, in_header: bool) -> Seq<u8> {
    if in_header {
        let hashes = replaced_text(text, 0, "#".spec_bytes(), "\\#".spec_bytes());
        let dots = replaced_text(hashes, 0, "…".spec_bytes(), "...".spec_bytes());
        replaced_text(dots, 0, "З".spec_bytes(), "3".spec_bytes())
    } else {
        let dots = replaced_text(text, 0, "…".spec_bytes(), "...".spec_bytes());
        let threes = replaced_text(dots, 0, "З".spec_bytes(), "3".spec_bytes());
        replaced_text(threes, 0, "�".spec_bytes(), "\\�".spec_bytes())
    }
}

/// The language of a block of code: the line behind its fence, without
/// what stands from the first comma to the end of the line.
pub open spec fn language_of(line: Seq<u8>) -> Seq<u8> {
    let comma = find_first(line, COMMA, 0);
    if comma >= line.len() {
        line
    } else {
        line.subrange(0, comma) + line.subrange(line_break(line, comma), line.len() as int)
    }
}

/// Where a link into the book leads: the title of the file where one was
/// found, and else the address without any `#`.
pub open spec fn link_target(url: &str, title: Option<&str>) -> Seq<char> {
    match title {
        Some(t) => t@,
        None => decode_utf8(
            replaced_text(url.spec_bytes(), 0, "#".spec_bytes(), "".spec_bytes()),
        ),
    }
}

/// What is added to the output for an event.
pub open spec fn appended(writer: WriterModel, event: TexEvent<'_>) -> Seq<char> {
    match event {
        TexEvent::StartHeading(level) => "\n"@ + heading_command(level),
        TexEvent::EndHeading => heading_end(header_value(), kebab_case_of(header_value())),
        TexEvent::StartEmphasis => "\\emph{"@,
        TexEvent::EndEmphasis => "}"@,
        TexEvent::StartStrong => "\\textbf{"@,
        TexEvent::EndStrong => "}"@,
        TexEvent::StartList { ordered } => if ordered {
            "\\begin{enumerate}\n"@
        } else {
            "\\begin{itemize}\n"@
        },
        TexEvent::EndList { ordered } => if ordered {
            "\\end{enumerate}\n"@
        } else {
            "\\end{itemize}\n"@
        },
        TexEvent::StartParagraph => "\n"@,
        TexEvent::EndParagraph => "~\\\\\n"@,
        TexEvent::StartLink { url, title } => if "http".spec_bytes().is_prefix_of(
            url.spec_bytes(),
        ) {
            "\\href{"@ + url@ + "}{"@
        } else {
            "\\hyperref["@ + link_target(url, title) + "]{"@
        },
        TexEvent::EndLink => "}"@,
        TexEvent::StartTable => "\n\n\\begingroup\n\\setlength{\\LTleft}{-20cm plus -1fill}\n\\setlength{\\LTright}{\\LTleft}\n\\begin{longtable}{!!!}\n\\hline\n\\hline\n\n\n"@,
        TexEvent::StartTableHead => Seq::empty(),
        TexEvent::EndTableHead => "\\\\\n\\hline\n"@,
        TexEvent::EndTable { width } => "\\arrayrulecolor{black}\\hline\n\\end{longtable}\n\\endgroup\n\n\n"@,
        TexEvent::StartTableCell => if writer.current == EventType::TableHead {
            "\\bfseries{"@
        } else {
            Seq::empty()
        },
        TexEvent::EndTableCell => if writer.current == EventType::TableHead {
            "}"@ + " & "@
        } else {
            " & "@
        },
        TexEvent::StartTableRow => Seq::empty(),
        TexEvent::EndTableRow => "\\\\\\arrayrulecolor{lightgray}\\hline\n"@,
        TexEvent::StartImage { path, caption } => "\\begin{figure}%\n\\centering%\n\\includegraphics[width=\\textwidth]{"@
            + path@
            + "}%\n\\caption{"@
            + caption@
            + "}%\n\\end{figure}%\n"@,
        TexEvent::StartItem => "\\item "@,
        TexEvent::EndItem => "\n"@,
        TexEvent::StartCodeBlock { language } => match language {
            Some(line) => "\\begin{lstlisting}[language="@ + decode_utf8(language_of(line.spec_bytes()))
                + "]\n"@,
            None => "\\begin{lstlisting}\n"@,
        },
        TexEvent::EndCodeBlock => "\n\\end{lstlisting}\n"@,
        TexEvent::Code(text) => "\\lstinline|"@ + decode_utf8(
            inline_code(text.spec_bytes(), writer.current == EventType::Header),
        ) + "|"@,
        TexEvent::Html(tex) => tex@,
        TexEvent::Text(text) => if writer.is_code {
            text@
        } else {
            decode_utf8(escaped(text.spec_bytes()))
        },
        TexEvent::SoftBreak => "\n"@,
        TexEvent::HardBreak => "\n\\\\"@,
        TexEvent::Other => Seq::empty(),
    }
}

/// What the writer is in behind an event.
pub open spec fn entered(writer: WriterModel, event: TexEvent<'_>) -> EventType {
    match event {
        TexEvent::StartHeading(_) => EventType::Header,
        TexEvent::StartEmphasis => EventType::Emphasis,
        TexEvent::StartStrong => EventType::Strong,
        TexEvent::StartTable => EventType::Table,
        TexEvent::StartTableHead => EventType::TableHead,
        TexEvent::EndTableHead => EventType::Table,
        TexEvent::EndTable { width } => EventType::Text,
        TexEvent::StartTableRow => EventType::Table,
        TexEvent::StartCodeBlock { language } => EventType::Code,
        TexEvent::EndCodeBlock => EventType::Text,
        TexEvent::Html(_) => EventType::Text,
        _ => writer.current,
    }
}

/// The writer behind an event. The end of the head of a table and the end
/// of a row take back the last two bytes before they add their own. The
/// end of a table puts the columns in the place that the start of the
/// table has kept for them, and in any other such place.
pub open spec fn written(writer: WriterModel, event: TexEvent<'_>) -> WriterModel {
    let base = if event is EndTableHead || event is EndTableRow {
        shortened(writer.output)
    } else {
        writer.output
    };
    let joined = base + appended(writer, event);
    WriterModel {
        output: match event {
            TexEvent::EndTable { width } => with_columns(joined, columns(width@, writer.cells)),
            _ => joined,
        },
        current: entered(writer, event),
        cells: match event {
            TexEvent::EndTable { width } => 0,
            TexEvent::EndTableCell => if writer.current == EventType::TableHead {
                writer.cells + 1
            } else {
                writer.cells
            },
            _ => writer.cells,
        },
        is_code: match event {
            TexEvent::StartCodeBlock { language } => true,
            TexEvent::EndCodeBlock => false,
            _ => writer.is_code,
        },
    }
}

/// Whether the writer can take an event: the end of the head of a table
/// and the end of a row need two bytes that they can take back, and the
/// cells of a head must stay countable.
pub open spec fn takes(writer: WriterModel, event: TexEvent<'_>) -> bool {
    &&& event is EndTableHead || event is EndTableRow ==> can_shorten(writer.output)
    &&& event is EndTableCell && writer.current == EventType::TableHead ==> writer.cells
        < usize::MAX
}

/// Why mathematics could not be written.
#[derive(Debug)]
pub enum TexError {
    /// The text that stands for a span is not the number of one.
    ParseInt(String),
    /// The span could not be classified.
    MathYank(Error),
}

/// What a [`TexError`] stands for.
pub enum TexErrorModel {
    ParseInt(Seq<char>),
    MathYank(ErrorModel),
}

impl View for TexError {
    type V = TexErrorModel;

    open spec fn view(&self) -> TexErrorModel {
        match self {
            TexError::ParseInt(text) => TexErrorModel::ParseInt(text@),
            TexError::MathYank(e) => TexErrorModel::MathYank(e@),
        }
    }
}

/// What ends a heading whose text is `header` and, in kebab case, `kebab`.
pub fn heading_end_text(header: &str, kebab: &str) -> (text: String)
    ensures
        text@ == heading_end(header@, kebab@),
{
    String::from_str("}\n\\label{").concat(header).concat("}\n\\label{").concat(kebab).concat(
        "}\n",
    )
}

/// The line behind the fence of a block of code, as its language.
fn language(line: &str) -> (out: String)
    ensures
        out@ == decode_utf8(language_of(line.spec_bytes())),
{
    let text = line.as_bytes();
    let len = text.len();
    let comma = find_byte(text, COMMA, 0);
    proof {
        lemma_chars_of_bytes(line);
    }
    if comma >= len {
        return String::from_str(line);
    }
    let end = find_byte(text, LF, comma);
    proof {
        lemma_str_valid(line);
        lemma_boundary(text@, 0);
        lemma_find_first_bounds(text@, COMMA, 0);
        lemma_find_first_bounds(text@, LF, comma as int);
        lemma_line_break_is_find_first(text@, comma as int);
        lemma_boundary_after_ascii(text@, comma as int);
        if end < len {
            lemma_boundary_after_ascii(text@, end as int);
        }
    }
    let head = slice_str(line, 0, comma);
    let tail = slice_str(line, end, len);
    let out = String::from_str(head).concat(tail);
    proof {
        crate::replace::lemma_encode_concat(head@, tail@);
        encode_utf8_decode_utf8(out@);
    }
    out
}

/// Inline code as it is written.
fn code_text(text: &str, in_header: bool) -> (out: String)
    ensures
        out@ == decode_utf8(inline_code(text.spec_bytes(), in_header)),
{
    proof {
        reveal_strlit("#");
        reveal_strlit("…");
        reveal_strlit("З");
        reveal_strlit("�");
        lemma_bytes_not_empty("#"@);
        lemma_bytes_not_empty("…"@);
        lemma_bytes_not_empty("З"@);
        lemma_bytes_not_empty("�"@);
    }
    if in_header {
        let hashes = replace_text(text, "#", "\\#");
        let dots = replace_text(hashes.as_str(), "…", "...");
        replace_text(dots.as_str(), "З", "3")
    } else {
        let dots = replace_text(text, "…", "...");
        let threes = replace_text(dots.as_str(), "З", "3");
        replace_text(threes.as_str(), "�", "\\�")
    }
}

/// The columns of a table.
fn column_text(width: &str, cells: usize) -> (out: String)
    ensures
        out@ == columns(width@, cells as nat),
{
    let mut out = String::new();
    let mut i: usize = 0;
    while i < cells
        invariant
            i <= cells,
            out@ == columns(width@, i as nat),
        decreases cells - i,
    {
        let ghost before = out@;
        out.append("C{");
        out.append(width);
        out.append("\\textwidth} ");
        i += 1;
        assert(out@ =~= before + "C{"@ + width@ + "\\textwidth} "@);
    }
    out
}

impl TexWriter {
    /// A writer that has written nothing yet.
    pub fn new() -> (writer: Self)
        ensures
            writer@ == (WriterModel {
                output: Seq::empty(),
                current: EventType::Text,
                cells: 0,
                is_code: false,
            }),
    {
        TexWriter {
            output: String::new(),
            current: CurrentType { event_type: EventType::Text },
            cells: 0,
            is_code: false,
        }
    }

    /// Whether the last two bytes of the output can be taken back, as the
    /// end of the head of a table and the end of a row do.
    pub fn can_shorten(&self) -> (ok: bool)
        ensures
            ok == can_shorten(self@.output),
    {
        let text = self.output.as_str().as_bytes();
        let len = text.len();
        if len < 2 {
            false
        } else {
            let b = text[len - 2];
            !(0x80 <= b && b <= 0xbf)
        }
    }

    /// Whether the writer can take `event`.
    pub fn takes(&self, event: &TexEvent<'_>) -> (ok: bool)
        ensures
            ok == takes(self@, *event),
    {
        match event {
            TexEvent::EndTableHead | TexEvent::EndTableRow => self.can_shorten(),
            TexEvent::EndTableCell => match self.current.event_type {
                EventType::TableHead => self.cells < usize::MAX,
                _ => true,
            },
            _ => true,
        }
    }

    /// Takes back the last two bytes of the output.
    fn shorten(&mut self)
        requires
            can_shorten(old(self)@.output),
        ensures
            final(self)@ == (WriterModel { output: shortened(old(self)@.output), ..old(self)@ }),
    {
        let text = self.output.as_str();
        let len = text.as_bytes().len();
        proof {
            lemma_str_valid(text);
            lemma_boundary(text.spec_bytes(), 0);
        }
        let kept = slice_str(text, 0, len - 2);
        proof {
            lemma_chars_of_bytes(kept);
        }
        let kept = String::from_str(kept);
        self.output = kept;
    }

    /// Whether the writer is in the head of a table.
    fn in_table_head(&self) -> (yes: bool)
        ensures
            yes == (self@.current == EventType::TableHead),
    {
        match self.current.event_type {
            EventType::TableHead => true,
            _ => false,
        }
    }

    /// Whether the writer is in a heading.
    fn in_header(&self) -> (yes: bool)
        ensures
            yes == (self@.current == EventType::Header),
    {
        match self.current.event_type {
            EventType::Header => true,
            _ => false,
        }
    }

    /// Writes what stands for `event` in LaTeX.
    ///
    /// The writer has to be able to take the event, which
    /// [`TexWriter::takes`] finds out.
    pub fn feed(&mut self, event: &TexEvent<'_>)
        requires
            takes(old(self)@, *event),
        ensures
            final(self)@ == written(old(self)@, *event),
    {
        let ghost before = self@;
        match event {
            TexEvent::StartHeading(level) => {
                self.current.event_type = EventType::Header;
                self.output.append("\n");
                self.output.append(
                    match level {
                        HeadingLevel::H1 => "\\chapter{",
                        HeadingLevel::H2 => "\\section{",
                        HeadingLevel::H3 => "\\subsection{",
                        HeadingLevel::H4 => "\\subsubsection{",
                        HeadingLevel::H5 => "\\paragraph{",
                        HeadingLevel::H6 => "\\subparagraph{",
                    },
                );
                assert(self.output@ =~= before.output + ("\n"@ + heading_command(*level)));
            },
            TexEvent::EndHeading => {
                let header = "";
                proof {
                    reveal_strlit("");
                    assert(header@ =~= Seq::<char>::empty());
                    assert(header.spec_bytes() =~= Seq::<u8>::empty());
                }
                let kebab = to_kebab_case(header);
                let added = heading_end_text(header, kebab.as_str());
                self.output.append(added.as_str());
            },
            TexEvent::StartEmphasis => {
                self.current.event_type = EventType::Emphasis;
                self.output.append("\\emph{");
            },
            TexEvent::EndEmphasis => {
                self.output.append("}");
            },
            TexEvent::StartStrong => {
                self.current.event_type = EventType::Strong;
                self.output.append("\\textbf{");
            },
            TexEvent::EndStrong => {
                self.output.append("}");
            },
            TexEvent::StartList { ordered } => {
                if *ordered {
                    self.output.append("\\begin{enumerate}\n");
                } else {
                    self.output.append("\\begin{itemize}\n");
                }
            },
            TexEvent::EndList { ordered } => {
                if *ordered {
                    self.output.append("\\end{enumerate}\n");
                } else {
                    self.output.append("\\end{itemize}\n");
                }
            },
            TexEvent::StartParagraph => {
                self.output.append("\n");
            },
            TexEvent::EndParagraph => {
                self.output.append("~\\\\\n");
            },
            TexEvent::StartLink { url, title } => {
                let address = url.as_bytes();
                let remote = starts_with_at(address, 0, address.len(), "http".as_bytes());
                assert(address@.subrange(0, address@.len() as int) =~= address@);
                let added = if remote {
                    String::from_str("\\href{").concat(url).concat("}{")
                } else {
                    let target = match title {
                        Some(t) => String::from_str(t),
                        None => {
                            proof {
                                reveal_strlit("#");
                                lemma_bytes_not_empty("#"@);
                            }
                            replace_text(url, "#", "")
                        },
                    };
                    String::from_str("\\hyperref[").concat(target.as_str()).concat(
                        "]{",
                    )
                };
                self.output.append(added.as_str());
            },
            TexEvent::EndLink => {
                self.output.append("}");
            },
            TexEvent::StartTable => {
                self.current.event_type = EventType::Table;
                self.output.append("\n\n\\begingroup\n\\setlength{\\LTleft}{-20cm plus -1fill}\n\\setlength{\\LTright}{\\LTleft}\n\\begin{longtable}{!!!}\n\\hline\n\\hline\n\n\n");
            },
            TexEvent::StartTableHead => {
                self.current.event_type = EventType::TableHead;
                assert(self.output@ =~= before.output + Seq::<char>::empty());
            },
            TexEvent::EndTableHead => {
                self.shorten();
                self.output.append("\\\\\n\\hline\n");
                self.current.event_type = EventType::Table;
            },
            TexEvent::EndTable { width } => {
                self.output.append("\\arrayrulecolor{black}\\hline\n\\end{longtable}\n\\endgroup\n\n\n");
                let cols = column_text(width, self.cells);
                proof {
                    reveal_strlit("!!!");
                    lemma_bytes_not_empty("!!!"@);
                }
                let filled = replace_text(self.output.as_str(), "!!!", cols.as_str());
                self.output = filled;
                self.cells = 0;
                self.current.event_type = EventType::Text;
            },
            TexEvent::StartTableCell => {
                if self.in_table_head() {
                    self.output.append("\\bfseries{");
                } else {
                    assert(self.output@ =~= before.output + Seq::<char>::empty());
                }
            },
            TexEvent::EndTableCell => {
                if self.in_table_head() {
                    self.output.append("}");
                    self.cells = self.cells + 1;
                    self.output.append(" & ");
                    assert(self.output@ =~= before.output + ("}"@ + " & "@));
                } else {
                    self.output.append(" & ");
                }
            },
            TexEvent::StartTableRow => {
                self.current.event_type = EventType::Table;
                assert(self.output@ =~= before.output + Seq::<char>::empty());
            },
            TexEvent::EndTableRow => {
                self.shorten();
                self.output.append("\\\\\\arrayrulecolor{lightgray}\\hline\n");
            },
            TexEvent::StartImage { path, caption } => {
                let added = String::from_str("\\begin{figure}%\n\\centering%\n\\includegraphics[width=\\textwidth]{")
                    .concat(path)
                    .concat("}%\n\\caption{")
                    .concat(
                    caption,
                ).concat("}%\n\\end{figure}%\n");
                self.output.append(added.as_str());
            },
            TexEvent::StartItem => {
                self.output.append("\\item ");
            },
            TexEvent::EndItem => {
                self.output.append("\n");
            },
            TexEvent::StartCodeBlock { language: line } => {
                self.is_code = true;
                self.current.event_type = EventType::Code;
                match line {
                    Some(line) => {
                        let name = language(line);
                        let added = String::from_str("\\begin{lstlisting}[language=").concat(
                            name.as_str(),
                        ).concat("]\n");
                        self.output.append(added.as_str());
                    },
                    None => {
                        self.output.append("\\begin{lstlisting}\n");
                    },
                }
            },
            TexEvent::EndCodeBlock => {
                self.output.append("\n\\end{lstlisting}\n");
                self.current.event_type = EventType::Text;
                self.is_code = false;
            },
            TexEvent::Code(text) => {
                let code = code_text(text, self.in_header());
                let added = String::from_str("\\lstinline|").concat(code.as_str()).concat(
                    "|",
                );
                self.output.append(added.as_str());
            },
            TexEvent::Html(tex) => {
                self.output.append(tex);
                self.current.event_type = EventType::Text;
            },
            TexEvent::Text(text) => {
                if self.is_code {
                    self.output.append(text);
                } else {
                    let plain = escape_text(text);
                    self.output.append(plain.as_str());
                }
            },
            TexEvent::SoftBreak => {
                self.output.append("\n");
            },
            TexEvent::HardBreak => {
                self.output.append("\n\\\\");
            },
            TexEvent::Other => {
                assert(self.output@ =~= before.output + Seq::<char>::empty());
            },
        }
    }

    /// Writes the span that `math` is the number of: the span is looked up
    /// among `equations`, classified and written as LaTeX. Where `math` is
    /// no number, or the span cannot be classified, nothing is written.
    ///
    /// Where `math` is a number, it has to be the number of one of the
    /// `equations`, and of one that can be trimmed.
    pub fn write_math<'a>(&mut self, math: &str, equations: &'a Vec<Content<'a>>) -> (done: Result<
        (),
        TexError,
    >)
        requires
            index_of(math.spec_bytes()) is Some ==> {
                &&& index_of(math.spec_bytes())->0 < equations@.len()
                &&& equations@[index_of(math.spec_bytes())->0 as int]@.trimmable()
            },
        ensures
            match index_of(math.spec_bytes()) {
                None => {
                    &&& done is Err
                    &&& done->Err_0@ == TexErrorModel::ParseInt(math@)
                    &&& final(self)@ == old(self)@
                },
                Some(number) => match classify(equations@[number as int]@) {
                    Ok(item) => done is Ok && final(self)@ == (WriterModel {
                        output: old(self)@.output + tex_of(item),
                        ..old(self)@
                    }),
                    Err(e) => {
                        &&& done is Err
                        &&& done->Err_0@ == TexErrorModel::MathYank(e)
                        &&& final(self)@ == old(self)@
                    },
                },
            },
    {
        let number = match parse_index(math) {
            Some(number) => number,
            None => {
                return Err(TexError::ParseInt(math.to_owned()));
            },
        };
        match math_to_tex(&equations[number]) {
            Ok(tex) => {
                self.output.append(tex.as_str());
                Ok(())
            },
            Err(e) => Err(TexError::MathYank(e)),
        }
    }
}

} // verus!
