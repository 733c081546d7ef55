//! What LaTeX says when it refuses an equation.
//!
//! LaTeX reports an error on a line that starts with `! `, and the place
//! of the error on a line that starts with `l.`, followed by the number of
//! the line and the input at which it stopped.

use vstd::prelude::*;
use vstd::string::StringSliceAdditionalSpecFns;
use vstd::utf8::decode_utf8;
use crate::errors::ScientificError;
use crate::errors::ScientificErrorModel;
use crate::tex::index_of;
use crate::tex::parse_index;
use crate::text::find_byte;
use crate::text::find_first;
use crate::text::lemma_boundary;
use crate::text::lemma_boundary_after_ascii;
use crate::text::lemma_chars_of_bytes;
use crate::text::lemma_find_first_bounds;
use crate::text::lemma_line_break_bounds;
use crate::text::lemma_line_break_is_find_first;
use crate::text::lemma_str_valid;
use crate::text::LF;
use crate::text::line_break;
use crate::text::on_boundary;
use crate::text::slice_str;
use crate::text::starts_with_at;
use crate::text::trim_space;
use crate::text::trim_str;

verus! {

/// The byte of a space.
pub const SPACE: u8 = 0x20;

/// Whether `pattern` stands somewhere in `text`.
pub open spec fn holds(text: Seq<u8>, pattern: Seq<u8>) -> bool {
    exists|i: int| 0 <= i <= text.len() && #[trigger] pattern.is_prefix_of(
        text.subrange(i, text.len() as int),
    )
}

/// Whether `pattern` stands somewhere in `text`.
pub fn contains(text: &[u8], pattern: &[u8]) -> (found: bool)
    ensures
        found == holds(text@, pattern@),
{
    let len = text.len();
    let mut i: usize = 0;
    while i < len
        invariant
            i <= len,
            len == text@.len(),
            forall|j: int|
                0 <= j < i ==> !(#[trigger] pattern@.is_prefix_of(
                    text@.subrange(j, text@.len() as int),
                )),
        decreases len - i,
    {
        if starts_with_at(text, i, len, pattern) {
            return true;
        }
        i += 1;
    }
    starts_with_at(text, len, len, pattern)
}

/// What is known of an error: the message, the input at which LaTeX
/// stopped, and the line of that input.
pub struct LatexError {
    pub message: Seq<u8>,
    pub at: Seq<u8>,
    pub line: usize,
}

/// What is known before any line was read: no message, no input, and the
/// largest number for the line.
pub open spec fn unknown_error() -> LatexError {
    LatexError { message: Seq::empty(), at: Seq::empty(), line: usize::MAX }
}

/// Whether a line reports an error or its place: it starts with `! ` or
/// with `l.`, and does not hold `Emergency stop`.
pub open spec fn reports(line: Seq<u8>) -> bool {
    ("! ".spec_bytes().is_prefix_of(line) || "l.".spec_bytes().is_prefix_of(line)) && !holds(
        line,
        "Emergency stop".spec_bytes(),
    )
}

/// What is known behind a line. A line that starts with `! ` gives the
/// message. A line that starts with `l.` gives the line, where a number
/// stands behind `l.`, and the input, where a space follows.
pub open spec fn note_line(line: Seq<u8>, known: LatexError) -> LatexError {
    if !reports(line) {
        known
    } else if "! ".spec_bytes().is_prefix_of(line) {
        LatexError { message: line.subrange(2, line.len() as int), ..known }
    } else {
        let rest = line.subrange(2, line.len() as int);
        let space = find_first(rest, SPACE, 0);
        let number = index_of(trim_space(rest.subrange(0, space)));
        let with_line = match number {
            Some(n) => LatexError { line: n, ..known },
            None => known,
        };
        if space < rest.len() {
            LatexError {
                at: trim_space(rest.subrange(space + 1, rest.len() as int)),
                ..with_line
            }
        } else {
            with_line
        }
    }
}

/// What is known behind the lines from the one that starts at `cursor`
/// on. Lines end at a line feed.
pub open spec fn note_lines(log: Seq<u8>, cursor: int, known: LatexError) -> LatexError
    decreases log.len() - cursor,
    via note_lines_decreases
{
    if cursor < 0 || cursor > log.len() {
        known
    } else {
        let end = line_break(log, cursor);
        let behind = note_line(log.subrange(cursor, end), known);
        if end < log.len() {
            note_lines(log, end + 1, behind)
        } else {
            behind
        }
    }
}

#[via_fn]
proof fn note_lines_decreases(log: Seq<u8>, cursor: int, known: LatexError) {
    if 0 <= cursor <= log.len() {
        lemma_line_break_bounds(log, cursor);
    }
}

/// The error that the output of LaTeX reports.
pub open spec fn latex_error_of(log: Seq<u8>) -> ScientificErrorModel {
    let known = note_lines(log, 0, unknown_error());
    ScientificErrorModel::InvalidMath(
        decode_utf8(known.message),
        decode_utf8(known.at),
        known.line as nat,
    )
}

/// Reads the error out of what LaTeX has printed.
pub fn latex_error(log: &str) -> (error: ScientificError)
    ensures
        error@ == latex_error_of(log.spec_bytes()),
{
    let text = log.as_bytes();
    let len = text.len();
    let mut message: &str = "";
    let mut at: &str = "";
    let mut line: usize = usize::MAX;
    let mut cursor: usize = 0;
    let mut done = false;
    proof {
        lemma_str_valid(log);
        lemma_boundary(text@, 0);
        reveal_strlit("");
        assert("".spec_bytes() =~= Seq::<u8>::empty());
    }
    while !done
        invariant
            cursor <= len,
            len == text@.len(),
            text@ == log.spec_bytes(),
            vstd::utf8::valid_utf8(text@),
            on_boundary(text@, cursor as int),
            !done ==> note_lines(text@, 0, unknown_error()) == note_lines(
                text@,
                cursor as int,
                LatexError { message: message.spec_bytes(), at: at.spec_bytes(), line },
            ),
            done ==> note_lines(text@, 0, unknown_error()) == (LatexError {
                message: message.spec_bytes(),
                at: at.spec_bytes(),
                line,
            }),
        decreases len - cursor + if done {
            0int
        } else {
            1int
        },
    {
        let end = find_byte(text, LF, cursor);
        proof {
            lemma_find_first_bounds(text@, LF, cursor as int);
            lemma_line_break_is_find_first(text@, cursor as int);
            if end < len {
                lemma_boundary_after_ascii(text@, end as int);
            }
        }
        let piece = slice_str(log, cursor, end);
        let noted = read_line(piece, message, at, line);
        message = noted.0;
        at = noted.1;
        line = noted.2;
        if end < len {
            cursor = end + 1;
        } else {
            done = true;
        }
    }
    proof {
        lemma_chars_of_bytes(message);
        lemma_chars_of_bytes(at);
    }
    ScientificError::InvalidMath(message.to_owned(), at.to_owned(), line)
}

/// Reads one line of what LaTeX has printed.
fn read_line<'a>(piece: &'a str, message: &'a str, at: &'a str, line: usize) -> (noted: (
    &'a str,
    &'a str,
    usize,
))
    ensures
        (LatexError { message: noted.0.spec_bytes(), at: noted.1.spec_bytes(), line: noted.2 })
            == note_line(
            piece.spec_bytes(),
            LatexError { message: message.spec_bytes(), at: at.spec_bytes(), line },
        ),
{
    let text = piece.as_bytes();
    let len = text.len();
    let bang = "! ";
    let place = "l.";
    let is_message = starts_with_at(text, 0, len, bang.as_bytes());
    let is_place = starts_with_at(text, 0, len, place.as_bytes());
    assert(text@.subrange(0, len as int) =~= text@);
    if !(is_message || is_place) || contains(text, "Emergency stop".as_bytes()) {
        return (message, at, line);
    }
    proof {
        lemma_str_valid(piece);
        reveal_strlit("! ");
        reveal_strlit("l.");
        vstd::string::is_ascii_spec_bytes(bang);
        vstd::string::is_ascii_spec_bytes(place);
        let head = text@.subrange(0, 2);
        if is_message {
            assert(head[1] == bang.spec_bytes()[1]);
        } else {
            assert(head[1] == place.spec_bytes()[1]);
        }
        assert(text@[1] < 0x80);
        lemma_boundary_after_ascii(text@, 1);
    }
    let rest = slice_str(piece, 2, len);
    if is_message {
        return (rest, at, line);
    }
    let bytes = rest.as_bytes();
    let space = find_byte(bytes, SPACE, 0);
    proof {
        lemma_str_valid(rest);
        lemma_boundary(bytes@, 0);
        lemma_find_first_bounds(bytes@, SPACE, 0);
        if space < bytes@.len() {
            lemma_boundary_after_ascii(bytes@, space as int);
        }
    }
    let number = parse_index(trim_str(slice_str(rest, 0, space)));
    let line = match number {
        Some(n) => n,
        None => line,
    };
    if space < bytes.len() {
        (message, trim_str(slice_str(rest, space + 1, bytes.len())), line)
    } else {
        (message, at, line)
    }
}

} // verus!
