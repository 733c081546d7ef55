//! Names of the files that are written for a chapter.

use vstd::prelude::*;
use vstd::string::StringSliceAdditionalSpecFns;
use vstd::utf8::decode_utf8;
use vstd::utf8::encode_utf8;
use crate::digest::hex_of;
use crate::digest::sha256_of;
use crate::digest::short_hash;
use crate::format::decimal;
use crate::format::decimal_string;
use crate::replace::lemma_encode_concat;
use crate::replace::replace_byte;
use crate::replace::replaced_all;
use crate::text::lemma_boundary_after_ascii;
use crate::text::lemma_str_valid;
use crate::text::slice_str;
use crate::text::starts_with_at;

verus! {

/// The byte of `.`, which parts the numbers of a chapter.
pub const DOT: u8 = 0x2E;

/// The number of a chapter with `_` in place of every `.`.
pub open spec fn plain_number(chapter_number: Seq<u8>) -> Seq<char> {
    decode_utf8(replaced_all(chapter_number, DOT, "_".spec_bytes()))
}

/// The name, without extension, of the files that are rendered for an
/// equation: `scientific_`, the number of the chapter, `__` and the first
/// ten hexadecimal digits of the SHA-256 digest of the text of the span.
pub open spec fn fragment_stem_of(chapter_number: Seq<u8>, content: Seq<u8>) -> Seq<char> {
    "scientific_"@ + plain_number(chapter_number) + "__"@ + hex_of(sha256_of(content), 5)
}

/// The name, without extension, of the files that are rendered for the
/// span with the text `content` in the chapter with that number.
pub fn fragment_stem(chapter_number: &str, content: &str) -> (name: String)
    ensures
        name@ == fragment_stem_of(chapter_number.spec_bytes(), content.spec_bytes()),
{
    let number = replace_byte(chapter_number, DOT, "_");
    let digest = short_hash(content);
    String::from_str("scientific_").concat(number.as_str()).concat("__").concat(digest.as_str())
}

/// The name of the file that is rendered for a chart: `fishextract_`, the
/// number of the chapter, `_`, the number of the chart in its chapter,
/// `__`, the first ten hexadecimal digits of the SHA-256 digest of the
/// code of the chart, and the extension `.pdf`.
pub open spec fn chart_file_name_of(chapter_number: Seq<u8>, counter: nat, code: Seq<u8>) -> Seq<
    char,
> {
    "fishextract_"@ + plain_number(chapter_number) + "_"@ + decimal(counter) + "__"@ + hex_of(
        sha256_of(code),
        5,
    ) + ".pdf"@
}

/// The name of the file that is rendered for chart number `counter` of
/// the chapter with that number, which has the code `code`.
pub fn chart_file_name(chapter_number: &str, counter: usize, code: &str) -> (name: String)
    ensures
        name@ == chart_file_name_of(
            chapter_number.spec_bytes(),
            counter as nat,
            code.spec_bytes(),
        ),
{
    let number = replace_byte(chapter_number, DOT, "_");
    let count = decimal_string(counter);
    let digest = short_hash(code);
    String::from_str("fishextract_").concat(number.as_str()).concat("_").concat(
        count.as_str(),
    ).concat("__").concat(digest.as_str()).concat(".pdf")
}

/// Whether a byte is a letter or digit of ASCII, `_` or `-`.
pub open spec fn is_name_byte(b: u8) -> bool {
    (0x41 <= b <= 0x5A) || (0x61 <= b <= 0x7A) || (0x30 <= b <= 0x39) || b == 0x5F || b == 0x2D
}

/// The bytes among the first `n` of `text` that can stand in a file name.
pub open spec fn name_bytes(text: Seq<u8>, n: int) -> Seq<u8>
    decreases n,
{
    if n <= 0 {
        Seq::empty()
    } else if is_name_byte(text[n - 1]) {
        name_bytes(text, n - 1).push(text[n - 1])
    } else {
        name_bytes(text, n - 1)
    }
}

/// The title of a book as the name of a file: every character that is
/// not a letter or digit of ASCII, `_` or `-` is left out.
pub fn file_name_of_title(title: &str) -> (name: String)
    ensures
        encode_utf8(name@) == name_bytes(title.spec_bytes(), title.spec_bytes().len() as int),
{
    let text = title.as_bytes();
    let len = text.len();
    let mut name = String::new();
    let mut i: usize = 0;
    proof {
        lemma_str_valid(title);
        assert(encode_utf8(name@) =~= Seq::<u8>::empty());
    }
    while i < len
        invariant
            i <= len,
            len == text@.len(),
            text@ == title.spec_bytes(),
            vstd::utf8::valid_utf8(text@),
            encode_utf8(name@) == name_bytes(text@, i as int),
        decreases len - i,
    {
        let b = text[i];
        if (0x41 <= b && b <= 0x5A) || (0x61 <= b && b <= 0x7A) || (0x30 <= b && b <= 0x39) || b
            == 0x5F || b == 0x2D {
            let ghost before = name@;
            proof {
                lemma_boundary_after_ascii(text@, i as int);
            }
            let one = slice_str(title, i, i + 1);
            name.append(one);
            proof {
                lemma_encode_concat(before, one@);
                assert(text@.subrange(i as int, i + 1) =~= seq![b]);
            }
        }
        i += 1;
    }
    name
}

/// The path of an image as it is handed on: without a `./` at its start.
pub fn strip_dot_slash(path: &str) -> (rest: &str)
    ensures
        rest.spec_bytes() == if "./".spec_bytes().is_prefix_of(path.spec_bytes()) {
            path.spec_bytes().subrange(
                "./".spec_bytes().len() as int,
                path.spec_bytes().len() as int,
            )
        } else {
            path.spec_bytes()
        },
{
    let text = path.as_bytes();
    let len = text.len();
    let prefix = "./";
    let found = starts_with_at(text, 0, len, prefix.as_bytes());
    assert(text@.subrange(0, len as int) =~= text@);
    if found {
        proof {
            lemma_str_valid(path);
            reveal_strlit("./");
            vstd::string::is_ascii_spec_bytes(prefix);
            assert(prefix.spec_bytes().len() == 2);
            let head = text@.subrange(0, 2);
            assert(head[1] == prefix.spec_bytes()[1]);
            assert(text@[1] < 0x80);
            lemma_boundary_after_ascii(text@, 1);
        }
        slice_str(path, prefix.as_bytes().len(), len)
    } else {
        path
    }
}

} // verus!
