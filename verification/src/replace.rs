//! Replacing characters and pieces of a text.

use vstd::prelude::*;
use vstd::string::StringSliceAdditionalSpecFns;
use vstd::utf8::decode_utf8;
use vstd::utf8::encode_utf8;
use vstd::utf8::encode_utf8_decode_utf8;
use vstd::utf8::length_of_first_scalar;
use vstd::utf8::pop_first_scalar;
use vstd::utf8::valid_first_scalar;
use vstd::utf8::valid_utf8;
use crate::text::find_byte;
use crate::text::lemma_boundary;
use crate::text::lemma_boundary_after_ascii;
use crate::text::lemma_boundary_after_char;
use crate::text::lemma_find_first_bounds;
use crate::text::lemma_str_valid;
use crate::text::on_boundary;
use crate::text::slice_str;
use crate::text::starts_with_at;

verus! {

/// The first `n` bytes of `text` with every byte `from` replaced by the
/// bytes `with`.
pub open spec fn replaced(text: Seq<u8>, n: int, from: u8, with: Seq<u8>) -> Seq<u8>
    decreases n,
{
    if n <= 0 {
        Seq::empty()
    } else {
        replaced(text, n - 1, from, with) + if text[n - 1] == from {
            with
        } else {
            seq![text[n - 1]]
        }
    }
}

/// All of `text` with every byte `from` replaced by the bytes `with`.
pub open spec fn replaced_all(text: Seq<u8>, from: u8, with: Seq<u8>) -> Seq<u8> {
    replaced(text, text.len() as int, from, with)
}

/// The bytes of two texts, one behind the other, are the bytes of the
/// first behind those of the second.
pub proof fn lemma_encode_concat(a: Seq<char>, b: Seq<char>)
    ensures
        encode_utf8(a + b) == encode_utf8(a) + encode_utf8(b),
    decreases a.len(),
{
    if a.len() == 0 {
        assert(a + b =~= b);
        assert(encode_utf8(a) + encode_utf8(b) =~= encode_utf8(b));
    } else {
        lemma_encode_concat(a.drop_first(), b);
        assert((a + b).drop_first() =~= a.drop_first() + b);
        assert((a + b)[0] == a[0]);
        assert(encode_utf8(a + b) =~= encode_utf8(a) + encode_utf8(b));
    }
}

/// Where none of the bytes from `m` to `n` is `from`, they stay as they
/// are.
proof fn lemma_replaced_run(text: Seq<u8>, m: int, n: int, from: u8, with: Seq<u8>)
    requires
        0 <= m <= n <= text.len(),
        forall|i: int| m <= i < n ==> text[i] != from,
    ensures
        replaced(text, n, from, with) == replaced(text, m, from, with) + text.subrange(m, n),
    decreases n - m,
{
    if m == n {
        assert(text.subrange(m, n) =~= Seq::<u8>::empty());
        assert(replaced(text, m, from, with) + Seq::<u8>::empty() =~= replaced(text, m, from, with));
    } else {
        lemma_replaced_run(text, m, n - 1, from, with);
        assert(text.subrange(m, n) =~= text.subrange(m, n - 1) + seq![text[n - 1]]);
        assert(replaced(text, n, from, with) =~= replaced(text, m, from, with) + text.subrange(
            m,
            n,
        ));
    }
}

/// `s` with every character `from`, a character of ASCII, replaced by
/// `with`.
pub fn replace_byte(s: &str, from: u8, with: &str) -> (out: String)
    requires
        from < 0x80,
    ensures
        encode_utf8(out@) == replaced_all(s.spec_bytes(), from, with.spec_bytes()),
        out@ == decode_utf8(replaced_all(s.spec_bytes(), from, with.spec_bytes())),
{
    let text = s.as_bytes();
    let len = text.len();
    let mut out = String::new();
    let mut i: usize = 0;
    proof {
        lemma_str_valid(s);
        lemma_boundary(text@, 0);
        assert(encode_utf8(out@) =~= Seq::<u8>::empty());
    }
    while i < len
        invariant
            i <= len,
            len == text@.len(),
            text@ == s.spec_bytes(),
            from < 0x80,
            vstd::utf8::valid_utf8(text@),
            on_boundary(text@, i as int),
            encode_utf8(out@) == replaced(text@, i as int, from, with.spec_bytes()),
        decreases len - i,
    {
        let next = find_byte(text, from, i);
        let ghost before = out@;
        proof {
            lemma_find_first_bounds(text@, from, i as int);
            if next < len {
                lemma_boundary_after_ascii(text@, next as int);
            }
            lemma_replaced_run(text@, i as int, next as int, from, with.spec_bytes());
        }
        let run = slice_str(s, i, next);
        out.append(run);
        proof {
            lemma_encode_concat(before, run@);
        }
        if next < len {
            let ghost middle = out@;
            out.append(with);
            proof {
                lemma_encode_concat(middle, with@);
            }
            i = next + 1;
        } else {
            i = next;
        }
    }
    proof {
        encode_utf8_decode_utf8(out@);
    }
    out
}

/// The bytes of `#`, `%`, `&` and `^`, which LaTeX reads as commands.
pub open spec fn escaped(text: Seq<u8>) -> Seq<u8> {
    let hashes = replaced_all(text, 0x23, "\\#".spec_bytes());
    let percents = replaced_all(hashes, 0x25, "\\%".spec_bytes());
    let ampersands = replaced_all(percents, 0x26, "\\&".spec_bytes());
    replaced_all(ampersands, 0x5E, "\\^".spec_bytes())
}

/// `text` with a backslash before every `#`, `%`, `&` and `^`, so that
/// LaTeX takes them as they are.
pub fn escape_text(text: &str) -> (out: String)
    ensures
        encode_utf8(out@) == escaped(text.spec_bytes()),
        out@ == decode_utf8(escaped(text.spec_bytes())),
{
    let hashes = replace_byte(text, 0x23, "\\#");
    let percents = replace_byte(hashes.as_str(), 0x25, "\\%");
    let ampersands = replace_byte(percents.as_str(), 0x26, "\\&");
    replace_byte(ampersands.as_str(), 0x5E, "\\^")
}

/// `text` from index `from` on, with every occurrence of `pattern`
/// replaced by `with`. Occurrences are taken from left to right and do not
/// overlap.
pub open spec fn replaced_text(text: Seq<u8>, from: int, pattern: Seq<u8>, with: Seq<u8>) -> Seq<u8>
    decreases text.len() - from,
{
    if from < 0 || from >= text.len() {
        Seq::empty()
    } else if pattern.len() > 0 && pattern.is_prefix_of(text.subrange(from, text.len() as int)) {
        with + replaced_text(text, from + pattern.len(), pattern, with)
    } else {
        seq![text[from]] + replaced_text(text, from + 1, pattern, with)
    }
}

/// Behind an occurrence of valid UTF-8 that starts at a boundary lies a
/// boundary.
pub proof fn lemma_boundary_after_match(text: Seq<u8>, at: int, pattern: Seq<u8>)
    requires
        valid_utf8(text),
        valid_utf8(pattern),
        0 <= at <= text.len(),
        on_boundary(text, at),
        pattern.is_prefix_of(text.subrange(at, text.len() as int)),
    ensures
        on_boundary(text, at + pattern.len()),
    decreases pattern.len(),
{
    if pattern.len() > 0 {
        let rest = text.subrange(at, text.len() as int);
        let width = length_of_first_scalar(pattern);
        assert(rest.subrange(0, pattern.len() as int)[0] == rest[0]);
        assert(rest[0] == pattern[0]);
        assert(valid_first_scalar(pattern));
        assert(length_of_first_scalar(rest) == width);
        lemma_boundary_after_char(text, at);
        let tail = pop_first_scalar(pattern);
        assert(valid_utf8(tail));
        assert forall|i: int| 0 <= i < tail.len() implies tail[i] == text.subrange(
            at + width,
            text.len() as int,
        )[i] by {
            assert(rest.subrange(0, pattern.len() as int)[i + width] == rest[i + width]);
        }
        assert(tail =~= text.subrange(at + width, text.len() as int).subrange(
            0,
            tail.len() as int,
        ));
        lemma_boundary_after_match(text, at + width, tail);
    }
}

/// What starts with valid UTF-8 that is not empty starts at a boundary.
pub proof fn lemma_match_on_boundary(text: Seq<u8>, at: int, pattern: Seq<u8>)
    requires
        valid_utf8(text),
        valid_utf8(pattern),
        pattern.len() > 0,
        0 <= at <= text.len(),
        pattern.is_prefix_of(text.subrange(at, text.len() as int)),
    ensures
        on_boundary(text, at),
{
    let rest = text.subrange(at, text.len() as int);
    assert(rest.subrange(0, pattern.len() as int)[0] == rest[0]);
    assert(valid_first_scalar(pattern));
    assert(!vstd::utf8::is_continuation_byte(pattern[0]));
}

/// Where no occurrence starts from `m` to before `n`, the bytes stay as
/// they are.
proof fn lemma_replaced_text_run(text: Seq<u8>, m: int, n: int, pattern: Seq<u8>, with: Seq<u8>)
    requires
        0 <= m <= n <= text.len(),
        pattern.len() > 0,
        forall|i: int|
            m <= i < n ==> !(#[trigger] pattern.is_prefix_of(text.subrange(i, text.len() as int))),
    ensures
        replaced_text(text, m, pattern, with) == text.subrange(m, n) + replaced_text(
            text,
            n,
            pattern,
            with,
        ),
    decreases n - m,
{
    if m == n {
        assert(text.subrange(m, n) + replaced_text(text, n, pattern, with) =~= replaced_text(
            text,
            n,
            pattern,
            with,
        ));
    } else {
        lemma_replaced_text_run(text, m + 1, n, pattern, with);
        assert(!pattern.is_prefix_of(text.subrange(m, text.len() as int)));
        assert(seq![text[m]] + text.subrange(m + 1, n) =~= text.subrange(m, n));
        assert(seq![text[m]] + (text.subrange(m + 1, n) + replaced_text(text, n, pattern, with))
            =~= text.subrange(m, n) + replaced_text(text, n, pattern, with));
    }
}

/// `s` with every occurrence of `pattern` replaced by `with`. Occurrences
/// are taken from left to right and do not overlap.
pub fn replace_text(s: &str, pattern: &str, with: &str) -> (out: String)
    requires
        pattern.spec_bytes().len() > 0,
    ensures
        encode_utf8(out@) == replaced_text(
            s.spec_bytes(),
            0,
            pattern.spec_bytes(),
            with.spec_bytes(),
        ),
        out@ == decode_utf8(
            replaced_text(s.spec_bytes(), 0, pattern.spec_bytes(), with.spec_bytes()),
        ),
{
    let text = s.as_bytes();
    let len = text.len();
    let needle = pattern.as_bytes();
    let width = needle.len();
    let mut out = String::new();
    let mut run: usize = 0;
    let mut i: usize = 0;
    proof {
        lemma_str_valid(s);
        lemma_str_valid(pattern);
        lemma_boundary(text@, 0);
        assert(encode_utf8(out@) =~= Seq::<u8>::empty());
        assert(Seq::<u8>::empty() + replaced_text(text@, 0, needle@, with.spec_bytes())
            =~= replaced_text(text@, 0, needle@, with.spec_bytes()));
    }
    while i < len
        invariant
            run <= i <= len,
            len == text@.len(),
            width == needle@.len(),
            width > 0,
            text@ == s.spec_bytes(),
            needle@ == pattern.spec_bytes(),
            valid_utf8(text@),
            valid_utf8(needle@),
            on_boundary(text@, run as int),
            replaced_text(text@, 0, needle@, with.spec_bytes()) == encode_utf8(out@)
                + replaced_text(text@, run as int, needle@, with.spec_bytes()),
            forall|j: int|
                run <= j < i ==> !(#[trigger] needle@.is_prefix_of(
                    text@.subrange(j, text@.len() as int),
                )),
        decreases len - i,
    {
        if starts_with_at(text, i, len, needle) {
            let ghost before = out@;
            proof {
                lemma_match_on_boundary(text@, i as int, needle@);
                lemma_boundary_after_match(text@, i as int, needle@);
                lemma_replaced_text_run(text@, run as int, i as int, needle@, with.spec_bytes());
            }
            let kept = slice_str(s, run, i);
            out.append(kept);
            let ghost middle = out@;
            out.append(with);
            proof {
                lemma_encode_concat(before, kept@);
                lemma_encode_concat(middle, with@);
                let rest = replaced_text(text@, i + width, needle@, with.spec_bytes());
                assert(encode_utf8(before) + (text@.subrange(run as int, i as int) + (
                with.spec_bytes() + rest)) =~= encode_utf8(before) + text@.subrange(
                    run as int,
                    i as int,
                ) + with.spec_bytes() + rest);
            }
            i = i + width;
            run = i;
        } else {
            i += 1;
        }
    }
    let ghost before = out@;
    proof {
        lemma_replaced_text_run(text@, run as int, len as int, needle@, with.spec_bytes());
        assert(text@.subrange(run as int, len as int) + Seq::<u8>::empty() =~= text@.subrange(
            run as int,
            len as int,
        ));
    }
    let kept = slice_str(s, run, len);
    out.append(kept);
    proof {
        lemma_encode_concat(before, kept@);
        encode_utf8_decode_utf8(out@);
    }
    out
}

} // verus!
