//! Text as UTF-8 bytes: counting characters, comparing and slicing.
//!
//! Every position the scanner reports is a byte offset, so the contracts of
//! this crate speak of a `&str` through its UTF-8 bytes (`spec_bytes`).
//! Characters are counted as the bytes that are not UTF-8 continuation bytes.

use vstd::prelude::*;
use vstd::string::StringSliceAdditionalSpecFns;
use vstd::utf8::*;

verus! {

/// The line feed byte.
pub const LF: u8 = 0x0A;

/// The carriage return byte.
pub const CR: u8 = 0x0D;

/// The byte of `$`.
pub const DOLLAR: u8 = 0x24;

/// The byte of a backtick.
pub const BACKTICK: u8 = 0x60;

/// The number of characters that start among the first `n` bytes of `text`.
pub open spec fn chars_before(text: Seq<u8>, n: int) -> nat
    decreases n,
{
    if n <= 0 {
        0
    } else {
        chars_before(text, n - 1) + if is_continuation_byte(text[n - 1]) {
            0nat
        } else {
            1nat
        }
    }
}

/// The number of characters of `text`.
pub open spec fn char_count(text: Seq<u8>) -> nat {
    chars_before(text, text.len() as int)
}

/// The number of line feeds among the first `n` bytes of `text`.
pub open spec fn newlines_before(text: Seq<u8>, n: int) -> nat
    decreases n,
{
    if n <= 0 {
        0
    } else {
        newlines_before(text, n - 1) + if text[n - 1] == LF {
            1nat
        } else {
            0nat
        }
    }
}

/// The index of the first line feed at or after `from`, or the length of
/// `text` where there is none.
pub open spec fn line_break(text: Seq<u8>, from: int) -> int
    decreases text.len() - from,
{
    if from < 0 || from >= text.len() {
        text.len() as int
    } else if text[from] == LF {
        from
    } else {
        line_break(text, from + 1)
    }
}

/// The index of the last line feed before `before`, or `-1` where there is
/// none.
pub open spec fn last_line_break(text: Seq<u8>, before: int) -> int
    decreases before,
{
    if before <= 0 {
        -1
    } else if text[before - 1] == LF {
        before - 1
    } else {
        last_line_break(text, before - 1)
    }
}

/// Whether `index` can start or end a slice of the valid UTF-8 `text`.
pub open spec fn on_boundary(text: Seq<u8>, index: int) -> bool {
    index == text.len() || (0 <= index < text.len() && !is_continuation_byte(text[index]))
}

/// There are no more characters than bytes.
pub proof fn lemma_chars_before_bound(text: Seq<u8>, n: int)
    requires
        0 <= n,
    ensures
        chars_before(text, n) <= n,
    decreases n,
{
    if n > 0 {
        lemma_chars_before_bound(text, n - 1);
    }
}

/// A longer prefix holds no fewer characters, and no more of them than
/// it has bytes more.
pub proof fn lemma_chars_before_monotonic(text: Seq<u8>, m: int, n: int)
    requires
        0 <= m <= n,
    ensures
        chars_before(text, m) <= chars_before(text, n),
        chars_before(text, n) - chars_before(text, m) <= n - m,
    decreases n - m,
{
    if m < n {
        lemma_chars_before_monotonic(text, m, n - 1);
    }
}

/// There are no more line feeds than bytes.
pub proof fn lemma_newlines_before_bound(text: Seq<u8>, n: int)
    requires
        0 <= n,
    ensures
        newlines_before(text, n) <= n,
    decreases n,
{
    if n > 0 {
        lemma_newlines_before_bound(text, n - 1);
    }
}

/// Counting in a prefix of `text` is counting in `text`.
pub proof fn lemma_counts_of_prefix(text: Seq<u8>, end: int, n: int)
    requires
        0 <= n <= end <= text.len(),
    ensures
        chars_before(text.subrange(0, end), n) == chars_before(text, n),
        newlines_before(text.subrange(0, end), n) == newlines_before(text, n),
    decreases n,
{
    if n > 0 {
        lemma_counts_of_prefix(text, end, n - 1);
    }
}

/// The last line feed of a prefix of `text` is the last of `text` before
/// the same index.
pub proof fn lemma_last_line_break_of_prefix(text: Seq<u8>, end: int, n: int)
    requires
        0 <= n <= end <= text.len(),
    ensures
        last_line_break(text.subrange(0, end), n) == last_line_break(text, n),
    decreases n,
{
    if n > 0 && text[n - 1] != LF {
        lemma_last_line_break_of_prefix(text, end, n - 1);
    }
}

/// Where the first line feed at or after `from` stands: no line feed
/// lies between `from` and it.
pub proof fn lemma_line_break_bounds(text: Seq<u8>, from: int)
    requires
        0 <= from <= text.len(),
    ensures
        from <= line_break(text, from) <= text.len(),
        line_break(text, from) < text.len() ==> text[line_break(text, from)] == LF,
        forall|i: int| from <= i < line_break(text, from) ==> text[i] != LF,
    decreases text.len() - from,
{
    if from < text.len() && text[from] != LF {
        lemma_line_break_bounds(text, from + 1);
    }
}

/// Where the last line feed before `before` stands: no line feed lies
/// between it and `before`.
pub proof fn lemma_last_line_break_bounds(text: Seq<u8>, before: int)
    requires
        0 <= before <= text.len(),
    ensures
        -1 <= last_line_break(text, before) < before || (before == 0 && last_line_break(
            text,
            before,
        ) == -1),
        last_line_break(text, before) >= 0 ==> text[last_line_break(text, before)] == LF,
        forall|i: int| last_line_break(text, before) < i < before ==> text[i] != LF,
    decreases before,
{
    if before > 0 && text[before - 1] != LF {
        lemma_last_line_break_bounds(text, before - 1);
    }
}

/// A byte that is no continuation byte starts a character, and so does the
/// end of the text.
pub proof fn lemma_boundary(text: Seq<u8>, index: int)
    requires
        valid_utf8(text),
        0 <= index <= text.len(),
    ensures
        is_char_boundary(text, index) <==> on_boundary(text, index),
{
    if index < text.len() {
        is_char_boundary_iff_not_is_continuation_byte(text, index);
    } else {
        is_char_boundary_start_end_of_seq(text);
    }
}

/// The byte after an ASCII byte starts a character or ends the text.
pub proof fn lemma_boundary_after_ascii(text: Seq<u8>, index: int)
    requires
        valid_utf8(text),
        0 <= index < text.len(),
        text[index] < 0x80,
    ensures
        on_boundary(text, index),
        on_boundary(text, index + 1),
{
    lemma_boundary(text, index);
    valid_utf8_split(text, index);
    let rest = text.subrange(index, text.len() as int);
    assert(rest[0] == text[index]);
    assert(valid_first_scalar(rest));
    assert(length_of_first_scalar(rest) == 1);
    let tail = pop_first_scalar(rest);
    assert(valid_utf8(tail));
    if index + 1 < text.len() {
        assert(tail.len() > 0);
        assert(tail[0] == text[index + 1]);
        assert(valid_first_scalar(tail));
    }
}

/// A slice of valid UTF-8 between two boundaries is valid UTF-8.
pub proof fn lemma_slice_valid(text: Seq<u8>, from: int, to: int)
    requires
        valid_utf8(text),
        0 <= from <= to <= text.len(),
        on_boundary(text, from),
        on_boundary(text, to),
    ensures
        valid_utf8(text.subrange(from, to)),
        on_boundary(text.subrange(0, to), from),
{
    lemma_boundary(text, to);
    valid_utf8_split(text, to);
    let head = text.subrange(0, to);
    if from < to {
        assert(head[from] == text[from]);
    }
    lemma_boundary(head, from);
    valid_utf8_split(head, from);
    assert(head.subrange(from, head.len() as int) =~= text.subrange(from, to));
}

/// The bytes of a `&str` are valid UTF-8.
pub proof fn lemma_str_valid(s: &str)
    ensures
        valid_utf8(s.spec_bytes()),
{
    encode_utf8_valid_utf8(s@);
}

/// Two strings with the same bytes hold the same characters.
pub proof fn lemma_same_bytes_same_chars(a: &str, b: &str)
    ensures
        a.spec_bytes() == b.spec_bytes() <==> a@ == b@,
{
    encode_utf8_decode_utf8(a@);
    encode_utf8_decode_utf8(b@);
}

/// The slice of `source` between the byte offsets `from` and `to`.
pub fn slice_str<'a>(source: &'a str, from: usize, to: usize) -> (part: &'a str)
    requires
        from <= to <= source.spec_bytes().len(),
        on_boundary(source.spec_bytes(), from as int),
        on_boundary(source.spec_bytes(), to as int),
    ensures
        part.spec_bytes() == source.spec_bytes().subrange(from as int, to as int),
{
    proof {
        lemma_str_valid(source);
        lemma_boundary(source.spec_bytes(), to as int);
        lemma_slice_valid(source.spec_bytes(), from as int, to as int);
    }
    let (head, _) = source.split_at(to);
    proof {
        lemma_str_valid(head);
        lemma_boundary(head.spec_bytes(), from as int);
    }
    let (_, part) = head.split_at(from);
    assert(part.spec_bytes() =~= source.spec_bytes().subrange(from as int, to as int));
    part
}

/// Whether the bytes of `text` from `from` to `to` start with `prefix`.
pub fn starts_with_at(text: &[u8], from: usize, to: usize, prefix: &[u8]) -> (found: bool)
    requires
        from <= to <= text@.len(),
    ensures
        found == prefix@.is_prefix_of(text@.subrange(from as int, to as int)),
{
    let n = prefix.len();
    if n > to - from {
        return false;
    }
    let ghost part = text@.subrange(from as int, to as int);
    let mut i: usize = 0;
    while i < n
        invariant
            0 <= i <= n,
            n == prefix@.len(),
            n <= to - from,
            from <= to <= text@.len(),
            part == text@.subrange(from as int, to as int),
            forall|k: int| 0 <= k < i ==> prefix@[k] == part[k],
        decreases n - i,
    {
        if text[from + i] != prefix[i] {
            assert(part[i as int] != prefix@[i as int]);
            assert(part.subrange(0, n as int)[i as int] == part[i as int]);
            return false;
        }
        i += 1;
    }
    assert(prefix@ =~= part.subrange(0, n as int));
    true
}

/// Whether the bytes of `text` from `from` to `to` end with `suffix`.
pub fn ends_with_at(text: &[u8], from: usize, to: usize, suffix: &[u8]) -> (found: bool)
    requires
        from <= to <= text@.len(),
    ensures
        found == suffix@.is_suffix_of(text@.subrange(from as int, to as int)),
{
    let n = suffix.len();
    if n > to - from {
        return false;
    }
    let ghost part = text@.subrange(from as int, to as int);
    let base = to - n;
    let mut i: usize = 0;
    while i < n
        invariant
            0 <= i <= n,
            n == suffix@.len(),
            n <= to - from,
            base == to - n,
            from <= to <= text@.len(),
            part == text@.subrange(from as int, to as int),
            forall|k: int| 0 <= k < i ==> suffix@[k] == part[part.len() - n + k],
        decreases n - i,
    {
        if text[base + i] != suffix[i] {
            assert(part[part.len() - n + i] != suffix@[i as int]);
            assert(part.subrange(part.len() - n, part.len() as int)[i as int] == part[part.len()
                - n + i]);
            return false;
        }
        i += 1;
    }
    assert(suffix@ =~= part.subrange(part.len() - n, part.len() as int));
    true
}

/// Whether two byte strings are equal.
pub fn same_bytes(a: &[u8], b: &[u8]) -> (same: bool)
    ensures
        same == (a@ == b@),
{
    if a.len() != b.len() {
        return false;
    }
    let found = starts_with_at(a, 0, a.len(), b);
    proof {
        assert(a@.subrange(0, a@.len() as int) =~= a@);
        if found {
            assert(b@ =~= a@.subrange(0, b@.len() as int));
        }
    }
    found
}

/// The number of characters in the bytes of `text` from `from` to `to`.
pub fn count_chars(text: &[u8], from: usize, to: usize) -> (count: usize)
    requires
        from <= to <= text@.len(),
    ensures
        count == char_count(text@.subrange(from as int, to as int)),
        count <= to - from,
{
    let ghost part = text@.subrange(from as int, to as int);
    let mut count: usize = 0;
    let mut i: usize = from;
    while i < to
        invariant
            from <= i <= to <= text@.len(),
            part == text@.subrange(from as int, to as int),
            count == chars_before(part, i - from),
            count <= i - from,
        decreases to - i,
    {
        let b = text[i];
        assert(part[i - from] == b);
        if !(0x80 <= b && b <= 0xbf) {
            count += 1;
        }
        i += 1;
    }
    count
}

/// The number of line feeds in the bytes of `text` from `from` to `to`.
pub fn count_newlines(text: &[u8], from: usize, to: usize) -> (count: usize)
    requires
        from <= to <= text@.len(),
    ensures
        count == newlines_before(text@.subrange(from as int, to as int), to - from),
        count <= to - from,
{
    let ghost part = text@.subrange(from as int, to as int);
    let mut count: usize = 0;
    let mut i: usize = from;
    while i < to
        invariant
            from <= i <= to <= text@.len(),
            part == text@.subrange(from as int, to as int),
            count == newlines_before(part, i - from),
            count <= i - from,
        decreases to - i,
    {
        assert(part[i - from] == text@[i as int]);
        if text[i] == LF {
            count += 1;
        }
        i += 1;
    }
    count
}

/// Where the last line of the bytes of `text` from `from` to `to` starts:
/// behind their last line feed, or at `from` where they hold none.
pub fn find_last_line_start(text: &[u8], from: usize, to: usize) -> (start: usize)
    requires
        from <= to <= text@.len(),
    ensures
        from <= start <= to,
        start == from + last_line_break(text@.subrange(from as int, to as int), to - from) + 1,
{
    let ghost part = text@.subrange(from as int, to as int);
    let mut start: usize = to;
    while start > from && text[start - 1] != LF
        invariant
            from <= start <= to <= text@.len(),
            part == text@.subrange(from as int, to as int),
            last_line_break(part, to - from) == last_line_break(part, start - from),
        decreases start,
    {
        assert(part[start - from - 1] == text@[start - 1]);
        start -= 1;
    }
    proof {
        if start > from {
            assert(part[start - from - 1] == text@[start - 1]);
        }
    }
    start
}

/// The index of the first `byte` of `text` at or after `from`, or the
/// length of `text` where there is none.
pub open spec fn find_first(text: Seq<u8>, byte: u8, from: int) -> int
    decreases text.len() - from,
{
    if from < 0 || from >= text.len() {
        text.len() as int
    } else if text[from] == byte {
        from
    } else {
        find_first(text, byte, from + 1)
    }
}

/// Where the first `byte` at or after `from` stands: no such byte lies
/// between `from` and it.
pub proof fn lemma_find_first_bounds(text: Seq<u8>, byte: u8, from: int)
    requires
        0 <= from <= text.len(),
    ensures
        from <= find_first(text, byte, from) <= text.len(),
        find_first(text, byte, from) < text.len() ==> text[find_first(text, byte, from)] == byte,
        forall|i: int| from <= i < find_first(text, byte, from) ==> text[i] != byte,
    decreases text.len() - from,
{
    if from < text.len() && text[from] != byte {
        lemma_find_first_bounds(text, byte, from + 1);
    }
}

/// The index of the first `byte` of `text` at or after `from`, or the
/// length of `text`.
pub fn find_byte(text: &[u8], byte: u8, from: usize) -> (at: usize)
    requires
        from <= text@.len(),
    ensures
        at == find_first(text@, byte, from as int),
        from <= at <= text@.len(),
{
    let mut i: usize = from;
    while i < text.len() && text[i] != byte
        invariant
            from <= i <= text@.len(),
            find_first(text@, byte, from as int) == find_first(text@, byte, i as int),
        decreases text@.len() - i,
    {
        i += 1;
    }
    i
}

/// The index of the first line feed of `text` at or after `from`, or the
/// length of `text`.
pub fn find_line_break(text: &[u8], from: usize) -> (end: usize)
    requires
        from <= text@.len(),
    ensures
        end == line_break(text@, from as int),
        from <= end <= text@.len(),
{
    let mut i: usize = from;
    while i < text.len() && text[i] != LF
        invariant
            from <= i <= text@.len(),
            line_break(text@, from as int) == line_break(text@, i as int),
        decreases text@.len() - i,
    {
        i += 1;
    }
    i
}

/// Whether `b` is one of the white space characters of ASCII: tab, line
/// feed, vertical tab, form feed, carriage return or space.
pub open spec fn is_ascii_space(b: u8) -> bool {
    (0x09 <= b <= 0x0D) || b == 0x20
}

/// Whether the three bytes encode a white space character: U+1680,
/// U+2000 to U+200A, U+2028, U+2029, U+202F, U+205F or U+3000.
pub open spec fn is_wide_space(a: u8, b: u8, c: u8) -> bool {
    ||| (a == 0xE1 && b == 0x9A && c == 0x80)
    ||| (a == 0xE2 && b == 0x80 && (0x80 <= c <= 0x8A || c == 0xA8 || c == 0xA9 || c == 0xAF))
    ||| (a == 0xE2 && b == 0x81 && c == 0x9F)
    ||| (a == 0xE3 && b == 0x80 && c == 0x80)
}

/// Whether the two bytes encode a white space character: U+0085 or
/// U+00A0.
pub open spec fn is_narrow_space(a: u8, b: u8) -> bool {
    a == 0xC2 && (b == 0x85 || b == 0xA0)
}

/// The number of bytes of the white space character that starts at index
/// `i` of `text`, or zero where none starts there. White space is what
/// Unicode gives the property `White_Space`.
pub open spec fn space_at(text: Seq<u8>, i: int) -> int {
    if 0 <= i < text.len() && is_ascii_space(text[i]) {
        1
    } else if 0 <= i && i + 1 < text.len() && is_narrow_space(text[i], text[i + 1]) {
        2
    } else if 0 <= i && i + 2 < text.len() && is_wide_space(text[i], text[i + 1], text[i + 2]) {
        3
    } else {
        0
    }
}

/// The number of bytes of the white space character that ends before
/// index `n` of `text`, or zero where none ends there.
pub open spec fn space_before(text: Seq<u8>, n: int) -> int {
    if 1 <= n <= text.len() && is_ascii_space(text[n - 1]) {
        1
    } else if 2 <= n <= text.len() && is_narrow_space(text[n - 2], text[n - 1]) {
        2
    } else if 3 <= n <= text.len() && is_wide_space(text[n - 3], text[n - 2], text[n - 1]) {
        3
    } else {
        0
    }
}

/// The index behind the white space that starts at `from`.
pub open spec fn skip_space(text: Seq<u8>, from: int) -> int
    decreases text.len() - from,
{
    if from < 0 || from >= text.len() || space_at(text, from) == 0 {
        from
    } else {
        skip_space(text, from + space_at(text, from))
    }
}

/// The index before the white space that ends at `to`, not going below
/// `floor`.
pub open spec fn skip_space_back(text: Seq<u8>, floor: int, to: int) -> int
    decreases to,
{
    if to <= floor || space_before(text, to) == 0 || to - space_before(text, to) < floor {
        to
    } else {
        skip_space_back(text, floor, to - space_before(text, to))
    }
}

/// `text` without the white space at its start and at its end.
pub open spec fn trim_space(text: Seq<u8>) -> Seq<u8> {
    let from = skip_space(text, 0);
    let to = skip_space_back(text, from, text.len() as int);
    text.subrange(from, to)
}

/// Skipping white space stays within the text.
pub proof fn lemma_skip_space_bounds(text: Seq<u8>, from: int)
    requires
        0 <= from <= text.len(),
    ensures
        from <= skip_space(text, from) <= text.len(),
    decreases text.len() - from,
{
    if from < text.len() && space_at(text, from) != 0 {
        lemma_skip_space_bounds(text, from + space_at(text, from));
    }
}

/// Skipping white space backwards stays between `floor` and `to`.
pub proof fn lemma_skip_space_back_bounds(text: Seq<u8>, floor: int, to: int)
    requires
        0 <= floor <= to <= text.len(),
    ensures
        floor <= skip_space_back(text, floor, to) <= to,
    decreases to,
{
    if to > floor && space_before(text, to) != 0 && to - space_before(text, to) >= floor {
        lemma_skip_space_back_bounds(text, floor, to - space_before(text, to));
    }
}

/// The number of bytes of the white space character that starts at `i`.
fn space_length_at(text: &[u8], i: usize) -> (n: usize)
    requires
        i <= text@.len(),
    ensures
        n == space_at(text@, i as int),
        i + n <= text@.len(),
{
    let len = text.len();
    if i < len && ((0x09 <= text[i] && text[i] <= 0x0D) || text[i] == 0x20) {
        1
    } else if len - i >= 2 && text[i] == 0xC2 && (text[i + 1] == 0x85 || text[i + 1] == 0xA0) {
        2
    } else if len - i >= 3 {
        let a = text[i];
        let b = text[i + 1];
        let c = text[i + 2];
        if (a == 0xE1 && b == 0x9A && c == 0x80) || (a == 0xE2 && b == 0x80 && ((0x80 <= c && c
            <= 0x8A) || c == 0xA8 || c == 0xA9 || c == 0xAF)) || (a == 0xE2 && b == 0x81 && c
            == 0x9F) || (a == 0xE3 && b == 0x80 && c == 0x80) {
            3
        } else {
            0
        }
    } else {
        0
    }
}

/// The number of bytes of the white space character that ends before `n`.
fn space_length_before(text: &[u8], n: usize) -> (k: usize)
    requires
        n <= text@.len(),
    ensures
        k == space_before(text@, n as int),
        k <= n,
{
    if n >= 1 && ((0x09 <= text[n - 1] && text[n - 1] <= 0x0D) || text[n - 1] == 0x20) {
        1
    } else if n >= 2 && text[n - 2] == 0xC2 && (text[n - 1] == 0x85 || text[n - 1] == 0xA0) {
        2
    } else if n >= 3 {
        let a = text[n - 3];
        let b = text[n - 2];
        let c = text[n - 1];
        if (a == 0xE1 && b == 0x9A && c == 0x80) || (a == 0xE2 && b == 0x80 && ((0x80 <= c && c
            <= 0x8A) || c == 0xA8 || c == 0xA9 || c == 0xAF)) || (a == 0xE2 && b == 0x81 && c
            == 0x9F) || (a == 0xE3 && b == 0x80 && c == 0x80) {
            3
        } else {
            0
        }
    } else {
        0
    }
}

/// The range of `text` that is left without the white space at its start
/// and at its end.
pub fn trim_space_range(text: &[u8]) -> (range: (usize, usize))
    ensures
        range.0 <= range.1 <= text@.len(),
        range.0 == skip_space(text@, 0),
        range.1 == skip_space_back(text@, range.0 as int, text@.len() as int),
{
    let len = text.len();
    let mut from: usize = 0;
    loop
        invariant
            from <= len,
            len == text@.len(),
            skip_space(text@, 0) == skip_space(text@, from as int),
        ensures
            from <= len,
            from == skip_space(text@, 0),
        decreases len - from,
    {
        let n = space_length_at(text, from);
        if n == 0 || from >= len {
            break ;
        }
        from += n;
    }
    let mut to: usize = len;
    loop
        invariant
            from <= to <= len,
            len == text@.len(),
            skip_space_back(text@, from as int, len as int) == skip_space_back(
                text@,
                from as int,
                to as int,
            ),
        ensures
            from <= to <= len,
            to == skip_space_back(text@, from as int, len as int),
        decreases to,
    {
        let k = space_length_before(text, to);
        if to <= from || k == 0 || to - k < from {
            break ;
        }
        to -= k;
    }
    (from, to)
}

/// Behind the character that starts at a boundary lies a boundary.
pub proof fn lemma_boundary_after_char(text: Seq<u8>, index: int)
    requires
        valid_utf8(text),
        0 <= index < text.len(),
        on_boundary(text, index),
    ensures
        index + length_of_first_scalar(text.subrange(index, text.len() as int)) <= text.len(),
        on_boundary(
            text,
            index + length_of_first_scalar(text.subrange(index, text.len() as int)),
        ),
{
    lemma_boundary(text, index);
    valid_utf8_split(text, index);
    let rest = text.subrange(index, text.len() as int);
    assert(valid_first_scalar(rest));
    let width = length_of_first_scalar(rest);
    let tail = pop_first_scalar(rest);
    assert(valid_utf8(tail));
    if index + width < text.len() {
        assert(tail.len() > 0);
        assert(tail[0] == text[index + width]);
        assert(valid_first_scalar(tail));
    }
}

/// Skipping white space from a boundary ends on a boundary.
pub proof fn lemma_skip_space_boundary(text: Seq<u8>, from: int)
    requires
        valid_utf8(text),
        0 <= from <= text.len(),
        on_boundary(text, from),
    ensures
        on_boundary(text, skip_space(text, from)),
    decreases text.len() - from,
{
    if from < text.len() && space_at(text, from) != 0 {
        lemma_boundary_after_char(text, from);
        let rest = text.subrange(from, text.len() as int);
        assert(rest[0] == text[from]);
        assert(length_of_first_scalar(rest) == space_at(text, from));
        lemma_skip_space_boundary(text, from + space_at(text, from));
    }
}

/// Skipping white space backwards from a boundary ends on a boundary.
pub proof fn lemma_skip_space_back_boundary(text: Seq<u8>, floor: int, to: int)
    requires
        0 <= floor <= to <= text.len(),
        on_boundary(text, to),
    ensures
        on_boundary(text, skip_space_back(text, floor, to)),
    decreases to,
{
    if to > floor && space_before(text, to) != 0 && to - space_before(text, to) >= floor {
        lemma_skip_space_back_boundary(text, floor, to - space_before(text, to));
    }
}

/// `s` without the white space at its start and at its end.
pub fn trim_str<'a>(s: &'a str) -> (trimmed: &'a str)
    ensures
        trimmed.spec_bytes() == trim_space(s.spec_bytes()),
{
    let text = s.as_bytes();
    let (from, to) = trim_space_range(text);
    proof {
        lemma_str_valid(s);
        if text@.len() > 0 {
            lemma_boundary(text@, 0);
        }
        lemma_skip_space_boundary(text@, 0);
        lemma_skip_space_back_boundary(text@, from as int, text@.len() as int);
    }
    slice_str(s, from, to)
}

/// Whether two texts hold the same characters.
pub fn same_text(a: &str, b: &str) -> (same: bool)
    ensures
        same == (a@ == b@),
{
    proof {
        lemma_same_bytes_same_chars(a, b);
    }
    same_bytes(a.as_bytes(), b.as_bytes())
}

/// The characters of a string are what its bytes decode to.
pub proof fn lemma_chars_of_bytes(s: &str)
    ensures
        s@ == decode_utf8(s.spec_bytes()),
{
    encode_utf8_decode_utf8(s@);
}

/// A text with characters has bytes.
pub proof fn lemma_bytes_not_empty(text: Seq<char>)
    requires
        text.len() > 0,
    ensures
        encode_utf8(text).len() > 0,
{
    encode_utf8_first_scalar(text);
}

/// The first line feed is the first byte that is a line feed.
pub proof fn lemma_line_break_is_find_first(text: Seq<u8>, from: int)
    ensures
        line_break(text, from) == find_first(text, LF, from),
    decreases text.len() - from,
{
    if 0 <= from < text.len() && text[from] != LF {
        lemma_line_break_is_find_first(text, from + 1);
    }
}

} // verus!
