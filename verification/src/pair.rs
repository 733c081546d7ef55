//! The pairer: from delimiter positions to the spans of the document.
//!
//! Two neighbouring positions bound a span. The spans alternate: the first
//! pair bounds a span to replace, the next one a span to keep, and so on. A
//! span to replace holds both of its delimiters, a span to keep holds
//! neither. What stands before the first position and behind the last one
//! is kept.

use vstd::prelude::*;
use vstd::string::StringSliceAdditionalSpecFns;
use crate::content::Content;
use crate::content::ContentModel;
use crate::content::Tagged;
use crate::content::tagged_models;
use crate::content::TaggedModel;
use crate::position::LiCo;
use crate::position::Marker;
use crate::position::MarkerModel;
use crate::position::Place;
use crate::position::position_models;
use crate::position::PositionModel;
use crate::position::SplitTagPosition;
use crate::scan::line_end;
use crate::text::char_count;
use crate::text::count_chars;
use crate::text::count_newlines;
use crate::text::CR;
use crate::text::ends_with_at;
use crate::text::find_last_line_start;
use crate::text::last_line_break;
use crate::text::lemma_counts_of_prefix;
use crate::text::lemma_last_line_break_of_prefix;
use crate::text::lemma_newlines_before_bound;
use crate::text::LF;
use crate::text::newlines_before;
use crate::text::on_boundary;
use crate::text::slice_str;
use crate::text::starts_with_at;

verus! {

/// The coordinate of the first character of a document.
pub open spec fn first_place() -> Place {
    Place { line: 1, column: 1 }
}

/// The coordinate at which `text` ends: the number of its last line and the
/// number of characters on that line. A line feed at the very end of `text`
/// starts no further line. Where `text` is empty, the line is `1` and the
/// column is the number of characters of `fallback`.
pub open spec fn end_place(text: Seq<u8>, fallback: Seq<u8>) -> Place {
    if text.len() == 0 {
        Place { line: 1, column: char_count(fallback) as int }
    } else {
        let stop = if text.last() == LF {
            text.len() - 1
        } else {
            text.len() as int
        };
        let start = last_line_break(text, stop) + 1;
        let end = line_end(text, start, stop);
        Place {
            line: newlines_before(text, stop) as int + 1,
            column: char_count(text.subrange(start, end)) as int,
        }
    }
}

/// The number of bytes of the delimiter at a position.
pub open spec fn delimiter_len(position: PositionModel) -> int {
    position.delimiter.text().len() as int
}

/// Whether window `k` of the positions, the pair of position `k` and the
/// next one, bounds a span to replace.
pub open spec fn window_replaces(k: int) -> bool {
    k % 2 == 0
}

/// The first byte offset of the span of window `k`: a span to replace
/// starts at its opening delimiter, a span to keep behind the delimiter
/// before it; at offset zero nothing is skipped.
pub open spec fn window_from(positions: Seq<PositionModel>, k: int) -> int {
    let open = positions[k];
    if window_replaces(k) || open.byte_offset == 0 {
        open.byte_offset
    } else {
        open.byte_offset + delimiter_len(open)
    }
}

/// The byte offset behind the span of window `k`: a span to replace ends
/// behind its closing delimiter, a span to keep at the delimiter behind it.
pub open spec fn window_to(positions: Seq<PositionModel>, k: int) -> int {
    let close = positions[k + 1];
    if window_replaces(k) {
        close.byte_offset + delimiter_len(close)
    } else {
        close.byte_offset
    }
}

/// The span of window `k`.
pub open spec fn window(source: Seq<u8>, positions: Seq<PositionModel>, k: int) -> TaggedModel {
    let from = window_from(positions, k);
    let to = window_to(positions, k);
    TaggedModel {
        replace: window_replaces(k),
        content: ContentModel {
            text: source.subrange(from, to),
            start: positions[k].lico,
            end: positions[k + 1].lico,
            from,
            to,
            start_del: positions[k].delimiter,
            end_del: positions[k + 1].delimiter,
        },
    }
}

/// The number of windows: one less than there are positions.
pub open spec fn window_count(positions: Seq<PositionModel>) -> nat {
    if positions.len() == 0 {
        0
    } else {
        (positions.len() - 1) as nat
    }
}

/// The spans of all windows, in order.
pub open spec fn windows(source: Seq<u8>, positions: Seq<PositionModel>) -> Seq<TaggedModel> {
    Seq::new(window_count(positions), |k: int| window(source, positions, k))
}

/// The span that covers a document without any delimiter.
pub open spec fn whole(source: Seq<u8>) -> TaggedModel {
    let end = end_place(source, source);
    TaggedModel {
        replace: false,
        content: ContentModel {
            text: source,
            start: first_place(),
            end,
            from: 0,
            to: source.len() as int,
            start_del: MarkerModel::StartOfDocument(first_place(), 0),
            end_del: MarkerModel::EndOfDocument(end, source.len() as int),
        },
    }
}

/// What is kept before the windows: the text before the first position,
/// where that is not at offset zero, or the whole document where there is
/// no position at all.
pub open spec fn leading(source: Seq<u8>, positions: Seq<PositionModel>) -> Seq<TaggedModel> {
    if positions.len() == 0 {
        seq![whole(source)]
    } else if positions[0].byte_offset > 0 {
        let to = positions[0].byte_offset;
        seq![
            TaggedModel {
                replace: false,
                content: ContentModel {
                    text: source.subrange(0, to),
                    start: first_place(),
                    end: positions[0].lico,
                    from: 0,
                    to,
                    start_del: MarkerModel::StartOfDocument(first_place(), 0),
                    end_del: positions[0].delimiter,
                },
            },
        ]
    } else {
        Seq::empty()
    }
}

/// What is kept behind the windows: the text behind the delimiter of the
/// last position, where that position is before the end of the document.
pub open spec fn trailing(source: Seq<u8>, positions: Seq<PositionModel>) -> Seq<TaggedModel> {
    if positions.len() > 0 && positions.last().byte_offset < source.len() {
        let last = positions.last();
        let from = last.byte_offset + delimiter_len(last);
        let text = source.subrange(from, source.len() as int);
        let end = end_place(text, source);
        seq![
            TaggedModel {
                replace: false,
                content: ContentModel {
                    text,
                    start: last.lico,
                    end,
                    from,
                    to: source.len() as int,
                    start_del: last.delimiter,
                    end_del: MarkerModel::EndOfDocument(end, source.len() as int),
                },
            },
        ]
    } else {
        Seq::empty()
    }
}

/// The spans of a document with the given delimiter positions, in the order
/// of the text.
pub open spec fn pair_spec(source: Seq<u8>, positions: Seq<PositionModel>) -> Seq<TaggedModel> {
    leading(source, positions) + windows(source, positions) + trailing(source, positions)
}

/// Whether the bytes of `source` from `from` to `to` can be cut out.
pub open spec fn valid_range(source: Seq<u8>, from: int, to: int) -> bool {
    0 <= from <= to <= source.len() && on_boundary(source, from) && on_boundary(source, to)
}

/// Whether the span of window `k` can be cut out of `source` and, where it
/// is to be replaced, starts and ends with its two delimiters.
pub open spec fn window_fits(source: Seq<u8>, positions: Seq<PositionModel>, k: int) -> bool {
    let from = window_from(positions, k);
    let to = window_to(positions, k);
    &&& valid_range(source, from, to)
    &&& window_replaces(k) ==> {
        &&& positions[k].delimiter.text().is_prefix_of(source.subrange(from, to))
        &&& positions[k + 1].delimiter.text().is_suffix_of(source.subrange(from, to))
    }
}

/// Whether the positions fit the document: every span that they bound can
/// be cut out of it, and every span to replace starts and ends with its
/// delimiters.
pub open spec fn spans_fit(source: Seq<u8>, positions: Seq<PositionModel>) -> bool {
    &&& positions.len() > 0 && positions[0].byte_offset > 0 ==> valid_range(
        source,
        0,
        positions[0].byte_offset,
    )
    &&& forall|k: int| 0 <= k < window_count(positions) ==> #[trigger] window_fits(source, positions, k)
    &&& positions.len() > 0 && positions.last().byte_offset < source.len() ==> valid_range(
        source,
        positions.last().byte_offset + delimiter_len(positions.last()),
        source.len() as int,
    )
}

/// The models of spans with one more are the models with one more.
proof fn lemma_tagged_push(spans: Seq<Tagged<'_>>, next: Tagged<'_>)
    ensures
        tagged_models(spans.push(next)) == tagged_models(spans).push(next@),
{
    assert(tagged_models(spans.push(next)) =~= tagged_models(spans).push(next@));
}

/// The coordinate at which the bytes of `text` from `from` on end.
fn end_lico(text: &[u8], from: usize) -> (end: LiCo)
    requires
        from <= text@.len(),
    ensures
        end@ == end_place(text@.subrange(from as int, text@.len() as int), text@),
{
    let len = text.len();
    let ghost part = text@.subrange(from as int, len as int);
    if from == len {
        let column = count_chars(text, 0, len);
        assert(text@.subrange(0, len as int) =~= text@);
        return LiCo { lineno: 1, column };
    }
    let stop = if text[len - 1] == LF {
        len - 1
    } else {
        len
    };
    assert(part.last() == text@[len - 1]);
    let start = find_last_line_start(text, from, stop);
    let newlines = count_newlines(text, from, stop);
    let end = if stop < len && start < stop && text[stop - 1] == CR {
        stop - 1
    } else {
        stop
    };
    let column = count_chars(text, start, end);
    proof {
        let n = stop - from;
        assert(part.subrange(0, n) =~= text@.subrange(from as int, stop as int));
        lemma_counts_of_prefix(part, n, n);
        lemma_last_line_break_of_prefix(part, n, n);
        assert(start - from == last_line_break(part, n) + 1);
        if start < stop {
            assert(part[stop - from - 1] == text@[stop - 1]);
        }
        assert(end - from == line_end(part, start - from, n));
        assert(part.subrange(start - from, end - from) =~= text@.subrange(
            start as int,
            end as int,
        ));
        if stop == len {
            assert(part[n - 1] != LF);
            lemma_newlines_before_bound(part, n - 1);
        }
    }
    LiCo { lineno: newlines + 1, column }
}

/// Whether `index` can start or end a slice of `text`.
fn is_boundary(text: &[u8], index: usize) -> (ok: bool)
    requires
        index <= text@.len(),
    ensures
        ok == on_boundary(text@, index as int),
{
    if index == text.len() {
        true
    } else {
        let b = text[index];
        !(0x80 <= b && b <= 0xbf)
    }
}

/// Whether the bytes of `text` from `from` to `to` can be cut out.
fn is_valid_range(text: &[u8], from: usize, to: usize) -> (ok: bool)
    ensures
        ok == valid_range(text@, from as int, to as int),
{
    from <= to && to <= text.len() && is_boundary(text, from) && is_boundary(text, to)
}

/// The number of bytes of the delimiter at a position.
fn delimiter_length(position: &SplitTagPosition<'_>) -> (len: usize)
    ensures
        len == delimiter_len(position@),
{
    position.delimiter.as_str().as_bytes().len()
}

/// Whether window `k` of `positions` fits `source`.
fn window_is_fit(text: &[u8], positions: &Vec<SplitTagPosition<'_>>, k: usize) -> (ok: bool)
    requires
        k + 1 < positions@.len(),
    ensures
        ok == window_fits(text@, position_models(positions@), k as int),
{
    let n = positions.len();
    let len = text.len();
    let open = &positions[k];
    let close = &positions[k + 1];
    let ghost models = position_models(positions@);
    assert(models[k as int] == open@ && models[k + 1] == close@);
    let replace = k % 2 == 0;
    let from = if replace || open.byte_offset == 0 {
        open.byte_offset
    } else {
        match open.byte_offset.checked_add(delimiter_length(open)) {
            Some(from) => from,
            None => {
                assert(window_from(models, k as int) > len);
                return false;
            },
        }
    };
    let to = if replace {
        match close.byte_offset.checked_add(delimiter_length(close)) {
            Some(to) => to,
            None => {
                assert(window_to(models, k as int) > len);
                return false;
            },
        }
    } else {
        close.byte_offset
    };
    if !is_valid_range(text, from, to) {
        return false;
    }
    if replace {
        starts_with_at(text, from, to, open.delimiter.as_str().as_bytes()) && ends_with_at(
            text,
            from,
            to,
            close.delimiter.as_str().as_bytes(),
        )
    } else {
        true
    }
}

/// Whether `positions` fit `source`, so that the document can be cut into
/// the spans that they bound.
pub fn positions_fit(source: &str, positions: &Vec<SplitTagPosition<'_>>) -> (ok: bool)
    ensures
        ok == spans_fit(source.spec_bytes(), position_models(positions@)),
{
    let text = source.as_bytes();
    let n = positions.len();
    let ghost models = position_models(positions@);
    if n == 0 {
        return true;
    }
    assert(models[0] == positions@[0]@ && models.last() == positions@[n - 1]@);
    let first = positions[0].byte_offset;
    if first > 0 && !is_valid_range(text, 0, first) {
        return false;
    }
    let last = &positions[n - 1];
    if last.byte_offset < text.len() {
        match last.byte_offset.checked_add(delimiter_length(last)) {
            Some(from) => {
                if !is_valid_range(text, from, text.len()) {
                    return false;
                }
            },
            None => {
                return false;
            },
        }
    }
    let mut k: usize = 0;
    while k + 1 < n
        invariant
            n == positions@.len(),
            n > 0,
            k < n,
            text@ == source.spec_bytes(),
            models == position_models(positions@),
            forall|j: int| 0 <= j < k ==> #[trigger] window_fits(text@, models, j),
        decreases n - k,
    {
        if !window_is_fit(text, positions, k) {
            return false;
        }
        k += 1;
    }
    true
}

/// Cuts `source` into its spans, given the delimiter positions that bound
/// them.
///
/// The positions have to fit the document ([`spans_fit`], which
/// [`positions_fit`] tests).
pub fn iter_over_dollar_encompassed_blocks<'a>(
    source: &'a str,
    positions: Vec<SplitTagPosition<'a>>,
) -> (spans: Vec<Tagged<'a>>)
    requires
        spans_fit(source.spec_bytes(), position_models(positions@)),
    ensures
        tagged_models(spans@) == pair_spec(source.spec_bytes(), position_models(positions@)),
{
    let text = source.as_bytes();
    let len = text.len();
    let n = positions.len();
    let ghost src = source.spec_bytes();
    let ghost models = position_models(positions@);
    let mut out: Vec<Tagged<'a>> = Vec::new();
    let start = LiCo { lineno: 1, column: 1 };
    assert(tagged_models(out@) =~= Seq::<TaggedModel>::empty());
    if n == 0 {
        let end = end_lico(text, 0);
        assert(src.subrange(0, len as int) =~= src);
        let content = Content {
            s: source,
            start,
            end,
            byte_range: 0..len,
            start_del: Marker::StartOfDocument(start, 0),
            end_del: Marker::EndOfDocument(end, len),
        };
        let span = Tagged::Keep(content);
        proof {
            assert(span@ == whole(src));
            lemma_tagged_push(out@, span);
            assert(Seq::<TaggedModel>::empty().push(span@) =~= seq![span@]);
            assert(windows(src, models) =~= Seq::<TaggedModel>::empty());
            assert(seq![span@] + Seq::<TaggedModel>::empty() + Seq::<TaggedModel>::empty()
                =~= seq![span@]);
        }
        out.push(span);
        return out;
    }
    assert(models[0] == positions@[0]@ && models.last() == positions@[n - 1]@);
    if positions[0].byte_offset > 0 {
        let to = positions[0].byte_offset;
        let content = Content {
            s: slice_str(source, 0, to),
            start,
            end: positions[0].lico,
            byte_range: 0..to,
            start_del: Marker::StartOfDocument(start, 0),
            end_del: positions[0].delimiter,
        };
        let span = Tagged::Keep(content);
        proof {
            lemma_tagged_push(out@, span);
            assert(Seq::<TaggedModel>::empty().push(span@) =~= leading(src, models));
        }
        out.push(span);
    }
    let mut k: usize = 0;
    while k + 1 < n
        invariant
            n == positions@.len(),
            n > 0,
            k < n,
            text@ == src,
            len == text@.len(),
            src == source.spec_bytes(),
            models == position_models(positions@),
            spans_fit(src, models),
            tagged_models(out@) == leading(src, models) + Seq::new(
                k as nat,
                |j: int| window(src, models, j),
            ),
        decreases n - k,
    {
        let open = &positions[k];
        let close = &positions[k + 1];
        assert(models[k as int] == open@ && models[k + 1] == close@);
        assert(window_fits(src, models, k as int));
        let replace = k % 2 == 0;
        let from = if replace || open.byte_offset == 0 {
            open.byte_offset
        } else {
            open.byte_offset + delimiter_length(open)
        };
        let to = if replace {
            close.byte_offset + delimiter_length(close)
        } else {
            close.byte_offset
        };
        let content = Content {
            s: slice_str(source, from, to),
            start: open.lico,
            end: close.lico,
            byte_range: from..to,
            start_del: open.delimiter,
            end_del: close.delimiter,
        };
        let span = if replace {
            Tagged::Replace(content)
        } else {
            Tagged::Keep(content)
        };
        proof {
            assert(span@ == window(src, models, k as int));
            lemma_tagged_push(out@, span);
            let done = Seq::new(k as nat, |j: int| window(src, models, j));
            let more = Seq::new((k + 1) as nat, |j: int| window(src, models, j));
            assert(done.push(span@) =~= more);
            assert((leading(src, models) + done).push(span@) =~= leading(src, models) + more);
        }
        out.push(span);
        k += 1;
    }
    assert(Seq::new(k as nat, |j: int| window(src, models, j)) =~= windows(src, models));
    let last = &positions[n - 1];
    if last.byte_offset < len {
        let from = last.byte_offset + delimiter_length(last);
        let end = end_lico(text, from);
        let content = Content {
            s: slice_str(source, from, len),
            start: last.lico,
            end,
            byte_range: from..len,
            start_del: last.delimiter,
            end_del: Marker::EndOfDocument(end, len),
        };
        let span = Tagged::Keep(content);
        proof {
            lemma_tagged_push(out@, span);
            let head = leading(src, models) + windows(src, models);
            assert(head.push(span@) =~= head + trailing(src, models));
        }
        out.push(span);
    } else {
        let ghost head = leading(src, models) + windows(src, models);
        assert(head + Seq::<TaggedModel>::empty() =~= head);
    }
    out
}

/// The texts of the spans, one behind the other.
pub open spec fn joined(spans: Seq<TaggedModel>) -> Seq<u8>
    decreases spans.len(),
{
    if spans.len() == 0 {
        Seq::empty()
    } else {
        joined(spans.drop_last()) + spans.last().content.text
    }
}

/// Whether the spans that the positions bound leave nothing out and take
/// nothing twice. That is so where no span to keep starts at offset zero
/// behind a delimiter with a text, and where the last position closes a
/// span to replace, has a delimiter without text or stands at the end of
/// the document.
pub open spec fn spans_tile(source: Seq<u8>, positions: Seq<PositionModel>) -> bool {
    &&& forall|k: int|
        0 <= k < window_count(positions) && !window_replaces(k) ==> positions[k].byte_offset > 0
            || delimiter_len(#[trigger] positions[k]) == 0
    &&& positions.len() % 2 == 1 ==> delimiter_len(positions.last()) == 0
        || positions.last().byte_offset >= source.len()
}

/// Up to which byte offset the text before the first position and the
/// first `k` windows reach.
pub open spec fn covered(positions: Seq<PositionModel>, k: int) -> int {
    if k <= 0 {
        positions[0].byte_offset
    } else {
        window_to(positions, k - 1)
    }
}

/// Joining with one more span adds the text of that span.
proof fn lemma_joined_push(spans: Seq<TaggedModel>, next: TaggedModel)
    ensures
        joined(spans.push(next)) == joined(spans) + next.content.text,
{
    assert(spans.push(next).drop_last() =~= spans);
}

/// One span, joined, is its text.
proof fn lemma_joined_one(span: TaggedModel)
    ensures
        joined(seq![span]) == span.content.text,
{
    assert(seq![span].drop_last() =~= Seq::<TaggedModel>::empty());
    assert(joined(Seq::<TaggedModel>::empty()) + span.content.text =~= span.content.text);
}

/// The text before the first position and the first `k` windows, joined,
/// are the document up to where they reach.
proof fn lemma_windows_join(source: Seq<u8>, positions: Seq<PositionModel>, k: int)
    requires
        positions.len() > 0,
        0 <= k <= window_count(positions),
        spans_fit(source, positions),
        spans_tile(source, positions),
    ensures
        0 <= covered(positions, k) <= source.len(),
        joined(leading(source, positions) + Seq::new(k as nat, |j: int| window(source, positions, j)))
            == source.subrange(0, covered(positions, k)),
    decreases k,
{
    let lead = leading(source, positions);
    if k == 0 {
        assert(lead + Seq::new(0nat, |j: int| window(source, positions, j)) =~= lead);
        if positions[0].byte_offset > 0 {
            lemma_joined_one(lead[0]);
        } else {
            if window_count(positions) > 0 {
                assert(window_fits(source, positions, 0));
            }
            assert(source.subrange(0, 0) =~= Seq::<u8>::empty());
        }
        if positions[0].byte_offset <= 0 && window_count(positions) == 0 {
            assert(positions.last() == positions[0]);
        }
        assert(0 <= covered(positions, 0) <= source.len()) by {
            if positions[0].byte_offset > 0 {
            } else if window_count(positions) > 0 {
                assert(window_fits(source, positions, 0));
            } else {
                assert(positions.last() == positions[0]);
            }
        }
    } else {
        lemma_windows_join(source, positions, k - 1);
        let done = Seq::new((k - 1) as nat, |j: int| window(source, positions, j));
        let more = Seq::new(k as nat, |j: int| window(source, positions, j));
        let next = window(source, positions, k - 1);
        assert(window_fits(source, positions, k - 1));
        assert(done.push(next) =~= more);
        assert((lead + done).push(next) =~= lead + more);
        lemma_joined_push(lead + done, next);
        assert(window_from(positions, k - 1) == covered(positions, k - 1)) by {
            if k - 1 > 0 {
                assert(window_fits(source, positions, k - 2));
                if !window_replaces(k - 1) {
                    let open = positions[k - 1];
                    assert(open.byte_offset > 0 || delimiter_len(open) == 0);
                }
            }
        }
        assert(source.subrange(0, covered(positions, k - 1)) + source.subrange(
            window_from(positions, k - 1),
            window_to(positions, k - 1),
        ) =~= source.subrange(0, covered(positions, k)));
    }
}

/// Joined in order, the spans of a document are the document: where the
/// positions fit it and the spans tile it, nothing is lost and nothing is
/// doubled.
pub proof fn lemma_spans_rebuild_source(source: Seq<u8>, positions: Seq<PositionModel>)
    requires
        spans_fit(source, positions),
        spans_tile(source, positions),
    ensures
        joined(pair_spec(source, positions)) == source,
{
    let lead = leading(source, positions);
    let mid = windows(source, positions);
    let tail = trailing(source, positions);
    if positions.len() == 0 {
        assert(mid =~= Seq::<TaggedModel>::empty());
        assert(lead + mid + tail =~= lead);
        lemma_joined_one(whole(source));
    } else {
        let n = window_count(positions) as int;
        lemma_windows_join(source, positions, n);
        assert(Seq::new(n as nat, |j: int| window(source, positions, j)) =~= mid);
        let last = positions.last();
        let reach = covered(positions, n);
        if n > 0 {
            assert(window_fits(source, positions, n - 1));
        }
        if last.byte_offset < source.len() {
            assert((lead + mid).push(tail[0]) =~= lead + mid + tail);
            lemma_joined_push(lead + mid, tail[0]);
            assert(reach == last.byte_offset + delimiter_len(last)) by {
                if n > 0 && !window_replaces(n - 1) {
                    assert(positions.len() % 2 == 1);
                }
            }
            assert(source.subrange(0, reach) + source.subrange(reach, source.len() as int)
                =~= source);
        } else {
            assert(lead + mid + tail =~= lead + mid);
            assert(reach == source.len());
            assert(source.subrange(0, source.len() as int) =~= source);
        }
    }
}

/// Every span to replace that the positions bound is well formed and
/// starts and ends with its two delimiters, and every span lies within
/// the document.
pub proof fn lemma_spans_are_bounded(source: Seq<u8>, positions: Seq<PositionModel>, i: int)
    requires
        spans_fit(source, positions),
        0 <= i < pair_spec(source, positions).len(),
    ensures
        pair_spec(source, positions)[i].content.well_formed(),
        pair_spec(source, positions)[i].content.to <= source.len(),
        pair_spec(source, positions)[i].content.text == source.subrange(
            pair_spec(source, positions)[i].content.from,
            pair_spec(source, positions)[i].content.to,
        ),
        pair_spec(source, positions)[i].replace ==> pair_spec(
            source,
            positions,
        )[i].content.bounded_by_delimiters(),
{
    let lead = leading(source, positions);
    let mid = windows(source, positions);
    let tail = trailing(source, positions);
    if i < lead.len() {
        assert(source.subrange(0, source.len() as int) =~= source);
    } else if i < lead.len() + mid.len() {
        let k = i - lead.len();
        assert(window_fits(source, positions, k));
    } else {
    }
}

} // verus!
