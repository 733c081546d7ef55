use mathyank::dollar_split_tags_iter;
use mathyank::LiCo;
use mathyank::Marker;
use mathyank::SplitTagPosition;

fn start(lineno: usize, column: usize, byte_offset: usize, text: &'static str) -> SplitTagPosition<'static> {
    SplitTagPosition { lico: LiCo { lineno, column }, byte_offset, delimiter: Marker::Start(text) }
}

fn end(lineno: usize, column: usize, byte_offset: usize, text: &'static str) -> SplitTagPosition<'static> {
    SplitTagPosition { lico: LiCo { lineno, column }, byte_offset, delimiter: Marker::End(text) }
}

#[test]
fn bare() {
    assert_eq!(dollar_split_tags_iter("a ’ c"), vec![]);
}

#[test]
fn oneline() {
    assert_eq!(
        dollar_split_tags_iter("’ $b$ c"),
        vec![start(1, 3, 4, "$"), end(1, 5, 6, "$")]
    );
}

#[test]
fn nonascii_oneline() {
    assert_eq!(
        dollar_split_tags_iter(" ’ℌ $b$"),
        vec![start(1, 5, 8, "$"), end(1, 7, 10, "$")]
    );
}

#[test]
fn oneline_unclosed() {
    assert_eq!(
        dollar_split_tags_iter("’ $b c"),
        vec![start(1, 3, 4, "$"), end(1, 7, 8, "")]
    );
}

#[test]
fn dollar_block_1() {
    assert_eq!(
        dollar_split_tags_iter("\n$$\n\\epsilon\n$$\n"),
        vec![start(2, 1, 1, "$$"), end(4, 1, 13, "$$")]
    );
}

#[test]
fn pre_block_w_unclosed_inlines() {
    assert_eq!(
        dollar_split_tags_iter("\n$a\n<pre>\n\\epsilon\n</pre>\n$4\n"),
        vec![start(2, 1, 1, "$"), end(2, 3, 2, ""), start(6, 1, 26, "$"), end(6, 3, 2, "")]
    );
}

#[test]
fn all_in_code_block() {
    assert_eq!(dollar_split_tags_iter("\n```bash\n$ foo $ $$ $?\n```\n"), vec![]);
}

#[test]
fn iter_over_empty_intra_line_sequences() {
    assert_eq!(
        dollar_split_tags_iter("fo’ $$_$$ bar"),
        vec![start(1, 5, 6, "$"), end(1, 6, 7, "$"), start(1, 8, 9, "$"), end(1, 9, 10, "$")]
    );
}

#[test]
fn fenced_dollars_are_passed_over() {
    assert_eq!(dollar_split_tags_iter("```\n$x$\n```\n"), vec![]);
}

#[test]
fn dollars_in_inline_code_are_passed_over() {
    assert_eq!(
        dollar_split_tags_iter("a `$` $b$"),
        vec![start(1, 7, 6, "$"), end(1, 9, 8, "$")]
    );
}

#[test]
fn scanning_twice_gives_the_same() {
    let text = "x: $1$\n$$\ny\n$$\n`$` $";
    assert_eq!(dollar_split_tags_iter(text), dollar_split_tags_iter(text));
}

#[test]
fn carriage_return_is_no_part_of_the_line() {
    assert_eq!(
        dollar_split_tags_iter("a$\r\nb$c$"),
        vec![start(1, 2, 1, "$"), end(1, 3, 2, ""), start(2, 2, 4, "$"), end(2, 4, 6, "$")]
    );
}

#[test]
fn a_fence_line_yields_nothing() {
    assert_eq!(
        dollar_split_tags_iter("```\ncode\n```` $x$\n$y$"),
        vec![start(4, 1, 18, "$"), end(4, 3, 20, "$")]
    );
    assert_eq!(dollar_split_tags_iter("```` $x$\n$y$\n```\n"), vec![]);
}

#[test]
fn lines_of_a_preformatted_block_yield_nothing() {
    assert_eq!(
        dollar_split_tags_iter("<pre>$a$\n$b$\n</pre>$c$\n$d$"),
        vec![start(4, 1, 23, "$"), end(4, 3, 25, "$")]
    );
    assert_eq!(dollar_split_tags_iter("<pre>\n```\n</pre>\n$$\n"), vec![start(4, 1, 17, "$$")]);
}

#[test]
fn a_fence_inside_a_block_hides_its_lines() {
    assert_eq!(
        dollar_split_tags_iter("$$\n```\n$$\n```\n$$\n"),
        vec![start(1, 1, 0, "$$"), end(5, 1, 14, "$$")]
    );
}
