use mathyank::dollar_split_tags_iter;
use mathyank::iter_over_dollar_encompassed_blocks;
use mathyank::positions_fit;
use mathyank::Content;
use mathyank::LiCo;
use mathyank::Marker;
use mathyank::SplitTagPosition;
use mathyank::Tagged;

const K: bool = true;
const R: bool = false;

fn spans(text: &str) -> Vec<Tagged<'_>> {
    let positions = dollar_split_tags_iter(text);
    assert!(positions_fit(text, &positions));
    iter_over_dollar_encompassed_blocks(text, positions)
}

fn check(text: &str, expected: &[(bool, std::ops::Range<usize>, &str)]) {
    let ist = spans(text);
    assert_eq!(ist.len(), expected.len());
    for (ist, soll) in ist.iter().zip(expected.iter()) {
        assert_eq!(&text[soll.1.clone()], soll.2);
        match ist {
            Tagged::Replace(_) => assert!(!soll.0),
            Tagged::Keep(_) => assert!(soll.0),
        }
        let content: &Content<'_> = ist.as_ref();
        assert_eq!(content.s, soll.2);
        assert_eq!(content.byte_range, soll.1);
        assert_eq!(content.s, &text[content.byte_range.clone()]);
    }
    let joined: String = ist.iter().map(|t| t.as_ref().s).collect();
    assert_eq!(joined, text);
}

#[test]
fn singlje_x() {
    check("x: $1$", &[(K, 0..3, "x: "), (R, 3..6, "$1$"), (K, 6..6, "")]);
}

#[test]
fn doublje_x_y() {
    check(
        "x:$1$y:$2$",
        &[(K, 0..2, "x:"), (R, 2..5, "$1$"), (K, 5..7, "y:"), (R, 7..10, "$2$"), (K, 10..10, "")],
    );
}

#[test]
fn onelinje() {
    check(
        "$1$ $2$ $3$",
        &[
            (R, 0..3, "$1$"),
            (K, 3..4, " "),
            (R, 4..7, "$2$"),
            (K, 7..8, " "),
            (R, 8..11, "$3$"),
            (K, 11..11, ""),
        ],
    );
}

#[test]
fn nonascii_prefix() {
    check("℃ $1234$", &[(K, 0..4, "℃ "), (R, 4..10, "$1234$"), (K, 10..10, "")]);
}

#[test]
fn oneblockje() {
    check("$$\n1\n$$", &[(R, 0..7, "$$\n1\n$$"), (K, 7..7, "")]);
}

#[test]
fn oneblockje_w_prefix() {
    check(
        "Hello’ there is a block\n$$\n1\n$$",
        &[(K, 0..26, "Hello’ there is a block\n"), (R, 26..33, "$$\n1\n$$"), (K, 33..33, "")],
    );
}

#[test]
fn nope() {
    check(
        "# abc\n\nHello’ the block is a myth!\n        \n",
        &[(K, 0..46, "# abc\n\nHello’ the block is a myth!\n        \n")],
    );
}

#[test]
fn formula_in_a_sentence() {
    check(
        "A $\\sum_1^12 x^2$ formula",
        &[(K, 0..2, "A "), (R, 2..17, "$\\sum_1^12 x^2$"), (K, 17..25, " formula")],
    );
}

#[test]
fn unclosed_dollar_is_closed_at_the_end_of_the_line() {
    check("’ $b c", &[(K, 0..4, "’ "), (R, 4..8, "$b c")]);
}

#[test]
fn empty_document_is_one_kept_span() {
    let ist = spans("");
    assert_eq!(ist.len(), 1);
    let content = ist[0].as_ref();
    assert!(matches!(ist[0], Tagged::Keep(_)));
    assert_eq!(content.s, "");
    assert_eq!(content.start, LiCo { lineno: 1, column: 1 });
    assert_eq!(content.end, LiCo { lineno: 1, column: 0 });
    assert_eq!(content.start_del, Marker::StartOfDocument(LiCo { lineno: 1, column: 1 }, 0));
    assert_eq!(content.end_del, Marker::EndOfDocument(LiCo { lineno: 1, column: 0 }, 0));
}

#[test]
fn document_without_delimiters_ends_on_its_last_line() {
    let ist = spans("ab\ncde\n");
    let content = ist[0].as_ref();
    assert_eq!(content.end, LiCo { lineno: 2, column: 3 });
    assert_eq!(content.end_del, Marker::EndOfDocument(LiCo { lineno: 2, column: 3 }, 7));
}

#[test]
fn spans_carry_the_delimiters_that_bound_them() {
    let ist = spans("x: $1$ y");
    let keep = ist[0].as_ref();
    assert_eq!(keep.start_del, Marker::StartOfDocument(LiCo { lineno: 1, column: 1 }, 0));
    assert_eq!(keep.end_del, Marker::Start("$"));
    assert_eq!(keep.start, LiCo { lineno: 1, column: 1 });
    assert_eq!(keep.end, LiCo { lineno: 1, column: 4 });
    let replace = ist[1].as_ref();
    assert_eq!(replace.start_del, Marker::Start("$"));
    assert_eq!(replace.end_del, Marker::End("$"));
    assert_eq!(replace.start, LiCo { lineno: 1, column: 4 });
    assert_eq!(replace.end, LiCo { lineno: 1, column: 6 });
    let tail = ist[2].as_ref();
    assert_eq!(tail.s, " y");
    assert_eq!(tail.start_del, Marker::End("$"));
    assert_eq!(tail.end, LiCo { lineno: 1, column: 2 });
    assert_eq!(tail.end_del, Marker::EndOfDocument(LiCo { lineno: 1, column: 2 }, 8));
}

#[test]
fn positions_out_of_order_do_not_fit() {
    let text = "aaaa\n$b";
    let positions = dollar_split_tags_iter(text);
    assert_eq!(positions[1].byte_offset, 2);
    assert!(!positions_fit(text, &positions));
}

#[test]
fn positions_inside_a_character_do_not_fit() {
    let text = "℃$";
    let positions = vec![
        SplitTagPosition {
            lico: LiCo { lineno: 1, column: 1 },
            byte_offset: 1,
            delimiter: Marker::Start("$"),
        },
    ];
    assert!(!positions_fit(text, &positions));
}

#[test]
fn an_open_block_loses_its_delimiter() {
    let text = "$$\nabc";
    let positions = dollar_split_tags_iter(text);
    assert!(positions_fit(text, &positions));
    let ist = iter_over_dollar_encompassed_blocks(text, positions);
    let joined: String = ist.iter().map(|t| t.as_ref().s).collect();
    assert_eq!(joined, "\nabc");
}
