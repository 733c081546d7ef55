use mathyank::Content;
use mathyank::LiCo;
use mathyank::Marker;
use mathyank::Trimmed;

fn content<'a>(input: &'a str, delimiter: &'a str) -> Content<'a> {
    let (last_lineno, last_line) = input.lines().enumerate().last().unwrap();
    let (last_line_char_offset, _) = last_line.char_indices().enumerate().last().unwrap();
    Content {
        s: input,
        start: LiCo { lineno: 1, column: 1 },
        end: LiCo { lineno: last_lineno + 1, column: last_line_char_offset },
        byte_range: 0..input.len(),
        start_del: Marker::Start(delimiter),
        end_del: Marker::End(delimiter),
    }
}

fn check(
    input: &str,
    delimiter: &str,
    start: (usize, usize),
    end: (usize, usize),
    payload: &str,
    parameters: Option<&str>,
) {
    assert!(input.starts_with(delimiter));
    let content = content(input, delimiter);
    let dollarless = content.try_trimmed().unwrap();
    assert_eq!(content.trimmed(), dollarless);
    assert_eq!(Trimmed::from(&content), dollarless);
    assert!(dollarless.byte_range.len() < content.byte_range.len());
    assert!(dollarless.byte_range.start > content.byte_range.start);
    assert!(dollarless.byte_range.end < content.byte_range.end);
    assert_eq!(dollarless.trimmed, &content.s[dollarless.byte_range.clone()]);
    assert_eq!(dollarless.trimmed, payload);
    assert_eq!(dollarless.as_str(), payload);
    assert!(dollarless.start > content.start);
    assert!(dollarless.end <= content.end);
    assert_eq!(dollarless.parameters, parameters);
    assert_eq!(dollarless.start, LiCo { lineno: start.0, column: start.1 });
    assert_eq!(dollarless.end, LiCo { lineno: end.0, column: end.1 });
}

#[test]
fn boring_inline() {
    check("$xyz$", "$", (1, 2), (1, 4), "xyz", None);
}

#[test]
fn block_w_params() {
    check(
        "$$params,params,params\nfo’\n$$",
        "$$",
        (2, 1),
        (2, 4),
        "fo’\n",
        Some("params,params,params"),
    );
}

#[test]
fn empty_block() {
    check("$$\n$$", "$$", (2, 1), (2, 1), "", None);
}

#[test]
fn boring_block_w_nonascii() {
    check("$$\nhel℃⅌ charlie$\n$$", "$$", (2, 1), (2, 15), "hel℃⅌ charlie$\n", None);
}

#[test]
fn block_with_title_keeps_its_last_line_feed() {
    check(
        "$$equ,xyz,Some title\n\\sum_1^12 x^2\n$$",
        "$$",
        (2, 1),
        (2, 14),
        "\\sum_1^12 x^2\n",
        Some("equ,xyz,Some title"),
    );
}

#[test]
fn block_of_several_lines() {
    check("$$\na\n\nbc\n$$", "$$", (2, 1), (4, 3), "a\n\nbc\n", None);
}

#[test]
fn inline_without_payload() {
    let content = content("$$", "$");
    let dollarless = content.try_trimmed().unwrap();
    assert_eq!(dollarless.trimmed, "");
    assert_eq!(dollarless.byte_range, 1..1);
    assert_eq!(dollarless.start, LiCo { lineno: 1, column: 2 });
    assert_eq!(dollarless.end, LiCo { lineno: 1, column: 1 });
}

#[test]
fn inline_loses_one_character_on_each_side() {
    let content = content("℃ab⅌", "$");
    let dollarless = content.try_trimmed().unwrap();
    assert_eq!(dollarless.trimmed, "ab");
    assert_eq!(dollarless.byte_range, 3..5);
}

#[test]
fn payload_is_placed_in_the_document() {
    let content = Content {
        s: "$xyz$",
        start: LiCo { lineno: 3, column: 4 },
        end: LiCo { lineno: 3, column: 8 },
        byte_range: 100..105,
        start_del: Marker::Start("$"),
        end_del: Marker::End("$"),
    };
    let dollarless = content.trimmed();
    assert_eq!(dollarless.trimmed, "xyz");
    assert_eq!(dollarless.byte_range, 101..104);
}

#[test]
fn single_character_cannot_be_trimmed() {
    assert_eq!(content("$", "$").try_trimmed(), None);
}

#[test]
fn block_without_line_feed_cannot_be_trimmed() {
    assert_eq!(content("$$abc$$", "$$").try_trimmed(), None);
}

#[test]
fn delimiters_of_two_kinds_cannot_be_trimmed() {
    let mut mixed = content("$$\nx\n$", "$$");
    mixed.end_del = Marker::End("$");
    assert_eq!(mixed.try_trimmed(), None);
    let mut repaired = content("$b c", "$");
    repaired.end_del = Marker::End("");
    assert_eq!(repaired.try_trimmed(), None);
}

#[test]
fn ill_formed_span_cannot_be_trimmed() {
    let mut wrong = content("$xyz$", "$");
    wrong.byte_range = 0..4;
    assert_eq!(wrong.try_trimmed(), None);
}

#[test]
fn whole_document_is_taken_as_it_stands() {
    let start = LiCo { lineno: 1, column: 1 };
    let end = LiCo { lineno: 1, column: 3 };
    let content = Content {
        s: "abc",
        start,
        end,
        byte_range: 0..3,
        start_del: Marker::StartOfDocument(start, 0),
        end_del: Marker::EndOfDocument(end, 3),
    };
    let trimmed = content.try_trimmed().unwrap();
    assert_eq!(trimmed.trimmed, "abc");
    assert_eq!(trimmed.byte_range, 0..3);
    assert_eq!(trimmed.start, start);
    assert_eq!(trimmed.end, end);
    assert_eq!(trimmed.parameters, None);
}
