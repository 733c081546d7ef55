use mathyank::dollar_spans;
use mathyank::file_name_of_title;
use mathyank::TexEvent;
use mathyank::TexWriter;
use regex::Regex;
use mathyank::dollar_split_tags_iter;
use mathyank::iter_over_dollar_encompassed_blocks;
use mathyank::positions_fit;
use mathyank::replace_text;
use mathyank::text::trim_str;
use mathyank::LiCo;
use mathyank::Marker;
use mathyank::Tagged;

const DOCUMENTS: [&str; 14] = [
    "",
    "plain",
    "x: $1$",
    "$a$$b$",
    "$$\n1\n$$",
    "intro\n$$equ,e,T\nx\n$$\noutro $ref:equ:e$ done\n",
    "`$` and $x$ and ```\n",
    "```\n$x$\n```\n$y$\n",
    "<pre>\n$x$\n</pre>\n$y$ z\n",
    "℃ $é$ ⅌\n$$\n∑\n$$\n",
    "a $b",
    "\n\n$a$\n\n",
    "$$\n$$",
    "$$\n$a$\n$$\n",
];

#[test]
fn white_space_is_what_the_standard_library_trims() {
    for code in 0..=0x10FFFFu32 {
        if let Some(c) = char::from_u32(code) {
            let text = format!("{c}a{c}b{c}");
            assert_eq!(trim_str(&text), text.trim(), "U+{code:04X}");
        }
    }
    for text in ["", " ", " \t\n", "a", " a b ", "\u{3000}x\u{2003}", "\r\n x \r\n"] {
        assert_eq!(trim_str(text), text.trim());
    }
}

#[test]
fn replacing_is_what_the_standard_library_replaces() {
    let cases = [
        ("", "a", "b"),
        ("aaa", "aa", "b"),
        ("abcabc", "bc", ""),
        ("a…b…", "…", "..."),
        ("\\title{} and \\title{}", "\\title{}", "\\title{T}"),
        ("../../x/../y", "../", ""),
        ("!!!!!!!", "!!!", "C"),
        ("℃℃", "℃", "é"),
        ("abc", "abcd", "x"),
    ];
    for (text, pattern, with) in cases {
        assert_eq!(replace_text(text, pattern, with), text.replace(pattern, with));
    }
}

#[test]
fn lines_are_counted_as_the_standard_library_cuts_them() {
    for text in ["$a$\n$b$\r\n$c$\n\n$d$", "\r\n$a$", "x\r\r\n$a$\ry\n$b$", "$a$\n"] {
        let lines: Vec<usize> = text
            .lines()
            .enumerate()
            .filter(|(_, line)| line.contains('$'))
            .map(|(index, _)| index + 1)
            .collect();
        let mut found: Vec<usize> =
            dollar_split_tags_iter(text).iter().map(|p| p.lico.lineno).collect();
        found.dedup();
        assert_eq!(found, lines, "{text:?}");
    }
}

#[test]
fn byte_offsets_are_counted_with_one_byte_for_each_line_end() {
    for text in ["$a$\n$b$\r\n$c$\n\n$d$", "\r\n$a$", "x\r\r\n$a$\ry\n$b$", "é$\n$é$"] {
        let mut offset = 0;
        let mut expected = Vec::new();
        for line in text.lines() {
            let mut open = false;
            for (at, c) in line.char_indices() {
                if c == '$' {
                    open = !open;
                    expected.push(offset + at);
                }
            }
            if open {
                expected.push(line.len());
            }
            offset += line.len() + 1;
        }
        let found: Vec<usize> =
            dollar_split_tags_iter(text).iter().map(|p| p.byte_offset).collect();
        assert_eq!(found, expected, "{text:?}");
    }
}

fn end_of(text: &str, whole: &str) -> LiCo {
    let (last_lineno, last_line) = text.lines().enumerate().last().unwrap_or((0, whole));
    LiCo { lineno: last_lineno + 1, column: last_line.chars().count() }
}

#[test]
fn documents_end_where_their_last_line_ends() {
    for text in ["", "a", "a\n", "a\nbc", "a\r\nbcd\r\n", "\n", "\n\n", "é\r", "x $y$ z\nw℃\n"] {
        let spans = dollar_spans(text).unwrap();
        let last = spans.last().unwrap().as_ref();
        if let Marker::EndOfDocument(end, offset) = last.end_del {
            assert_eq!(offset, text.len());
            assert_eq!(end, last.end);
            assert_eq!(end, end_of(last.s, text), "{text:?}");
        } else {
            assert_eq!(last.byte_range.end, text.len());
        }
    }
}

#[test]
fn spans_rebuild_the_document() {
    for text in DOCUMENTS {
        let positions = dollar_split_tags_iter(text);
        assert!(positions_fit(text, &positions), "{text:?}");
        let spans = iter_over_dollar_encompassed_blocks(text, positions);
        let mut at = 0;
        for span in spans.iter() {
            let content = span.as_ref();
            assert_eq!(content.byte_range.start, at, "{text:?}");
            assert_eq!(content.s, &text[content.byte_range.clone()]);
            at = content.byte_range.end;
        }
        assert_eq!(at, text.len());
        let joined: String = spans.iter().map(|span| span.as_ref().s).collect();
        assert_eq!(joined, text);
    }
}

#[test]
fn delimiters_open_and_close_in_turn() {
    for text in DOCUMENTS.iter().take(13) {
        let positions = dollar_split_tags_iter(text);
        for (index, position) in positions.iter().enumerate() {
            assert!(position.lico.lineno >= 1 && position.lico.column >= 1);
            match position.delimiter {
                Marker::Start(opening) => {
                    assert_eq!(index % 2, 0, "{text:?}");
                    assert!(opening == "$" || opening == "$$");
                }
                Marker::End(closing) => {
                    assert_eq!(index % 2, 1, "{text:?}");
                    let opening = positions[index - 1].delimiter.as_str();
                    assert!(closing == opening || (opening == "$" && closing.is_empty()));
                }
                other => panic!("no delimiter of the scanner: {:?}", other),
            }
        }
    }
}

#[test]
fn inline_delimiters_inside_a_block_do_not_take_turns() {
    let positions = dollar_split_tags_iter("$$\n$a$\n$$\n");
    let kinds: Vec<Marker<'_>> = positions.iter().map(|p| p.delimiter).collect();
    assert_eq!(
        kinds,
        vec![Marker::Start("$$"), Marker::Start("$"), Marker::End("$"), Marker::End("$$")]
    );
}

#[test]
fn byte_offsets_grow() {
    for text in DOCUMENTS {
        let positions = dollar_split_tags_iter(text);
        for pair in positions.windows(2) {
            assert!(pair[0].byte_offset < pair[1].byte_offset, "{text:?}");
        }
    }
}

#[test]
fn replaced_spans_can_be_trimmed_strictly_inside() {
    for text in DOCUMENTS.iter().take(10) {
        for span in dollar_spans(text).unwrap() {
            if let Tagged::Replace(content) = span {
                assert!(content.s.starts_with(content.start_del.as_str()));
                assert!(content.s.ends_with(content.end_del.as_str()));
                let payload = content.try_trimmed().unwrap();
                assert!(content.byte_range.start < payload.byte_range.start);
                assert!(payload.byte_range.start <= payload.byte_range.end);
                assert!(payload.byte_range.end < content.byte_range.end);
                assert_eq!(payload.trimmed, &text[payload.byte_range.clone()]);
            }
        }
    }
}

#[test]
fn names_of_files_are_what_a_pattern_leaves() {
    let pattern = Regex::new("[^A-Za-z0-9_-]").unwrap();
    for title in [
        "",
        "My Book",
        "a_b-c.d/e",
        "Ünïcödé ℃ title_9",
        "--__--",
        "tab\there\nand there",
        "100% (one hundred)",
        "\u{0}Z\u{7f}z[]^`{}@",
    ] {
        assert_eq!(file_name_of_title(title), pattern.replace_all(title, ""), "{title:?}");
    }
    for code in 0..=0x2FFFu32 {
        if let Some(c) = char::from_u32(code) {
            let title = format!("a{c}b");
            assert_eq!(file_name_of_title(&title), pattern.replace_all(&title, ""), "U+{code:04X}");
        }
    }
}

#[test]
fn languages_are_what_a_pattern_leaves() {
    let pattern = Regex::new(r",.*").unwrap();
    for line in [
        "",
        "rust",
        "rust,ignore",
        "rust,ignore,should_panic",
        ",",
        ",rust",
        "rust,ignore\nnext",
        "rust,ignore\r\nnext,more",
        "rust\n,ignore\nnext",
        "ℌ,é",
    ] {
        let mut writer = TexWriter::new();
        writer.feed(&TexEvent::StartCodeBlock { language: Some(line) });
        assert_eq!(
            writer.output,
            format!("\\begin{{lstlisting}}[language={}]\n", pattern.replace(line, "")),
            "{line:?}"
        );
    }
}
