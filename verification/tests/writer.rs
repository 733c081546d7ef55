use mathyank::Content;
use mathyank::Error;
use mathyank::EventType;
use mathyank::HeadingLevel;
use mathyank::LiCo;
use mathyank::Marker;
use mathyank::TexError;
use mathyank::TexEvent;
use mathyank::TexWriter;
use mathyank::heading_end_text;

fn write(events: &[TexEvent<'_>]) -> String {
    let mut writer = TexWriter::new();
    for event in events {
        assert!(writer.takes(event));
        writer.feed(event);
    }
    writer.output
}

fn span<'a>(text: &'a str, delimiter: &'a str) -> Content<'a> {
    Content {
        s: text,
        start: LiCo { lineno: 1, column: 1 },
        end: LiCo { lineno: 1, column: 1 },
        byte_range: 0..text.len(),
        start_del: Marker::Start(delimiter),
        end_del: Marker::End(delimiter),
    }
}

#[test]
fn paragraph() {
    assert_eq!(
        write(&[TexEvent::StartParagraph, TexEvent::Text("Hello World"), TexEvent::EndParagraph]),
        "\nHello World~\\\\\n"
    );
}

#[test]
fn headings() {
    let levels = [
        (HeadingLevel::H1, "\\chapter{"),
        (HeadingLevel::H2, "\\section{"),
        (HeadingLevel::H3, "\\subsection{"),
        (HeadingLevel::H4, "\\subsubsection{"),
        (HeadingLevel::H5, "\\paragraph{"),
        (HeadingLevel::H6, "\\subparagraph{"),
    ];
    for (level, command) in levels {
        assert_eq!(
            write(&[TexEvent::StartHeading(level), TexEvent::Text("T"), TexEvent::EndHeading]),
            format!("\n{}T}}\n\\label{{}}\n\\label{{}}\n", command)
        );
    }
}

#[test]
fn emphasis_and_strong() {
    assert_eq!(
        write(&[
            TexEvent::StartEmphasis,
            TexEvent::Text("a"),
            TexEvent::EndEmphasis,
            TexEvent::StartStrong,
            TexEvent::Text("b"),
            TexEvent::EndStrong,
        ]),
        "\\emph{a}\\textbf{b}"
    );
}

#[test]
fn lists() {
    assert_eq!(
        write(&[
            TexEvent::StartList { ordered: false },
            TexEvent::StartItem,
            TexEvent::Text("a"),
            TexEvent::EndItem,
            TexEvent::EndList { ordered: false },
            TexEvent::StartList { ordered: true },
            TexEvent::StartItem,
            TexEvent::Text("b"),
            TexEvent::EndItem,
            TexEvent::EndList { ordered: true },
        ]),
        "\\begin{itemize}\n\\item a\n\\end{itemize}\n\\begin{enumerate}\n\\item b\n\\end{enumerate}\n"
    );
}

#[test]
fn links() {
    assert_eq!(
        write(&[
            TexEvent::StartLink { url: "https://nasa.gov/a.png", title: None },
            TexEvent::Text("x"),
            TexEvent::EndLink,
        ]),
        "\\href{https://nasa.gov/a.png}{x}"
    );
    assert_eq!(
        write(&[
            TexEvent::StartLink { url: "../ch1.md#top", title: Some("Chapter One") },
            TexEvent::Text("x"),
            TexEvent::EndLink,
        ]),
        "\\hyperref[Chapter One]{x}"
    );
    assert_eq!(
        write(&[
            TexEvent::StartLink { url: "ch1.md#top#more", title: None },
            TexEvent::Text("x"),
            TexEvent::EndLink,
        ]),
        "\\hyperref[ch1.mdtopmore]{x}"
    );
}

#[test]
fn table() {
    let cell = |text| [TexEvent::StartTableCell, TexEvent::Text(text), TexEvent::EndTableCell];
    let mut events = vec![TexEvent::StartTable, TexEvent::StartTableHead];
    events.extend(cell("Segment"));
    events.extend(cell("..."));
    events.push(TexEvent::EndTableHead);
    events.push(TexEvent::StartTableRow);
    events.extend(cell("64k"));
    events.extend(cell("65q"));
    events.push(TexEvent::EndTableRow);
    events.push(TexEvent::StartTableRow);
    events.extend(cell("aaa"));
    events.extend(cell("ccc"));
    events.push(TexEvent::EndTableRow);
    events.push(TexEvent::EndTable { width: "0.5" });
    let expected = [
        "\n\n",
        "\\begingroup\n",
        "\\setlength{\\LTleft}{-20cm plus -1fill}\n",
        "\\setlength{\\LTright}{\\LTleft}\n",
        "\\begin{longtable}{C{0.5\\textwidth} C{0.5\\textwidth} }\n",
        "\\hline\n",
        "\\hline\n",
        "\n\n",
        "\\bfseries{Segment} & \\bfseries{...} \\\\\n",
        "\\hline\n",
        "64k & 65q \\\\\\arrayrulecolor{lightgray}\\hline\n",
        "aaa & ccc \\\\\\arrayrulecolor{lightgray}\\hline\n",
        "\\arrayrulecolor{black}\\hline\n",
        "\\end{longtable}\n",
        "\\endgroup\n",
        "\n\n",
    ]
    .concat();
    assert_eq!(write(&events), expected);
}

#[test]
fn state_of_a_table() {
    let mut writer = TexWriter::new();
    writer.feed(&TexEvent::StartTable);
    assert_eq!(writer.current.event_type, EventType::Table);
    writer.feed(&TexEvent::StartTableHead);
    assert_eq!(writer.current.event_type, EventType::TableHead);
    writer.feed(&TexEvent::StartTableCell);
    writer.feed(&TexEvent::EndTableCell);
    writer.feed(&TexEvent::StartTableCell);
    writer.feed(&TexEvent::EndTableCell);
    assert_eq!(writer.cells, 2);
    writer.feed(&TexEvent::EndTableHead);
    assert_eq!(writer.current.event_type, EventType::Table);
    writer.feed(&TexEvent::StartTableRow);
    writer.feed(&TexEvent::StartTableCell);
    writer.feed(&TexEvent::EndTableCell);
    assert_eq!(writer.cells, 2);
    writer.feed(&TexEvent::EndTableRow);
    writer.feed(&TexEvent::EndTable { width: "0.5" });
    assert_eq!(writer.cells, 0);
    assert_eq!(writer.current.event_type, EventType::Text);
}

#[test]
fn row_cannot_end_where_nothing_was_written() {
    let mut writer = TexWriter::new();
    assert!(!writer.can_shorten());
    assert!(!writer.takes(&TexEvent::EndTableRow));
    assert!(!writer.takes(&TexEvent::EndTableHead));
    writer.feed(&TexEvent::Text("aé"));
    assert!(writer.can_shorten());
    writer.feed(&TexEvent::Text("é"));
    assert!(writer.can_shorten());
    writer.feed(&TexEvent::Text("℃"));
    assert!(!writer.can_shorten());
    writer.cells = usize::MAX;
    assert!(writer.takes(&TexEvent::EndTableCell));
    writer.feed(&TexEvent::StartTableHead);
    assert!(!writer.takes(&TexEvent::EndTableCell));
}

#[test]
fn image() {
    assert_eq!(
        write(&[TexEvent::StartImage { path: "chapter-1/a.png", caption: "Hello World!" }]),
        "\\begin{figure}%\n\\centering%\n\\includegraphics[width=\\textwidth]{chapter-1/a.png}%\n\\caption{Hello World!}%\n\\end{figure}%\n"
    );
}

#[test]
fn code_blocks() {
    assert_eq!(
        write(&[
            TexEvent::StartCodeBlock { language: Some("rust,no_run") },
            TexEvent::Text("let x = 50 % 3; # & ^\n"),
            TexEvent::EndCodeBlock,
            TexEvent::Text("50% & #"),
        ]),
        "\\begin{lstlisting}[language=rust]\nlet x = 50 % 3; # & ^\n\n\\end{lstlisting}\n50\\% \\& \\#"
    );
    assert_eq!(
        write(&[TexEvent::StartCodeBlock { language: None }, TexEvent::EndCodeBlock]),
        "\\begin{lstlisting}\n\n\\end{lstlisting}\n"
    );
    assert_eq!(
        write(&[TexEvent::StartCodeBlock { language: Some("a,b\nc,d") }]),
        "\\begin{lstlisting}[language=a\nc,d]\n"
    );
    assert_eq!(
        write(&[TexEvent::StartCodeBlock { language: Some("markdown") }]),
        "\\begin{lstlisting}[language=markdown]\n"
    );
}

#[test]
fn inline_code() {
    assert_eq!(
        write(&[TexEvent::Code("a…b # З \u{fffd}")]),
        "\\lstinline|a...b # 3 \\\u{fffd}|"
    );
    assert_eq!(
        write(&[TexEvent::StartHeading(HeadingLevel::H2), TexEvent::Code("a…b # З \u{fffd}")]),
        "\n\\section{\\lstinline|a...b \\# 3 \u{fffd}|"
    );
}

#[test]
fn breaks_and_html() {
    assert_eq!(
        write(&[
            TexEvent::Text("a"),
            TexEvent::SoftBreak,
            TexEvent::Text("b"),
            TexEvent::HardBreak,
            TexEvent::Html("\\textbf{c}"),
            TexEvent::Other,
        ]),
        "a\nb\n\\\\\\textbf{c}"
    );
}

#[test]
fn mathematics() {
    let equations = vec![
        span("$$equ,xyz,Some title\n\\sum_1^12 x^2\n$$", "$$"),
        span("$ref:equ:xyz$", "$"),
        span("$x^2$", "$"),
        span("$ref:tab:xyz$", "$"),
    ];
    let mut writer = TexWriter::new();
    writer.write_math("0", &equations).unwrap();
    writer.write_math("1", &equations).unwrap();
    writer.write_math("+2", &equations).unwrap();
    assert_eq!(
        writer.output,
        "\n\\begin{align}%\n\\label{xyz}%\n\\sum_1^12 x^2\n\\end{align}\\eqref{xyz}$x^2$"
    );
    let before = writer.output.clone();
    assert!(matches!(
        writer.write_math("x", &equations),
        Err(TexError::ParseInt(text)) if text == "x"
    ));
    assert!(matches!(
        writer.write_math("3", &equations),
        Err(TexError::MathYank(Error::UnknownRefKind { ref_kind })) if ref_kind == "tab"
    ));
    assert_eq!(writer.output, before);
}

#[test]
fn the_end_of_a_heading_with_its_labels() {
    assert_eq!(heading_end_text("My Title", "my-title"), "}\n\\label{My Title}\n\\label{my-title}\n");
    assert_eq!(heading_end_text("", ""), "}\n\\label{}\n\\label{}\n");
}
