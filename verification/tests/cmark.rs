use mathyank::dollar_spans;
use mathyank::stack_equations;
use mathyank::HeadingLevel;
use mathyank::TexEvent;
use mathyank::TexWriter;
use pulldown_cmark::CodeBlockKind;
use pulldown_cmark::Event;
use pulldown_cmark::Options;
use pulldown_cmark::Parser;
use pulldown_cmark::Tag;
use pulldown_cmark::TagEnd;

fn level(level: pulldown_cmark::HeadingLevel) -> HeadingLevel {
    match level {
        pulldown_cmark::HeadingLevel::H1 => HeadingLevel::H1,
        pulldown_cmark::HeadingLevel::H2 => HeadingLevel::H2,
        pulldown_cmark::HeadingLevel::H3 => HeadingLevel::H3,
        pulldown_cmark::HeadingLevel::H4 => HeadingLevel::H4,
        pulldown_cmark::HeadingLevel::H5 => HeadingLevel::H5,
        pulldown_cmark::HeadingLevel::H6 => HeadingLevel::H6,
    }
}

fn cmark_to_tex(cmark: &str) -> String {
    let mut options = Options::empty();
    options.insert(Options::ENABLE_STRIKETHROUGH);
    options.insert(Options::ENABLE_FOOTNOTES);
    options.insert(Options::ENABLE_TASKLISTS);
    options.insert(Options::ENABLE_TABLES);
    options.insert(Options::ENABLE_MATH);

    let spans = dollar_spans(cmark).unwrap();
    let (source, equations) = stack_equations(spans);
    for equation in equations.iter() {
        assert!(equation.try_trimmed().is_some());
    }
    let mut writer = TexWriter::new();
    for event in Parser::new_ext(source.as_str(), options) {
        let width;
        let html;
        let event = match &event {
            Event::InlineMath(math) | Event::DisplayMath(math) => {
                writer.write_math(math, &equations).unwrap();
                continue;
            }
            Event::Start(Tag::Heading { level: l, .. }) => TexEvent::StartHeading(level(*l)),
            Event::End(TagEnd::Heading(_)) => TexEvent::EndHeading,
            Event::Start(Tag::Emphasis) => TexEvent::StartEmphasis,
            Event::End(TagEnd::Emphasis) => TexEvent::EndEmphasis,
            Event::Start(Tag::Strong) => TexEvent::StartStrong,
            Event::End(TagEnd::Strong) => TexEvent::EndStrong,
            Event::Start(Tag::List(first)) => TexEvent::StartList { ordered: first.is_some() },
            Event::End(TagEnd::List(ordered)) => TexEvent::EndList { ordered: *ordered },
            Event::Start(Tag::Paragraph) => TexEvent::StartParagraph,
            Event::End(TagEnd::Paragraph) => TexEvent::EndParagraph,
            Event::Start(Tag::Link { dest_url, .. }) => {
                TexEvent::StartLink { url: dest_url, title: None }
            }
            Event::End(TagEnd::Link) => TexEvent::EndLink,
            Event::Start(Tag::Table(_)) => TexEvent::StartTable,
            Event::Start(Tag::TableHead) => TexEvent::StartTableHead,
            Event::End(TagEnd::TableHead) => TexEvent::EndTableHead,
            Event::End(TagEnd::Table) => {
                width = format!("{}", 1. / writer.cells as f64);
                TexEvent::EndTable { width: width.as_str() }
            }
            Event::Start(Tag::TableCell) => TexEvent::StartTableCell,
            Event::End(TagEnd::TableCell) => TexEvent::EndTableCell,
            Event::Start(Tag::TableRow) => TexEvent::StartTableRow,
            Event::End(TagEnd::TableRow) => TexEvent::EndTableRow,
            Event::Start(Tag::Image { dest_url, title, .. }) => {
                TexEvent::StartImage { path: dest_url, caption: title }
            }
            Event::Start(Tag::Item) => TexEvent::StartItem,
            Event::End(TagEnd::Item) => TexEvent::EndItem,
            Event::Start(Tag::CodeBlock(CodeBlockKind::Fenced(language))) => {
                TexEvent::StartCodeBlock { language: Some(language) }
            }
            Event::Start(Tag::CodeBlock(CodeBlockKind::Indented)) => {
                TexEvent::StartCodeBlock { language: None }
            }
            Event::End(TagEnd::CodeBlock) => TexEvent::EndCodeBlock,
            Event::Code(text) => TexEvent::Code(text),
            Event::Html(text) => {
                html = cmark_to_tex(&html2md::parse_html(text));
                TexEvent::Html(html.as_str())
            }
            Event::Text(text) => TexEvent::Text(text),
            Event::SoftBreak => TexEvent::SoftBreak,
            Event::HardBreak => TexEvent::HardBreak,
            _ => TexEvent::Other,
        };
        assert!(writer.takes(&event));
        writer.feed(&event);
    }
    writer.output
}

#[test]
fn cmark_to_tex_basic() {
    assert_eq!(cmark_to_tex("Hello World"), "\nHello World~\\\\\n",);
}

#[test]
fn cmark_to_tex_w_math_inline() {
    assert_eq!(
        cmark_to_tex(r##"A $\sum_1^12 x^2$ formula"##),
        r##"
A $\sum_1^12 x^2$ formula~\\
"##,
    );
}

#[test]
fn cmark_to_tex_w_math_block_anon() {
    assert_eq!(
        cmark_to_tex(
            r##"$$
\sum_1^12 x^2
$$
formula"##
        ),
        r##"

\begin{align}%
\sum_1^12 x^2
\end{align}
formula~\\
"##,
    );
}

#[test]
fn cmark_to_tex_w_math_block_reference() {
    assert_eq!(
        cmark_to_tex(
            r##"$$equ,xyz,Some title
\sum_1^12 x^2
$$
formula $ref:equ:xyz$"##
        ),
        r##"

\begin{align}%
\label{xyz}%
\sum_1^12 x^2
\end{align}
formula \eqref{xyz}~\\
"##,
    );
}

#[test]
fn cmark_to_tex_large() {
    const MD: &str = r####"```markdown
$codeagain!$
$$
not_math
$$
```

$$equ,oink,foo
y = \sum somath
$$

Now ref that one block equ $ref:equ:oink$.
"####;

    const TEX: &str = r####"\begin{lstlisting}[language=markdown]
$codeagain!$
$$
not_math
$$

\end{lstlisting}


\begin{align}%
\label{oink}%
y = \sum somath
\end{align}~\\

Now ref that one block equ \eqref{oink}.~\\
"####;
    assert_eq!(cmark_to_tex(MD), TEX)
}

#[test]
fn a_table_through_the_parser() {
    let expected = [
        "\n\n",
        "\\begingroup\n",
        "\\setlength{\\LTleft}{-20cm plus -1fill}\n",
        "\\setlength{\\LTright}{\\LTleft}\n",
        "\\begin{longtable}{C{0.5\\textwidth} C{0.5\\textwidth} }\n",
        "\\hline\n",
        "\\hline\n",
        "\n\n",
        "\\bfseries{Segment} & \\bfseries{...} \\\\\n",
        "\\hline\n",
        "64k & 65q \\\\\\arrayrulecolor{lightgray}\\hline\n",
        "aaa & ccc \\\\\\arrayrulecolor{lightgray}\\hline\n",
        "\\arrayrulecolor{black}\\hline\n",
        "\\end{longtable}\n",
        "\\endgroup\n",
        "\n\n",
    ]
    .concat();
    assert_eq!(
        cmark_to_tex(
            r####"
| Segment | ... |
|---------|-----|
| 64k     | 65q |
| aaa     | ccc |
"####
        ),
        expected
    );
}

#[test]
fn a_heading_through_the_parser() {
    assert_eq!(
        cmark_to_tex("## Some *fine* title\n"),
        "\n\\section{Some \\emph{fine} title}\n\\label{}\n\\label{}\n"
    );
}

#[test]
fn code_through_the_parser() {
    assert_eq!(
        cmark_to_tex("```rust,ignore\nlet a = 1;\n```\n"),
        "\\begin{lstlisting}[language=rust]\nlet a = 1;\n\n\\end{lstlisting}\n"
    );
}
