use mathyank::chart_file_name;
use mathyank::dollar_spans;
use mathyank::escape_text;
use mathyank::file_name_of_title;
use mathyank::fragment_stem;
use mathyank::latex_error;
use mathyank::math_to_tex;
use mathyank::parse_html_description;
use mathyank::parse_index;
use mathyank::replace_byte;
use mathyank::stack_equations;
use mathyank::strip_dot_slash;
use mathyank::title_string;
use mathyank::today;
use mathyank::Args;
use mathyank::Fishextract;
use mathyank::ScientificError;
use mathyank::Scientific;
use mathyank::Sub;
use mathyank::TectonicConfig;
use mathyank::bibliography_failed;
use mathyank::bibliography_html;
use mathyank::bibliography_label;
use mathyank::register_bibliography;
use mathyank::ReferenceTracker;
use mathyank::fill_fragment;
use mathyank::fill_template;
use mathyank::inject_latex;

#[test]
fn titles() {
    assert_eq!(title_string("# Chapter One\n"), "Chapter One");
    assert_eq!(title_string("###  Deep  \r\n"), "Deep");
    assert_eq!(title_string("No hashes"), "No hashes");
    assert_eq!(title_string("###"), "###");
    assert_eq!(title_string("### \n"), "");
    assert_eq!(title_string(""), "");
    assert_eq!(title_string("#\u{3000}Wide\u{2003}"), "Wide");
}

#[test]
fn description_passes_through() {
    assert_eq!(parse_html_description("<dl>x</dl>".to_owned()), "<dl>x</dl>");
}

#[test]
fn equations_give_way_to_their_numbers() {
    let text = "$$equ,xyz,Some title\n\\sum_1^12 x^2\n$$\nformula $ref:equ:xyz$";
    let spans = dollar_spans(text).unwrap();
    let (numbered, stack) = stack_equations(spans);
    assert_eq!(numbered, "$0$\nformula $1$");
    assert_eq!(stack.len(), 2);
    assert_eq!(stack[0].s, "$$equ,xyz,Some title\n\\sum_1^12 x^2\n$$");
    assert_eq!(stack[1].s, "$ref:equ:xyz$");
    assert_eq!(
        math_to_tex(&stack[0]).unwrap(),
        "\n\\begin{align}%\n\\label{xyz}%\n\\sum_1^12 x^2\n\\end{align}"
    );
    assert_eq!(math_to_tex(&stack[1]).unwrap(), "\\eqref{xyz}");
}

#[test]
fn block_without_identifier_has_no_label() {
    let text = "$$\n\\sum_1^12 x^2\n$$\nformula";
    let (numbered, stack) = stack_equations(dollar_spans(text).unwrap());
    assert_eq!(numbered, "$0$\nformula");
    assert_eq!(
        math_to_tex(&stack[0]).unwrap(),
        "\n\\begin{align}%\n\\sum_1^12 x^2\n\\end{align}"
    );
}

#[test]
fn inline_equation_stays_between_dollars() {
    let text = "A $\\sum_1^12 x^2$ formula";
    let (numbered, stack) = stack_equations(dollar_spans(text).unwrap());
    assert_eq!(numbered, "A $0$ formula");
    assert_eq!(math_to_tex(&stack[0]).unwrap(), "$\\sum_1^12 x^2$");
}

#[test]
fn many_equations_are_numbered_in_order() {
    let text = "$a$ $b$ $c$ $d$ $e$ $f$ $g$ $h$ $i$ $j$ $k$";
    let (numbered, stack) = stack_equations(dollar_spans(text).unwrap());
    assert_eq!(numbered, "$0$ $1$ $2$ $3$ $4$ $5$ $6$ $7$ $8$ $9$ $10$");
    assert_eq!(stack.len(), 11);
    assert_eq!(stack[10].s, "$k$");
}

#[test]
fn document_that_does_not_fit_gives_no_spans() {
    assert!(dollar_spans("aaaa\n$b").is_none());
    assert!(dollar_spans("a\r\nb $c$").is_none());
}

#[test]
fn indices() {
    assert_eq!(parse_index("0"), Some(0));
    assert_eq!(parse_index("17"), Some(17));
    assert_eq!(parse_index("+17"), Some(17));
    assert_eq!(parse_index("007"), Some(7));
    assert_eq!(parse_index(""), None);
    assert_eq!(parse_index("+"), None);
    assert_eq!(parse_index("-1"), None);
    assert_eq!(parse_index("1 "), None);
    assert_eq!(parse_index("x"), None);
    assert_eq!(parse_index(&usize::MAX.to_string()), Some(usize::MAX));
    assert_eq!(parse_index(&format!("{}0", usize::MAX)), None);
    assert_eq!(parse_index("99999999999999999999999999"), None);
    for text in ["0", "17", "+17", "007", "", "+", "-1", "1 ", "x", "++1", "1+"] {
        assert_eq!(parse_index(text), usize::from_str_radix(text, 10).ok());
    }
}

#[test]
fn replacing_a_character() {
    assert_eq!(replace_byte("1.2.3", b'.', "_"), "1_2_3");
    assert_eq!(replace_byte("..", b'.', ""), "");
    assert_eq!(replace_byte("℃.⅌", b'.', "--"), "℃--⅌");
    assert_eq!(replace_byte("", b'.', "_"), "");
    assert_eq!(replace_byte("abc", b'.', "_"), "abc");
}

#[test]
fn escaping_for_latex() {
    assert_eq!(escape_text("50% of #1 & x^2"), "50\\% of \\#1 \\& x\\^2");
    assert_eq!(escape_text("plain ℃"), "plain ℃");
}

#[test]
fn names_of_fragments() {
    assert_eq!(fragment_stem("1.2.", "hello world"), "scientific_1_2___b94d27b993");
    assert_eq!(fragment_stem("", ""), "scientific___e3b0c44298");
}

#[test]
fn names_of_charts() {
    assert_eq!(chart_file_name("1.2.3", 4, "hello world"), "fishextract_1_2_3_4__b94d27b993.pdf");
}

#[test]
fn titles_as_file_names() {
    assert_eq!(file_name_of_title("My Book: Vol. 2 (é)"), "MyBookVol2");
    assert_eq!(file_name_of_title("a_b-c"), "a_b-c");
    assert_eq!(file_name_of_title("<Unknown Title>"), "UnknownTitle");
}

#[test]
fn image_paths() {
    assert_eq!(strip_dot_slash("./images/a.png"), "images/a.png");
    assert_eq!(strip_dot_slash("images/a.png"), "images/a.png");
    assert_eq!(strip_dot_slash("././a.png"), "./a.png");
    assert_eq!(strip_dot_slash("."), ".");
}

#[test]
fn what_latex_reports() {
    let log = "This is pdfTeX\n! Undefined control sequence.\nl.12 \\foo\n             bar\n!  ==> Fatal error occurred\n! Emergency stop.\nl.99 Emergency stop here\n";
    match latex_error(log) {
        ScientificError::InvalidMath(message, at, line) => {
            assert_eq!(message, " ==> Fatal error occurred");
            assert_eq!(at, "\\foo");
            assert_eq!(line, 12);
        }
        other => panic!("another error: {:?}", other),
    }
}

#[test]
fn what_latex_reports_without_a_place() {
    match latex_error("! Missing $ inserted.\nl.x\nl.\n") {
        ScientificError::InvalidMath(message, at, line) => {
            assert_eq!(message, "Missing $ inserted.");
            assert_eq!(at, "");
            assert_eq!(line, usize::MAX);
        }
        other => panic!("another error: {:?}", other),
    }
    match latex_error("") {
        ScientificError::InvalidMath(message, at, line) => {
            assert_eq!(message, "");
            assert_eq!(at, "");
            assert_eq!(line, usize::MAX);
        }
        other => panic!("another error: {:?}", other),
    }
}

#[test]
fn place_without_a_number_keeps_the_line() {
    match latex_error("l.3 a\nl.abc  the place \n") {
        ScientificError::InvalidMath(_, at, line) => {
            assert_eq!(at, "the place");
            assert_eq!(line, 3);
        }
        other => panic!("another error: {:?}", other),
    }
}

#[test]
fn configuration_by_default() {
    let config = TectonicConfig::default();
    assert!(config.ignores.is_empty());
    assert!(config.latex);
    assert!(config.pdf);
    assert!(config.markdown);
    assert!(config.assets.is_empty());
    assert_eq!(config.custom_template, None);
    assert_eq!(config.date, "\\today");
    assert_eq!(today(), "\\today");
}

#[test]
fn preprocessors() {
    assert_eq!(Fishextract::new().name(), "fishextract");
    assert_eq!(Scientific::new().name(), "scientific");
    assert!(Fishextract::new().supports_renderer("html"));
    assert!(Scientific::new().supports_renderer("Tectonic"));
    assert!(!Scientific::new().supports_renderer("epub"));
}

#[test]
fn command_line() {
    let args = Args { supports: Some(Sub::Supports { renderer: "tectonic".to_owned() }) };
    match args.supports {
        Some(sub) => assert_eq!(sub.to_string(), "tectonic"),
        None => panic!("nothing asked"),
    }
}

#[test]
fn fragment_with_its_equation() {
    assert_eq!(fill_fragment("a$$$$b", "x^2"), Some("a$$x^2$$b".to_owned()));
    assert_eq!(fill_fragment("a$$old$$b", "x^2"), Some("a$$x^2$$b".to_owned()));
    assert_eq!(fill_fragment("a$$old", "x^2"), Some("a$$x^2".to_owned()));
    assert_eq!(fill_fragment("plain", "x^2"), Some("plain".to_owned()));
    assert_eq!(fill_fragment("", "x^2"), Some("".to_owned()));
    assert_eq!(fill_fragment("$$$", "x"), Some("$$x".to_owned()));
    assert_eq!(fill_fragment("$$$$$$", "x"), None);
    assert_eq!(fill_fragment("a$$b$$c$$d", "x"), None);
    assert_eq!(fill_fragment("℃$$é$$⅌", "∑"), Some("℃$$∑$$⅌".to_owned()));
}

#[test]
fn template_with_title_authors_and_date() {
    assert_eq!(
        fill_template(
            "\\title{}\n\\author{}\n\\date{}\n\\title{}",
            "My Book",
            "A \\and B",
            "\\today"
        ),
        "\\title{My Book}\n\\author{A \\and B}\n\\date{\\today}\n\\title{My Book}"
    );
    assert_eq!(fill_template("none", "T", "A", "D"), "none");
}

#[test]
fn latex_behind_its_mark() {
    assert_eq!(
        inject_latex("%% mdbook-tectonic begin\n%% mdbook-tectonic end", "\\chapter{A}"),
        Some("%% mdbook-tectonic begin\\chapter{A}\n%% mdbook-tectonic end".to_owned())
    );
    assert_eq!(
        inject_latex("a mdbook-tectonic begin b mdbook-tectonic begin c", "X"),
        Some("a mdbook-tectonic beginX b mdbook-tectonic begin c".to_owned())
    );
    assert_eq!(inject_latex("no mark", "X"), None);
}

#[test]
fn list_of_the_bibliography() {
    let page = "<html>\n<dl class=\"bib2xhtml\">\n<dt><a name=\"knuth\">[1]</a></dt>\n<dd>x <a name=\"a\"><a name=\"b\"></dd>\n</dl>\n<a name=\"after\">\n</html>\n";
    assert_eq!(
        bibliography_html(page),
        "<dl class=\"bib2xhtml\"><dt><a id=\"knuth\">[1]</a></dt><dd>x <a id=\"a\"><a id=\"b\"></dd>"
    );
    assert_eq!(bibliography_html("<a name=\"before\">\n</dl>\n"), "");
    assert_eq!(bibliography_html(""), "");
    assert_eq!(
        bibliography_html("<dl class=\"bib2xhtml\">\n<a name=\"open\">"),
        "<dl class=\"bib2xhtml\"><a id=\"open\">"
    );
    let expected: String = page
        .split('\n')
        .skip_while(|x| *x != "<dl class=\"bib2xhtml\">")
        .take_while(|x| *x != "</dl>")
        .map(|x| x.replace("<a name=\"", "<a id=\""))
        .collect();
    assert_eq!(bibliography_html(page), expected);
    assert!(bibliography_failed("(3 error messages)"));
    assert!(!bibliography_failed("no errors"));
    assert_eq!(bibliography_label(0), "[1]");
    assert_eq!(bibliography_label(41), "[42]");
}

#[test]
fn entries_of_the_bibliography_get_their_numbers() {
    let mut references = ReferenceTracker::new();
    references.add("knuth", "old");
    references.add("other", "stays");
    let keys = vec!["knuth".to_owned(), "lamport".to_owned(), "knuth".to_owned()];
    register_bibliography(&mut references, &keys);
    assert_eq!(references.get("knuth"), Some("[3]".to_owned()));
    assert_eq!(references.get("lamport"), Some("[2]".to_owned()));
    assert_eq!(references.get("other"), Some("stays".to_owned()));
    assert_eq!(references.get("nobody"), None);
    register_bibliography(&mut references, &Vec::new());
    assert_eq!(references.get("knuth"), Some("[3]".to_owned()));
}
