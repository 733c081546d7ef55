use mathyank::dollar_split_tags_iter;
use mathyank::iter_over_dollar_encompassed_blocks;
use mathyank::BlockEqu;
use mathyank::Content;
use mathyank::EquBlockKind;
use mathyank::Error;
use mathyank::Inline;
use mathyank::Item;
use mathyank::LiCo;
use mathyank::Marker;
use mathyank::RefKind;
use mathyank::Reference;
use mathyank::Tagged;

fn content<'a>(input: &'a str, delimiter: &'a str) -> Content<'a> {
    Content {
        s: input,
        start: LiCo { lineno: 1, column: 1 },
        end: LiCo { lineno: 1, column: 1 },
        byte_range: 0..input.len(),
        start_del: Marker::Start(delimiter),
        end_del: Marker::End(delimiter),
    }
}

#[test]
fn block_with_kind_identifier_and_title() {
    let content = content("$$equ,xyz,Some title\n\\sum_1^12 x^2\n$$", "$$");
    let item = Item::try_from(&content).unwrap();
    match item {
        Item::Block(BlockEqu { kind, refer, title, content: inner }) => {
            assert_eq!(kind, EquBlockKind::Equation);
            assert_eq!(refer, Some("xyz"));
            assert_eq!(title, Some("Some title"));
            assert_eq!(inner, &content);
            assert_eq!(inner.trimmed().as_str(), "\\sum_1^12 x^2\n");
        }
        other => panic!("not a block: {:?}", other),
    }
}

#[test]
fn inline_reference() {
    let content = content("$ref:equ:xyz$", "$");
    let item = Item::try_from(&content).unwrap();
    assert_eq!(
        item,
        Item::Inline(Inline::Reference(Reference { ref_kind: RefKind::Equation, refere: "xyz" }))
    );
}

#[test]
fn inline_equation_in_a_sentence() {
    let text = "A $\\sum_1^12 x^2$ formula";
    let spans = iter_over_dollar_encompassed_blocks(text, dollar_split_tags_iter(text));
    assert_eq!(spans.len(), 3);
    assert!(matches!(&spans[0], Tagged::Keep(c) if c.s == "A "));
    assert!(matches!(&spans[2], Tagged::Keep(c) if c.s == " formula"));
    match &spans[1] {
        Tagged::Replace(c) => {
            assert_eq!(c.s, "$\\sum_1^12 x^2$");
            match Item::try_from(c).unwrap() {
                Item::Inline(Inline::Equation(equ)) => assert_eq!(equ.content, c),
                other => panic!("not an inline equation: {:?}", other),
            }
        }
        other => panic!("not replaced: {:?}", other),
    }
}

#[test]
fn block_of_unknown_kind() {
    let content = content("$$bogus,x\nfoo\n$$", "$$");
    match Item::try_from(&content) {
        Err(Error::UnknownRefKind { ref_kind }) => assert_eq!(ref_kind, "bogus"),
        other => panic!("no error: {:?}", other),
    }
}

#[test]
fn block_without_parameters_is_an_equation() {
    let content = content("$$\nx\n$$", "$$");
    let block = BlockEqu::try_from(&content).unwrap();
    assert_eq!(block.kind, EquBlockKind::Equation);
    assert_eq!(block.refer, None);
    assert_eq!(block.title, None);
}

#[test]
fn block_parameters_lose_the_white_space_around_them() {
    let content = content("$$ gnuplot ,\u{a0}fig1\t, A title, with a comma \nplot\n$$", "$$");
    let block = BlockEqu::try_from(&content).unwrap();
    assert_eq!(block.kind, EquBlockKind::GnuPlot);
    assert_eq!(block.refer, Some("fig1"));
    assert_eq!(block.title, Some("A title, with a comma"));
}

#[test]
fn block_kinds() {
    assert_eq!(EquBlockKind::from_str("gnuplot").unwrap(), EquBlockKind::GnuPlot);
    assert_eq!(EquBlockKind::from_str("gnuplotonly").unwrap(), EquBlockKind::GnuPlotOnly);
    assert_eq!(EquBlockKind::from_str("equ").unwrap(), EquBlockKind::Equation);
    assert_eq!(EquBlockKind::from_str("equation").unwrap(), EquBlockKind::Equation);
    assert!(matches!(
        EquBlockKind::from_str("latex"),
        Err(Error::UnknownRefKind { ref_kind }) if ref_kind == "latex"
    ));
    assert!(matches!(
        EquBlockKind::from_str("Equ"),
        Err(Error::UnknownRefKind { ref_kind }) if ref_kind == "Equ"
    ));
}

#[test]
fn block_with_an_empty_kind_is_an_error() {
    let content = content("$$,x\nfoo\n$$", "$$");
    assert!(matches!(
        BlockEqu::try_from(&content),
        Err(Error::UnknownRefKind { ref_kind }) if ref_kind.is_empty()
    ));
}

#[test]
fn block_with_kind_only() {
    let content = content("$$gnuplotonly\nfoo\n$$", "$$");
    let block = BlockEqu::try_from(&content).unwrap();
    assert_eq!(block.kind, EquBlockKind::GnuPlotOnly);
    assert_eq!(block.refer, None);
    assert_eq!(block.title, None);
}

#[test]
fn reference_kinds() {
    assert_eq!(RefKind::from_str("equ").unwrap(), RefKind::Equation);
    assert_eq!(RefKind::from_str("equation").unwrap(), RefKind::Equation);
    assert_eq!(RefKind::from_str("fig").unwrap(), RefKind::Figure);
    assert_eq!(RefKind::from_str("figure").unwrap(), RefKind::Figure);
    assert_eq!(RefKind::from_str("bib").unwrap(), RefKind::Bibliography);
    assert_eq!(RefKind::from_str("bibliography").unwrap(), RefKind::Bibliography);
    assert!(matches!(
        RefKind::from_str("Fig"),
        Err(Error::UnknownRefKind { ref_kind }) if ref_kind == "Fig"
    ));
}

#[test]
fn references() {
    assert_eq!(
        Reference::from_str("fig:plot").unwrap(),
        Reference { ref_kind: RefKind::Figure, refere: "plot" }
    );
    assert_eq!(
        Reference::from_str("bib:knuth:more").unwrap(),
        Reference { ref_kind: RefKind::Bibliography, refere: "knuth" }
    );
    assert_eq!(
        Reference::from_str("equ:").unwrap(),
        Reference { ref_kind: RefKind::Equation, refere: "" }
    );
    assert!(matches!(
        Reference::from_str("equ"),
        Err(Error::MissingIdentifier { s }) if s == "equ"
    ));
    assert!(matches!(
        Reference::from_str("nope:x"),
        Err(Error::UnknownRefKind { ref_kind }) if ref_kind == "nope"
    ));
    assert!(matches!(
        Reference::from_str(""),
        Err(Error::UnknownRefKind { ref_kind }) if ref_kind.is_empty()
    ));
}

#[test]
fn inline_reference_of_unknown_kind() {
    let content = content("$ref:tab:xyz$", "$");
    assert!(matches!(
        Inline::try_from(&content),
        Err(Error::UnknownRefKind { ref_kind }) if ref_kind == "tab"
    ));
}

#[test]
fn inline_reference_without_identifier() {
    let content = content("$ref:fig$", "$");
    assert!(matches!(
        Inline::try_from(&content),
        Err(Error::MissingIdentifier { s }) if s == "fig"
    ));
}

#[test]
fn error_messages() {
    assert_eq!(
        Error::UnknownRefKind { ref_kind: "bogus".to_owned() }.to_string(),
        "Unknown reference type bogus"
    );
    assert_eq!(
        Error::MissingRefPrefix { s: "x".to_owned() }.to_string(),
        "Doesn't have a `ref` prefix: x"
    );
    assert_eq!(Error::MissingRefKind { s: "x".to_owned() }.to_string(), "Missing ref kind: x");
    assert_eq!(
        Error::MissingIdentifier { s: "x".to_owned() }.to_string(),
        "Missing identifier: x"
    );
}

#[test]
fn words_for_kinds() {
    assert_eq!(RefKind::Figure.as_desc(), "figure");
    assert_eq!(RefKind::Equation.as_desc(), "equation");
    assert_eq!(RefKind::Bibliography.as_desc(), "bibliography");
    assert_eq!(EquBlockKind::Latex.as_desc(), "tex");
    assert_eq!(EquBlockKind::Equation.as_desc(), "equation");
    assert_eq!(EquBlockKind::GnuPlot.as_desc(), "figure");
    assert_eq!(EquBlockKind::GnuPlotOnly.as_desc(), "figure");
    assert_eq!(RefKind::Figure.as_emoji_w_desc().0, RefKind::Figure.as_emoji());
    assert_eq!(EquBlockKind::GnuPlot.as_emoji(), RefKind::Figure.as_emoji());
    assert_eq!(EquBlockKind::Equation.as_emoji(), RefKind::Equation.as_emoji());
}
