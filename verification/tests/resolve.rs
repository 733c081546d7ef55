use mathyank::add_inline_equation;
use mathyank::add_object;
use mathyank::resolve_reference;
use mathyank::transform_block_as_needed;
use mathyank::transform_inline_as_needed;
use mathyank::Content;
use mathyank::EquBlockKind;
use mathyank::Error;
use mathyank::LiCo;
use mathyank::Marker;
use mathyank::RefKind;
use mathyank::Reference;
use mathyank::ReferenceTracker;
use mathyank::Replacement;
use mathyank::ScientificError;
use mathyank::SupportedRenderer;

fn span<'a>(text: &'a str, delimiter: &'a str, lineno: usize) -> Content<'a> {
    Content {
        s: text,
        start: LiCo { lineno, column: 1 },
        end: LiCo { lineno, column: 1 },
        byte_range: 0..text.len(),
        start_del: Marker::Start(delimiter),
        end_del: Marker::End(delimiter),
    }
}

fn rendered<'a>(text: &'a str, delimiter: &'a str) -> Replacement<'a> {
    Replacement {
        content: span(text, delimiter, 1),
        intermediate: None,
        svg_fragment_file: "fragments/x.svg".to_owned(),
        svg_asset_file: "assets/x.svg".to_owned(),
    }
}

#[test]
fn reference_to_a_registered_block() {
    let mut tracker = ReferenceTracker::new();
    tracker.add("xyz", "1.1");
    let reference = Reference { refere: "xyz", ref_kind: RefKind::Equation };
    assert_eq!(
        resolve_reference(&reference, 7, &tracker, SupportedRenderer::Html).unwrap(),
        "<a class=\"equ_ref\" href='#xyz'>Eq. (1.1)</a>"
    );
    assert_eq!(
        resolve_reference(&reference, 7, &tracker, SupportedRenderer::Latex).unwrap(),
        "$ref:equ:xyz$"
    );
    let figure = Reference { refere: "xyz", ref_kind: RefKind::Figure };
    assert_eq!(
        resolve_reference(&figure, 7, &tracker, SupportedRenderer::Html).unwrap(),
        "<a class=\"fig_ref\" href='#xyz'>1.1</a>"
    );
    let entry = Reference { refere: "xyz", ref_kind: RefKind::Bibliography };
    assert_eq!(
        resolve_reference(&entry, 7, &tracker, SupportedRenderer::Html).unwrap(),
        "<a class=\"bib_ref\" href='bibliography.html#xyz'>1.1</a>"
    );
}

#[test]
fn reference_to_what_is_not_registered_yet() {
    let tracker = ReferenceTracker::new();
    let reference = Reference { refere: "later", ref_kind: RefKind::Equation };
    assert!(matches!(
        resolve_reference(&reference, 7, &tracker, SupportedRenderer::Html),
        Err(ScientificError::InvalidReference { to, lineno }) if to == "later" && lineno == 7
    ));
}

#[test]
fn inline_reference_is_resolved_at_once() {
    let mut tracker = ReferenceTracker::new();
    tracker.add("plot", "Figure 2.1");
    let content = span("$ref:fig:plot$", "$", 4);
    assert_eq!(
        transform_inline_as_needed(&content, &tracker, SupportedRenderer::Html).unwrap(),
        Some("<a class=\"fig_ref\" href='#plot'>Figure 2.1</a>".to_owned())
    );
    let unknown = span("$ref:fig:other$", "$", 4);
    assert!(matches!(
        transform_inline_as_needed(&unknown, &tracker, SupportedRenderer::Html),
        Err(ScientificError::InvalidReference { to, lineno }) if to == "other" && lineno == 4
    ));
    let wrong = span("$ref:tab:plot$", "$", 4);
    assert!(matches!(
        transform_inline_as_needed(&wrong, &tracker, SupportedRenderer::Html),
        Err(ScientificError::MathYank(Error::UnknownRefKind { ref_kind })) if ref_kind == "tab"
    ));
}

#[test]
fn inline_equation_waits_for_its_rendering() {
    let tracker = ReferenceTracker::new();
    let content = span("$x^2$", "$", 1);
    assert_eq!(
        transform_inline_as_needed(&content, &tracker, SupportedRenderer::Html).unwrap(),
        None
    );
    let mut used = vec!["a.svg".to_owned()];
    assert_eq!(
        add_inline_equation(rendered("$x^2$", "$"), &mut used, SupportedRenderer::Latex),
        "$x^2$"
    );
    assert_eq!(used, vec!["a.svg".to_owned(), "fragments/x.svg".to_owned()]);
}

#[test]
fn block_is_classified_before_its_rendering() {
    let content = span("$$gnuplot,plot,A plot\nplot sin(x)\n$$", "$$", 1);
    let block = transform_block_as_needed(&content).unwrap();
    assert_eq!(block.kind, EquBlockKind::GnuPlot);
    assert_eq!(block.refer, Some("plot"));
    assert_eq!(block.title, Some("A plot"));
    let wrong = span("$$bogus,x\nfoo\n$$", "$$", 1);
    assert!(matches!(
        transform_block_as_needed(&wrong),
        Err(ScientificError::MathYank(Error::UnknownRefKind { ref_kind })) if ref_kind == "bogus"
    ));
}

#[test]
fn figure_is_registered_under_its_identifier() {
    let mut tracker = ReferenceTracker::new();
    let mut used = Vec::new();
    let r = rendered("$$gnuplot,plot,A plot\nplot sin(x)\n$$", "$$");
    let text = add_object(
        &r,
        Some("plot"),
        Some("A plot"),
        "2.",
        &mut tracker,
        &mut used,
        SupportedRenderer::Html,
    );
    assert_eq!(
        text,
        "<figure id=\"plot\" class=\"figure\">\n                    <object data=\"assets/x.svg\" type=\"image/svg+xml\"/></object>\n                    <figcaption>Figure 2.1 A plot</figcaption>\n                </figure>"
    );
    assert_eq!(tracker.get("plot"), Some("Figure 2.1".to_owned()));
    assert_eq!(used, vec!["fragments/x.svg".to_owned()]);
}

#[test]
fn figure_without_identifier_is_registered_all_the_same() {
    let mut tracker = ReferenceTracker::new();
    let mut used = Vec::new();
    let r = rendered("$$gnuplot,,A plot\nplot sin(x)\n$$", "$$");
    add_object(&r, None, Some("A plot"), "2.", &mut tracker, &mut used, SupportedRenderer::Html);
    assert_eq!(tracker.get("unknown var"), Some("Figure 2.1".to_owned()));
}

#[test]
fn equation_with_identifier_is_numbered() {
    let mut tracker = ReferenceTracker::new();
    let mut used = Vec::new();
    let r = rendered("$$equ,xyz\nx\n$$", "$$");
    let text =
        add_object(&r, Some("xyz"), None, "3.", &mut tracker, &mut used, SupportedRenderer::Html);
    assert!(text.contains("<div id=\"xyz\" class=\"equation\">"));
    assert!(text.contains("<span>(3.1)</span>"));
    assert_eq!(tracker.get("xyz"), Some("3.1".to_owned()));
}

#[test]
fn equation_without_identifier_registers_nothing() {
    let mut tracker = ReferenceTracker::new();
    let mut used = Vec::new();
    let r = rendered("$$\nx\n$$", "$$");
    let text = add_object(&r, None, None, "3.", &mut tracker, &mut used, SupportedRenderer::Html);
    assert!(text.contains("<div id=\"\" class=\"equation\">"));
    assert!(text.contains("<span>(3.0)</span>"));
    let text =
        add_object(&r, Some(""), None, "3.", &mut tracker, &mut used, SupportedRenderer::Html);
    assert!(text.contains("<div id=\"\" class=\"equation\">"));
    assert_eq!(tracker.get(""), None);
    assert_eq!(used.len(), 2);
    assert_eq!(
        add_object(&r, None, None, "3.", &mut tracker, &mut used, SupportedRenderer::Tectonic),
        "$$x\n\n$$"
    );
}
