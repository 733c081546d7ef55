use mathyank::format_bib_reference;
use mathyank::format_equ_reference;
use mathyank::format_equation_block;
use mathyank::format_equation_inline;
use mathyank::format_fig_reference;
use mathyank::format_figure;
use mathyank::hash;
use mathyank::short_hash;
use mathyank::hex_prefix;
use mathyank::Content;
use mathyank::LiCo;
use mathyank::Marker;
use mathyank::ReferenceTracker;
use mathyank::Replacement;
use mathyank::ScientificError;
use mathyank::SupportedRenderer;

fn replacement<'a>(text: &'a str, delimiter: &'a str, intermediate: Option<&str>) -> Replacement<'a> {
    Replacement {
        content: Content {
            s: text,
            start: LiCo { lineno: 1, column: 1 },
            end: LiCo { lineno: 1, column: 1 },
            byte_range: 0..text.len(),
            start_del: Marker::Start(delimiter),
            end_del: Marker::End(delimiter),
        },
        intermediate: intermediate.map(|s| s.to_owned()),
        svg_fragment_file: "fragments/abc.svg".to_owned(),
        svg_asset_file: "src/assets/abc.svg".to_owned(),
    }
}

#[test]
fn renderer_names() {
    assert_eq!(SupportedRenderer::Html.as_str(), "html");
    assert_eq!(SupportedRenderer::Tectonic.as_str(), "tectonic");
    assert_eq!(SupportedRenderer::Latex.as_str(), "latex");
    assert_eq!(SupportedRenderer::Markdown.as_str(), "markdown");
    assert_eq!(SupportedRenderer::Markdown.to_string(), "markdown");
}

#[test]
fn renderers_by_name() {
    assert_eq!(SupportedRenderer::from_str("tectonic").unwrap(), SupportedRenderer::Tectonic);
    assert_eq!(SupportedRenderer::from_str("LaTeX").unwrap(), SupportedRenderer::Latex);
    assert_eq!(SupportedRenderer::from_str("Markdown").unwrap(), SupportedRenderer::Markdown);
    assert_eq!(SupportedRenderer::from_str("HTML").unwrap(), SupportedRenderer::Html);
    assert!(matches!(
        SupportedRenderer::from_str("EPUB"),
        Err(ScientificError::RendererNotSupported(name)) if name == "epub"
    ));
    assert!(matches!(
        SupportedRenderer::from_lowercase("HTML"),
        Err(ScientificError::RendererNotSupported(name)) if name == "HTML"
    ));
}

#[test]
fn tracker_finds_what_was_added() {
    let mut tracker = ReferenceTracker::new();
    assert_eq!(tracker.get("a"), None);
    tracker.add("a", "1.1");
    tracker.add("b", "Figure 1.2");
    assert_eq!(tracker.get("a"), Some("1.1".to_owned()));
    assert_eq!(tracker.get("b"), Some("Figure 1.2".to_owned()));
    assert_eq!(tracker.get("c"), None);
    tracker.add("a", "2.1");
    assert_eq!(tracker.get("a"), Some("2.1".to_owned()));
    assert_eq!(ReferenceTracker::default().get("a"), None);
}

#[test]
fn inner_text_of_a_replacement() {
    assert_eq!(replacement("$x^2$", "$", None).inner_str_or_intermediate(), "x^2");
    assert_eq!(replacement("$x^2$", "$", Some("y")).inner_str_or_intermediate(), "y");
    assert_eq!(replacement("$$\nx\n$$", "$$", None).inner_str_or_intermediate(), "x\n");
}

#[test]
fn figure_for_a_web_page() {
    let r = replacement("$$gnuplot,f,T\nplot\n$$", "$$", None);
    assert_eq!(
        format_figure(&r, "f", "1.2.", 3, "T", SupportedRenderer::Html),
        "<figure id=\"f\" class=\"figure\">\n                    <object data=\"src/assets/abc.svg\" type=\"image/svg+xml\"/></object>\n                    <figcaption>Figure 1.2.3 T</figcaption>\n                </figure>"
    );
    assert_eq!(
        format_figure(&r, "f", "1.2.", 3, "T", SupportedRenderer::Markdown),
        format_figure(&r, "f", "1.2.", 3, "T", SupportedRenderer::Html)
    );
}

#[test]
fn figure_for_latex() {
    let r = replacement("$$gnuplot,f,T\nplot\n$$", "$$", Some("\\input{plot}"));
    assert_eq!(
        format_figure(&r, "f", "1.", 1, "T", SupportedRenderer::Latex),
        "$$\\input{plot}\n$$"
    );
    let r = replacement("$$gnuplot,f,T\nplot\n$$", "$$", None);
    assert_eq!(format_figure(&r, "f", "1.", 1, "T", SupportedRenderer::Tectonic), "$$plot\n\n$$");
}

#[test]
fn block_equation() {
    let r = replacement("$$equ,e\nx\n$$", "$$", None);
    assert_eq!(
        format_equation_block(&r, "e", "4.", 120, SupportedRenderer::Html),
        "<div id=\"e\" class=\"equation\">\n                    <div class=\"equation_inner\">\n                        <object data=\"src/assets/abc.svg\" type=\"image/svg+xml\"></object>\n                    </div><span>(4.120)</span>\n                </div>"
    );
    assert_eq!(format_equation_block(&r, "e", "4.", 0, SupportedRenderer::Latex), "$$x\n\n$$");
}

#[test]
fn inline_equation() {
    let r = replacement("$x^2$", "$", None);
    assert_eq!(
        format_equation_inline(&r, SupportedRenderer::Markdown),
        "<object class=\"equation_inline\" data=\"src/assets/abc.svg\" type=\"image/svg+xml\"></object>"
    );
    assert_eq!(format_equation_inline(&r, SupportedRenderer::Tectonic), "$x^2$");
}

#[test]
fn references_for_a_web_page() {
    assert_eq!(
        format_bib_reference("knuth", "[3]", SupportedRenderer::Html),
        "<a class=\"bib_ref\" href='bibliography.html#knuth'>[3]</a>"
    );
    assert_eq!(
        format_fig_reference("plot", "Figure 1.1", SupportedRenderer::Html),
        "<a class=\"fig_ref\" href='#plot'>Figure 1.1</a>"
    );
    assert_eq!(
        format_equ_reference("xyz", "1.2", SupportedRenderer::Html),
        "<a class=\"equ_ref\" href='#xyz'>Eq. (1.2)</a>"
    );
}

#[test]
fn references_are_kept_for_the_other_renderers() {
    for renderer in [SupportedRenderer::Latex, SupportedRenderer::Tectonic, SupportedRenderer::Markdown] {
        assert_eq!(format_bib_reference("knuth", "[3]", renderer), "$ref:bib:knuth$");
        assert_eq!(format_fig_reference("plot", "Figure 1.1", renderer), "$ref:fig:plot$");
        assert_eq!(format_equ_reference("xyz", "1.2", renderer), "$ref:equ:xyz$");
    }
}

#[test]
fn hashes() {
    assert_eq!(hash("hello world"), "b94d27b9934d3e08a52e52d7");
    assert_eq!(short_hash("hello world"), "b94d27b993");
    assert_eq!(hash(""), "e3b0c44298fc1c149afbf4c8");
    assert_eq!(short_hash(""), "e3b0c44298");
}

#[test]
fn bytes_in_hexadecimal_digits() {
    let data = vec![0x00, 0x0f, 0xa0, 0xff, 0x5c];
    assert_eq!(hex_prefix(&data, 0), "");
    assert_eq!(hex_prefix(&data, 2), "000f");
    assert_eq!(hex_prefix(&data, 5), "000fa0ff5c");
}
