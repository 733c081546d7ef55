//! Scanning of `$`-delimited math and reference spans in Markdown text.
//!
//! A document is scanned for inline (`$...$`) and block (`$$...$$`)
//! delimiters, cut into spans that are kept or replaced, and each replaced
//! span is classified as an equation, a figure-producing block or a
//! reference.

pub mod bibliography;
pub mod charts;
pub mod config;
pub mod content;
pub mod digest;
pub mod document;
pub mod errors;
pub mod format;
pub mod item;
pub mod latex;
pub mod names;
pub mod pair;
pub mod position;
pub mod renderer;
pub mod replace;
pub mod resolve;
pub mod scan;
pub mod template;
pub mod tex;
pub mod text;
pub mod tracker;
pub mod trim;
pub mod writer;

pub use crate::bibliography::bibliography_failed;
pub use crate::bibliography::bibliography_html;
pub use crate::bibliography::bibliography_label;
pub use crate::bibliography::register_bibliography;
pub use crate::charts::chart_description;
pub use crate::charts::ChartAction;
pub use crate::charts::ChartEvent;
pub use crate::charts::ChartState;
pub use crate::charts::is_chart;
pub use crate::charts::keeps_charts;
pub use crate::config::Args;
pub use crate::config::Fishextract;
pub use crate::config::Scientific;
pub use crate::config::Sub;
pub use crate::config::TectonicConfig;
pub use crate::config::today;
pub use crate::content::Content;
pub use crate::content::Tagged;
pub use crate::digest::hash;
pub use crate::digest::hex_prefix;
pub use crate::digest::short_hash;
pub use crate::document::dollar_spans;
pub use crate::errors::ScientificError;
pub use crate::format::format_bib_reference;
pub use crate::format::format_equ_reference;
pub use crate::format::format_equation_block;
pub use crate::format::format_equation_inline;
pub use crate::format::format_fig_reference;
pub use crate::format::format_figure;
pub use crate::format::Replacement;
pub use crate::item::BlockEqu;
pub use crate::item::EquBlockKind;
pub use crate::item::Error;
pub use crate::item::Inline;
pub use crate::item::InlineEqu;
pub use crate::item::Item;
pub use crate::item::Reference;
pub use crate::item::RefKind;
pub use crate::latex::latex_error;
pub use crate::names::chart_file_name;
pub use crate::names::file_name_of_title;
pub use crate::names::fragment_stem;
pub use crate::names::strip_dot_slash;
pub use crate::pair::iter_over_dollar_encompassed_blocks;
pub use crate::pair::positions_fit;
pub use crate::position::LiCo;
pub use crate::position::Marker;
pub use crate::position::SplitTagPosition;
pub use crate::renderer::SupportedRenderer;
pub use crate::replace::escape_text;
pub use crate::replace::replace_byte;
pub use crate::replace::replace_text;
pub use crate::resolve::add_inline_equation;
pub use crate::resolve::add_object;
pub use crate::resolve::resolve_reference;
pub use crate::resolve::transform_block_as_needed;
pub use crate::resolve::transform_inline_as_needed;
pub use crate::scan::dollar_split_tags_iter;
pub use crate::scan::ScanState;
pub use crate::template::fill_fragment;
pub use crate::template::fill_template;
pub use crate::template::inject_latex;
pub use crate::tex::math_to_tex;
pub use crate::tex::parse_html_description;
pub use crate::tex::parse_index;
pub use crate::tex::stack_equations;
pub use crate::tex::title_string;
pub use crate::tracker::ReferenceTracker;
pub use crate::trim::Trimmed;
pub use crate::writer::CurrentType;
pub use crate::writer::EventType;
pub use crate::writer::heading_end_text;
pub use crate::writer::HeadingLevel;
pub use crate::writer::TexError;
pub use crate::writer::TexEvent;
pub use crate::writer::TexWriter;
