//! Charts in a chapter: which events of a Markdown document make up a
//! chart, and what becomes of them.
//!
//! A chart is a block of code behind a fence that names `mermaid`. Its
//! fence is dropped, and its code gives way to the image that was rendered
//! from it.

use vstd::prelude::*;
use crate::format::decimal;
use crate::format::decimal_string;
use crate::renderer::SupportedRenderer;
use crate::text::same_text;

verus! {

/// What is remembered from one event to the next.
#[derive(Debug, Clone, Copy)]
pub struct ChartState {
    /// Whether the events are inside a chart.
    pub is_mermaid_block: bool,
    /// The number of charts that were met so far.
    pub counter: usize,
}

/// An event of a Markdown document, as far as charts are concerned.
#[derive(Debug, Clone, Copy)]
pub enum ChartEvent {
    /// The start of a block of code. `chart` tells whether its fence names
    /// `mermaid`.
    StartCode { chart: bool },
    /// The end of a block of code. `chart` tells whether its fence names
    /// `mermaid`.
    EndCode { chart: bool },
    /// Text or inline code.
    Text,
    /// Any other event.
    Other,
}

/// What becomes of an event.
#[derive(Debug, Clone, Copy, PartialEq, Eq)]
pub enum ChartAction {
    /// The event is dropped.
    Skip,
    /// The event is the code of a chart: the chart is rendered, and the
    /// image takes the place of the event.
    Render,
    /// The event stays as it is.
    Keep,
}

/// The state behind an event: the start of a chart counts it and enters
/// it, the end of a chart leaves it.
pub open spec fn chart_state_behind(state: ChartState, event: ChartEvent) -> ChartState {
    match event {
        ChartEvent::StartCode { chart } => if chart {
            ChartState { is_mermaid_block: true, counter: (state.counter + 1) as usize }
        } else {
            state
        },
        ChartEvent::EndCode { chart } => if chart {
            ChartState { is_mermaid_block: false, ..state }
        } else {
            state
        },
        _ => state,
    }
}

/// What becomes of an event: the fence of a chart is dropped, text inside
/// of a chart is rendered, and anything else stays.
pub open spec fn chart_action(state: ChartState, event: ChartEvent) -> ChartAction {
    match event {
        ChartEvent::StartCode { chart } => if chart {
            ChartAction::Skip
        } else {
            ChartAction::Keep
        },
        ChartEvent::EndCode { chart } => if chart {
            ChartAction::Skip
        } else {
            ChartAction::Keep
        },
        ChartEvent::Text => if state.is_mermaid_block {
            ChartAction::Render
        } else {
            ChartAction::Keep
        },
        ChartEvent::Other => ChartAction::Keep,
    }
}

impl ChartState {
    /// The state before the first event: outside of a chart, with no
    /// chart counted.
    pub fn new() -> (state: Self)
        ensures
            state == (ChartState { is_mermaid_block: false, counter: 0 }),
    {
        ChartState { is_mermaid_block: false, counter: 0 }
    }

    /// Whether the state can take the event: the charts must stay
    /// countable.
    pub fn takes(&self, event: &ChartEvent) -> (ok: bool)
        ensures
            ok == (*event == (ChartEvent::StartCode { chart: true }) ==> self.counter
                < usize::MAX),
    {
        match event {
            ChartEvent::StartCode { chart } => !*chart || self.counter < usize::MAX,
            _ => true,
        }
    }

    /// Takes an event and tells what becomes of it.
    pub fn step(&mut self, event: &ChartEvent) -> (action: ChartAction)
        requires
            *event == (ChartEvent::StartCode { chart: true }) ==> old(self).counter < usize::MAX,
        ensures
            *final(self) == chart_state_behind(*old(self), *event),
            action == chart_action(*old(self), *event),
    {
        match event {
            ChartEvent::StartCode { chart } => {
                if *chart {
                    self.counter = self.counter + 1;
                    self.is_mermaid_block = true;
                    ChartAction::Skip
                } else {
                    ChartAction::Keep
                }
            },
            ChartEvent::EndCode { chart } => {
                if *chart {
                    self.is_mermaid_block = false;
                    ChartAction::Skip
                } else {
                    ChartAction::Keep
                }
            },
            ChartEvent::Text => {
                if self.is_mermaid_block {
                    ChartAction::Render
                } else {
                    ChartAction::Keep
                }
            },
            ChartEvent::Other => ChartAction::Keep,
        }
    }
}

/// Whether the line behind a fence names a chart.
pub fn is_chart(language: &str) -> (chart: bool)
    ensures
        chart == (language@ == "mermaid"@),
{
    same_text(language, "mermaid")
}

/// Whether the charts of a chapter stay as they are: a web page draws
/// them by itself.
pub fn keeps_charts(renderer: SupportedRenderer) -> (keeps: bool)
    ensures
        keeps == (renderer == SupportedRenderer::Html),
{
    match renderer {
        SupportedRenderer::Html => true,
        _ => false,
    }
}

/// The description and title of the image of a chart.
pub fn chart_description(chapter_number: &str, counter: usize) -> (text: String)
    ensures
        text@ == "Chapter "@ + chapter_number@ + ", Graphic "@ + decimal(counter as nat),
{
    let count = decimal_string(counter);
    String::from_str("Chapter ").concat(chapter_number).concat(", Graphic ").concat(
        count.as_str(),
    )
}

} // verus!
