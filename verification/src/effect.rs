//! What the editor asks of the interface around it.
//!
//! The editor keeps the document and decides; inputs, focus, painting and
//! history belong to the interface. Each operation leaves the requests it
//! makes in the editor's outbox, in order.

use vstd::prelude::*;

use crate::block::{BlockContent, BlockId};
use crate::slash::MenuAction;
use crate::style::HighlightStyle;
use crate::toolbar::ToolbarAction;
use crate::view::{DocumentChanged, SelectionChanged};

verus! {

/// A stretch of an input's text and the style it is painted with.
#[derive(Clone, Copy, Debug, PartialEq, Eq, Structural)]
pub struct Decoration {
    pub start: usize,
    pub end: usize,
    pub style: HighlightStyle,
}

/// A request to the interface.
#[derive(Debug)]
pub enum Effect {
    /// Tell listeners that the document changed.
    Document(DocumentChanged),
    /// Tell listeners that the caret or selection changed.
    Selection(SelectionChanged),
    /// Draw another frame.
    Notify,
    /// Tell listeners what happened in the application's menu.
    Menu(MenuAction),
    /// Tell listeners what was chosen in the application's toolbar.
    Toolbar(ToolbarAction),
    /// Take the document as it was into the undo history, as a step of typing.
    RecordTyping(Vec<BlockContent>),
    /// Make a fresh input for a block.
    NewInput {
        block: BlockId,
        multiline: bool,
        language: String,
        placeholder: String,
        text: String,
    },
    /// Replace the text of a block's input and put its caret somewhere.
    SetText { block: BlockId, text: String, caret: usize },
    /// Set the hint of a block's input.
    SetPlaceholder { block: BlockId, text: String },
    /// Give a block's input the keyboard, with the caret at an offset.
    FocusInput { block: BlockId, caret: usize },
    /// Select a stretch of a block's input.
    SelectInput { block: BlockId, start: usize, end: usize },
    /// Give the keyboard to the editor itself, for a selected node.
    FocusEditor,
    /// Paint a block's marks.
    Decorate { block: BlockId, runs: Vec<Decoration> },
    /// Forget what was learned about the inset of a block's input.
    ResetFit(BlockId),
    /// Count again the rows a block's text wraps into.
    Remeasure(BlockId),
    /// Make the cells of a block that holds a grid.
    RestoreGrid(BlockId),
    /// Run a command of the application.
    RunCommand(usize),
    /// Show the link editor, its input holding an address, selected.
    OpenLinkInput(String),
}

/// An [`Effect`] as the contracts see it.
pub enum EffectView {
    Document,
    Selection,
    Notify,
    Menu(crate::slash::MenuActionView),
    Toolbar(Seq<char>),
    RecordTyping(Seq<crate::block::ContentView>),
    NewInput {
        block: BlockId,
        multiline: bool,
        language: Seq<char>,
        placeholder: Seq<char>,
        text: Seq<char>,
    },
    SetText { block: BlockId, text: Seq<char>, caret: int },
    SetPlaceholder { block: BlockId, text: Seq<char> },
    FocusInput { block: BlockId, caret: int },
    SelectInput { block: BlockId, start: int, end: int },
    FocusEditor,
    Decorate { block: BlockId, runs: Seq<Decoration> },
    ResetFit(BlockId),
    Remeasure(BlockId),
    RestoreGrid(BlockId),
    RunCommand(int),
    OpenLinkInput(Seq<char>),
}

impl View for Effect {
    type V = EffectView;

    open spec fn view(&self) -> EffectView {
        match *self {
            Effect::Document(_) => EffectView::Document,
            Effect::Selection(_) => EffectView::Selection,
            Effect::Notify => EffectView::Notify,
            Effect::Menu(action) => EffectView::Menu(action@),
            Effect::Toolbar(action) => EffectView::Toolbar(action.tag@),
            Effect::RecordTyping(contents) => EffectView::RecordTyping(
                crate::view::content_views(contents@),
            ),
            Effect::NewInput { block, multiline, language, placeholder, text } =>
                EffectView::NewInput {
                block,
                multiline,
                language: language@,
                placeholder: placeholder@,
                text: text@,
            },
            Effect::SetText { block, text, caret } => EffectView::SetText {
                block,
                text: text@,
                caret: caret as int,
            },
            Effect::SetPlaceholder { block, text } => EffectView::SetPlaceholder {
                block,
                text: text@,
            },
            Effect::FocusInput { block, caret } => EffectView::FocusInput {
                block,
                caret: caret as int,
            },
            Effect::SelectInput { block, start, end } => EffectView::SelectInput {
                block,
                start: start as int,
                end: end as int,
            },
            Effect::FocusEditor => EffectView::FocusEditor,
            Effect::Decorate { block, runs } => EffectView::Decorate { block, runs: runs@ },
            Effect::ResetFit(block) => EffectView::ResetFit(block),
            Effect::Remeasure(block) => EffectView::Remeasure(block),
            Effect::RestoreGrid(block) => EffectView::RestoreGrid(block),
            Effect::RunCommand(command) => EffectView::RunCommand(command as int),
            Effect::OpenLinkInput(href) => EffectView::OpenLinkInput(href@),
        }
    }
}

/// The views of a list of requests.
pub open spec fn effect_views(effects: Seq<Effect>) -> Seq<EffectView> {
    effects.map_values(|effect: Effect| effect@)
}

} // verus!
