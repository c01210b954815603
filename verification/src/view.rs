//! The editor: the document, its blocks, and everything that happens to them.

use vstd::prelude::*;

use crate::block::{
    Block, BlockAttrs, BlockCaps, BlockContent, BlockId, BlockRegistry, BlockSpec, Selection,
    PARAGRAPH,
};
use crate::effect::{Decoration, Effect};
use crate::input_rules::InputRuleMode;
use crate::mark::MarkKind;
use crate::slash::{MenuSource, SuggestionMenu};
use crate::style::highlight_style;
use crate::suggestion::{default_emoji, default_mentions, Emoji, Mention};
use crate::text;
use crate::toolbar::{LinkEditor, ToolbarItem};

verus! {

/// Emitted when the document changes, so a host can persist it.
#[derive(Clone, Copy, Debug, PartialEq, Eq, Structural)]
pub struct DocumentChanged;

/// The focused block's caret or selection changed without editing text.
#[derive(Clone, Copy, Debug, PartialEq, Eq, Structural)]
pub struct SelectionChanged;

/// Where a caret lands when focus moves to a block.
#[derive(Clone, Copy, Debug, PartialEq, Eq, Structural)]
pub enum Caret {
    Start,
    End,
    At(usize),
}

/// A cell of a block that holds a grid.
#[derive(Clone, Copy, Debug, PartialEq, Eq, Structural)]
pub struct CellPosition {
    pub row: usize,
    pub column: usize,
}

/// An editor and the document in it.
pub struct NotionEditor<S: BlockSpec> {
    /// The block types it knows.
    pub(crate) registry: BlockRegistry<S>,
    pub(crate) blocks: Vec<Block>,
    pub(crate) next_id: u64,
    /// Block whose input currently holds focus.
    pub(crate) focused: Option<BlockId>,
    /// Show every block's gutter controls without hovering.
    pub(crate) always_show_gutter: bool,
    /// Blocks whose place on screen is known, as of the last frame.
    pub(crate) placed: Vec<BlockId>,
    /// The block a press started in, which anchors a drag selection.
    pub(crate) mouse_anchor: Option<BlockId>,
    /// Blocks that hold a grid of cells.
    pub(crate) grids: Vec<BlockId>,
    /// Which cell has the caret, when one does.
    pub(crate) focused_cell: Option<(BlockId, CellPosition)>,
    /// Whether a comment is being written.
    pub(crate) comment_draft: bool,
    /// Blocks selected as nodes, e.g. by a drag or Escape.
    pub(crate) selected: Vec<BlockId>,
    /// The open suggestion menu, if any.
    pub(crate) suggestion: Option<SuggestionMenu>,
    pub(crate) menu_source: MenuSource,
    pub(crate) input_rule_mode: InputRuleMode,
    /// People offered by the `@` menu.
    pub(crate) mentions: Vec<Mention>,
    /// Emoji offered by the `:` menu.
    pub(crate) emoji: Vec<Emoji>,
    /// Where a dragged block would land: the index it would have.
    pub(crate) drop_target: Option<usize>,
    /// The open link editor, if any.
    pub(crate) link_editor: Option<LinkEditor>,
    /// The application's toolbar, where it has one.
    pub(crate) toolbar: Option<Vec<ToolbarItem>>,
    /// Requests to the interface, oldest first.
    pub(crate) effects: Vec<Effect>,
}

/// A [`NotionEditor`] as the contracts see it.
#[verifier::ext_equal]
pub struct EditorView {
    pub reg: crate::block::RegistryView,
    pub blocks: Seq<crate::block::BlockView>,
    pub next_id: int,
    pub focused: Option<BlockId>,
    pub always_show_gutter: bool,
    pub placed: Seq<BlockId>,
    pub mouse_anchor: Option<BlockId>,
    pub grids: Seq<BlockId>,
    pub focused_cell: Option<(BlockId, CellPosition)>,
    pub comment_draft: bool,
    pub selected: Seq<BlockId>,
    pub suggestion: Option<crate::slash::MenuView>,
    pub menu_source: crate::slash::SourceView,
    pub input_rule_mode: InputRuleMode,
    pub mentions: Seq<crate::suggestion::MentionView>,
    pub emoji: Seq<crate::suggestion::EmojiView>,
    pub drop_target: Option<usize>,
    pub link_editor: Option<LinkEditor>,
    pub toolbar: Option<Seq<crate::toolbar::ToolbarItemView>>,
    pub effects: Seq<crate::effect::EffectView>,
}

/// The views of a list of blocks.
pub open spec fn block_views(blocks: Seq<Block>) -> Seq<crate::block::BlockView> {
    blocks.map_values(|block: Block| block@)
}

impl<S: BlockSpec> NotionEditor<S> {
    /// The block types it knows.
    pub open(crate) spec fn types(&self) -> BlockRegistry<S> {
        self.registry
    }

    /// Its blocks, top to bottom.
    pub open(crate) spec fn block_list(&self) -> Seq<Block> {
        self.blocks@
    }
}

impl<S: BlockSpec> View for NotionEditor<S> {
    type V = EditorView;

    open(crate) spec fn view(&self) -> EditorView {
        EditorView {
            reg: self.registry@,
            blocks: block_views(self.blocks@),
            next_id: self.next_id as int,
            focused: self.focused,
            always_show_gutter: self.always_show_gutter,
            placed: self.placed@,
            mouse_anchor: self.mouse_anchor,
            grids: self.grids@,
            focused_cell: self.focused_cell,
            comment_draft: self.comment_draft,
            selected: self.selected@,
            suggestion: match self.suggestion {
                Some(menu) => Some(menu@),
                None => None,
            },
            menu_source: self.menu_source@,
            input_rule_mode: self.input_rule_mode,
            mentions: crate::suggestion::mention_views(self.mentions@),
            emoji: crate::suggestion::emoji_views(self.emoji@),
            drop_target: self.drop_target,
            link_editor: self.link_editor,
            toolbar: crate::toolbar::opt_item_views(self.toolbar),
            effects: crate::effect::effect_views(self.effects@),
        }
    }
}

/// Whether block `i` is the first one with this id.
pub open spec fn is_index(blocks: Seq<crate::block::BlockView>, id: BlockId, i: int) -> bool {
    &&& 0 <= i < blocks.len()
    &&& blocks[i].id == id
    &&& forall|j: int| 0 <= j < i ==> (#[trigger] blocks[j]).id != id
}

/// Index of the block with this id.
pub open spec fn find(blocks: Seq<crate::block::BlockView>, id: BlockId) -> Option<int> {
    if exists|i: int| is_index(blocks, id, i) {
        Some(choose|i: int| is_index(blocks, id, i))
    } else {
        None
    }
}

/// Whether a block with this id is in the document.
pub open spec fn known(blocks: Seq<crate::block::BlockView>, id: BlockId) -> bool {
    exists|i: int| 0 <= i < blocks.len() && (#[trigger] blocks[i]).id == id
}

/// Whether a block with this id is in the document, of a type that holds a
/// grid of cells.
pub open spec fn holds_cells(
    reg: crate::block::RegistryView,
    blocks: Seq<crate::block::BlockView>,
    id: BlockId,
) -> bool {
    exists|i: int|
        0 <= i < blocks.len() && (#[trigger] blocks[i]).id == id && (reg.caps)(blocks[i].ty).grid
}

/// A block is found where it first occurs, and exactly when it is there.
pub proof fn lemma_find(blocks: Seq<crate::block::BlockView>, id: BlockId)
    ensures
        find(blocks, id) is Some <==> known(blocks, id),
        find(blocks, id) matches Some(i) ==> is_index(blocks, id, i),
        forall|i: int| is_index(blocks, id, i) ==> find(blocks, id) == Some(i),
{
    if known(blocks, id) {
        let i = choose|i: int| 0 <= i < blocks.len() && (#[trigger] blocks[i]).id == id;
        lemma_first(blocks, id, i);
    }
    assert forall|i: int| is_index(blocks, id, i) implies find(blocks, id) == Some(i) by {
        let k = choose|k: int| is_index(blocks, id, k);
        assert(k == i);
    }
}

proof fn lemma_first(blocks: Seq<crate::block::BlockView>, id: BlockId, i: int)
    requires
        0 <= i < blocks.len(),
        blocks[i].id == id,
    ensures
        exists|k: int| is_index(blocks, id, k),
    decreases i,
{
    if forall|j: int| 0 <= j < i ==> (#[trigger] blocks[j]).id != id {
        assert(is_index(blocks, id, i));
    } else {
        let j = choose|j: int| 0 <= j < i && (#[trigger] blocks[j]).id == id;
        lemma_first(blocks, id, j);
    }
}

impl EditorView {
    /// The editor with one more request in its outbox.
    pub open spec fn emit(self, effect: crate::effect::EffectView) -> EditorView {
        EditorView { effects: self.effects.push(effect), ..self }
    }

    /// The editor with block `ix` replaced.
    pub open spec fn with_block(self, ix: int, block: crate::block::BlockView) -> EditorView {
        EditorView { blocks: self.blocks.update(ix, block), ..self }
    }

    /// What the type of block `ix` can do.
    pub open spec fn caps_at(self, ix: int) -> BlockCaps {
        (self.reg.caps)(self.blocks[ix].ty)
    }

    /// The block that commands act on: the focused one, else the first.
    pub open spec fn active_id(self) -> Option<BlockId> {
        if self.focused is Some {
            self.focused
        } else if self.blocks.len() > 0 {
            Some(self.blocks[0].id)
        } else {
            None
        }
    }

    /// Index of the block that commands act on.
    pub open spec fn active_index(self) -> Option<int> {
        match self.active_id() {
            Some(id) => find(self.blocks, id),
            None => None,
        }
    }

    /// Whether the editor is in order: block ids are unique and below the next
    /// one to be given out, the marks and the caret of every block lie in its
    /// text, what is focused or selected is a block of the document, every grid
    /// of cells belongs to one whose type holds a grid, and no menu of the
    /// editor's own is open where the application supplies the menus.
    pub open spec fn wf(self) -> bool {
        &&& 0 <= self.next_id <= u64::MAX
        &&& forall|i: int, j: int|
            0 <= i < j < self.blocks.len() ==> (#[trigger] self.blocks[i]).id != (
            #[trigger] self.blocks[j]).id
        &&& forall|i: int|
            0 <= i < self.blocks.len() ==> (#[trigger] self.blocks[i]).id.0 < self.next_id
                && self.blocks[i].wf()
        &&& self.focused matches Some(id) ==> known(self.blocks, id)
        &&& forall|i: int|
            0 <= i < self.selected.len() ==> known(self.blocks, #[trigger] self.selected[i])
        &&& forall|i: int|
            0 <= i < self.grids.len() ==> holds_cells(
                self.reg,
                self.blocks,
                #[trigger] self.grids[i],
            )
        &&& self.focused_cell matches Some(cell) ==> known(self.blocks, cell.0)
        &&& self.menu_source is Application ==> self.suggestion is None
    }
}

/// `ids` with every `id` taken out.
pub open spec fn without(ids: Seq<BlockId>, id: BlockId) -> Seq<BlockId>
    decreases ids.len(),
{
    if ids.len() == 0 {
        Seq::empty()
    } else if ids.last() == id {
        without(ids.drop_last(), id)
    } else {
        without(ids.drop_last(), id).push(ids.last())
    }
}

/// What is left when an id is taken out: the others, and not that one.
pub proof fn lemma_without(ids: Seq<BlockId>, id: BlockId)
    ensures
        !without(ids, id).contains(id),
        forall|other: BlockId| #[trigger]
            without(ids, id).contains(other) <==> ids.contains(other) && other != id,
    decreases ids.len(),
{
    if ids.len() > 0 {
        let rest = ids.drop_last();
        lemma_without(rest, id);
        assert forall|other: BlockId| #[trigger]
            without(ids, id).contains(other) <==> ids.contains(other) && other != id by {
            assert(without(rest, id).contains(other) <==> rest.contains(other) && other != id);
            if ids.contains(other) && other != id {
                let i = choose|i: int| 0 <= i < ids.len() && ids[i] == other;
                if i < rest.len() {
                    assert(rest[i] == other);
                    let j = choose|j: int|
                        0 <= j < without(rest, id).len() && without(rest, id)[j] == other;
                    assert(without(ids, id)[j] == other);
                } else {
                    assert(without(ids, id).last() == other);
                }
            }
            if without(ids, id).contains(other) {
                let j = choose|j: int|
                    0 <= j < without(ids, id).len() && without(ids, id)[j] == other;
                if j < without(rest, id).len() {
                    assert(without(rest, id)[j] == other);
                    let i = choose|i: int| 0 <= i < rest.len() && rest[i] == other;
                    assert(ids[i] == other);
                } else {
                    assert(ids[ids.len() - 1] == other);
                }
            }
        }
    }
}

fn drop_id(ids: &Vec<BlockId>, id: BlockId) -> (rest: Vec<BlockId>)
    ensures
        rest@ == without(ids@, id),
{
    let mut rest: Vec<BlockId> = Vec::new();
    let mut i: usize = 0;
    while i < ids.len()
        invariant
            i <= ids@.len(),
            rest@ == without(ids@.take(i as int), id),
        decreases ids@.len() - i,
    {
        assert(ids@.take(i + 1).drop_last() =~= ids@.take(i as int));
        if ids[i] != id {
            rest.push(ids[i]);
        }
        i = i + 1;
    }
    assert(ids@.take(i as int) =~= ids@);
    rest
}

/// A block as it enters the document.
pub open spec fn fresh_block(
    id: BlockId,
    content: crate::block::ContentView,
) -> crate::block::BlockView {
    crate::block::BlockView {
        id,
        ty: content.ty,
        attrs: content.attrs,
        text: content.text,
        marks: crate::mark::clamp_marks(content.marks, crate::text::blen(content.text)),
        stored_marks: None,
        indent: content.indent,
        rows: 1,
        input: crate::block::Selection::at(0),
        seen: crate::block::Selection::at(0),
    }
}

/// The input that a block asks for.
pub open spec fn new_input(
    reg: crate::block::RegistryView,
    block: crate::block::BlockView,
) -> crate::effect::EffectView {
    crate::effect::EffectView::NewInput {
        block: block.id,
        multiline: (reg.caps)(block.ty).multiline,
        language: match block.attrs.language {
            Some(language) => language,
            None => "plaintext"@,
        },
        placeholder: (reg.placeholder)(block.ty, block.attrs),
        text: block.text,
    }
}

/// How a block's text is painted: struck through as a whole where its type
/// says so, else run by run as its marks ask.
pub open spec fn decoration_runs(
    reg: crate::block::RegistryView,
    block: crate::block::BlockView,
) -> Seq<Decoration> {
    let len = crate::text::blen(block.text);
    let runs = if (reg.strikethrough)(block.ty, block.attrs) {
        seq![
            crate::mark::RunView { start: 0, end: len, kinds: seq![crate::mark::KindView::Strike] },
        ]
    } else {
        crate::mark::mark_runs(block.marks, len)
    };
    runs.map_values(
        |run: crate::mark::RunView|
            Decoration {
                start: run.start as usize,
                end: run.end as usize,
                style: crate::style::style_of(run.kinds),
            },
    )
}

/// The request that paints a block.
pub open spec fn decorate(
    reg: crate::block::RegistryView,
    block: crate::block::BlockView,
) -> crate::effect::EffectView {
    crate::effect::EffectView::Decorate { block: block.id, runs: decoration_runs(reg, block) }
}

/// The cell that has the caret once the cells of block `id` are gone.
pub open spec fn cell_without(cell: Option<(BlockId, CellPosition)>, id: BlockId) -> Option<
    (BlockId, CellPosition),
> {
    match cell {
        Some(found) if found.0 == id => None,
        _ => cell,
    }
}

/// Whether two types edit differently, as code does from prose.
pub open spec fn edits_otherwise(
    reg: crate::block::RegistryView,
    from: Seq<char>,
    to: Seq<char>,
) -> bool {
    (reg.caps)(from).multiline != (reg.caps)(to).multiline
}

/// A block turned into another type. The text and the marks stay; the nesting
/// stays where the new type has it, and the caret where the input stays.
pub open spec fn turned_block(
    reg: crate::block::RegistryView,
    block: crate::block::BlockView,
    ty: Seq<char>,
    attrs: crate::block::AttrsView,
) -> crate::block::BlockView {
    let caps = (reg.caps)(ty);
    let fresh = edits_otherwise(reg, block.ty, ty);
    crate::block::BlockView {
        ty,
        attrs,
        indent: if caps.list {
            block.indent
        } else {
            0
        },
        input: if fresh {
            Selection::at(0)
        } else {
            block.input
        },
        seen: if fresh {
            Selection::at(0)
        } else {
            block.seen
        },
        ..block
    }
}

impl EditorView {
    /// The editor with a block of `content` put in at `ix`, or at the end
    /// where the document is shorter.
    pub open spec fn insert_block(
        self,
        ix: int,
        content: crate::block::ContentView,
    ) -> EditorView {
        let at = if ix < self.blocks.len() {
            ix
        } else {
            self.blocks.len() as int
        };
        let block = fresh_block(BlockId(self.next_id as u64), content);
        let grid = (self.reg.caps)(content.ty).grid;
        let put = EditorView {
            blocks: self.blocks.insert(at, block),
            next_id: self.next_id + 1,
            grids: if grid {
                self.grids.push(block.id)
            } else {
                self.grids
            },
            ..self
        }.emit(new_input(self.reg, block));
        let made = if grid {
            put.emit(crate::effect::EffectView::RestoreGrid(block.id))
        } else {
            put
        };
        made.emit(crate::effect::EffectView::Remeasure(block.id)).emit(
            decorate(self.reg, block),
        ).emit(crate::effect::EffectView::Document).emit(crate::effect::EffectView::Notify)
    }

    /// The editor without block `id`: its cells, its focus and its selection
    /// go with it.
    pub open spec fn remove_block(self, id: BlockId) -> EditorView {
        match find(self.blocks, id) {
            Some(ix) => EditorView {
                blocks: self.blocks.remove(ix),
                focused: if self.focused == Some(id) {
                    None
                } else {
                    self.focused
                },
                grids: without(self.grids, id),
                focused_cell: cell_without(self.focused_cell, id),
                selected: without(self.selected, id),
                ..self
            }.emit(crate::effect::EffectView::Document).emit(crate::effect::EffectView::Notify),
            None => self,
        }
    }

    /// The editor with block `id` of another type. The text and the marks stay;
    /// nesting and cells stay where the new type has them, and the input stays
    /// where the new type edits as the old one did.
    pub open spec fn set_block_type(
        self,
        id: BlockId,
        ty: Seq<char>,
        attrs: crate::block::AttrsView,
    ) -> EditorView {
        match find(self.blocks, id) {
            Some(ix) if self.blocks[ix].ty != ty || self.blocks[ix].attrs != attrs => {
                let block = self.blocks[ix];
                let caps = (self.reg.caps)(ty);
                let fresh = edits_otherwise(self.reg, block.ty, ty);
                let changed = turned_block(self.reg, block, ty, attrs);
                EditorView {
                    blocks: self.blocks.update(ix, changed),
                    grids: if caps.grid {
                        self.grids
                    } else {
                        without(self.grids, id)
                    },
                    focused_cell: if caps.grid {
                        self.focused_cell
                    } else {
                        cell_without(self.focused_cell, id)
                    },
                    ..self
                }.emit(crate::effect::EffectView::ResetFit(id)).emit(
                    if fresh {
                        new_input(self.reg, changed)
                    } else {
                        crate::effect::EffectView::SetPlaceholder {
                            block: id,
                            text: (self.reg.placeholder)(ty, attrs),
                        }
                    },
                ).emit(crate::effect::EffectView::Remeasure(id)).emit(
                    decorate(self.reg, changed),
                ).emit(crate::effect::EffectView::Document).emit(crate::effect::EffectView::Notify)
            },
            _ => self,
        }
    }
}

/// Putting a block in keeps the editor in order.
pub proof fn lemma_insert_wf(e: EditorView, ix: int, content: crate::block::ContentView)
    requires
        e.wf(),
        e.next_id < u64::MAX,
        0 <= ix,
        forall|i: int| 0 <= i < content.marks.len() ==> 0 <= (#[trigger] content.marks[i]).start,
        crate::text::blen(content.text) <= usize::MAX,
    ensures
        e.insert_block(ix, content).wf(),
{
    let n = e.insert_block(ix, content);
    let at = if ix < e.blocks.len() {
        ix
    } else {
        e.blocks.len() as int
    };
    let block = fresh_block(BlockId(e.next_id as u64), content);
    crate::mark::lemma_clamp_in_range(content.marks, crate::text::blen(content.text));
    crate::text::lemma_ends(content.text);
    assert(n.blocks[at] == block);
    assert forall|id: BlockId| known(e.blocks, id) implies known(n.blocks, id) by {
        let i = choose|i: int| 0 <= i < e.blocks.len() && (#[trigger] e.blocks[i]).id == id;
        if i < at {
            assert(n.blocks[i] == e.blocks[i]);
        } else {
            assert(n.blocks[i + 1] == e.blocks[i]);
        }
    }
    assert(known(n.blocks, block.id));
    assert forall|i: int| 0 <= i < n.grids.len() implies holds_cells(
        n.reg,
        n.blocks,
        #[trigger] n.grids[i],
    ) by {
        if i < e.grids.len() {
            assert(holds_cells(e.reg, e.blocks, e.grids[i]));
            let k = choose|k: int|
                0 <= k < e.blocks.len() && (#[trigger] e.blocks[k]).id == e.grids[i] && (
                e.reg.caps)(e.blocks[k].ty).grid;
            if k < at {
                assert(n.blocks[k] == e.blocks[k]);
            } else {
                assert(n.blocks[k + 1] == e.blocks[k]);
            }
        } else {
            assert(n.blocks[at] == block);
        }
    }
}

impl<S: BlockSpec> NotionEditor<S> {
    /// Leave a request for the interface.
    pub fn emit(&mut self, effect: Effect)
        ensures
            final(self)@ == old(self)@.emit(effect@),
            final(self).types() == old(self).types(),
            final(self).block_list() == old(self).block_list(),
    {
        self.effects.push(effect);
        assert(self@ =~= old(self)@.emit(effect@));
    }

    /// How many blocks the document has.
    pub fn block_count(&self) -> (n: usize)
        ensures
            n == self@.blocks.len(),
    {
        self.blocks.len()
    }

    /// Index of a block.
    pub fn index_of(&self, id: BlockId) -> (ix: Option<usize>)
        ensures
            match ix {
                Some(ix) => find(self@.blocks, id) == Some(ix as int) && is_index(
                    self@.blocks,
                    id,
                    ix as int,
                ),
                None => find(self@.blocks, id) is None && !known(self@.blocks, id),
            },
    {
        proof {
            lemma_find(self@.blocks, id);
        }
        let mut i: usize = 0;
        while i < self.blocks.len()
            invariant
                i <= self.blocks@.len(),
                forall|j: int| 0 <= j < i ==> (#[trigger] self@.blocks[j]).id != id,
                forall|k: int| is_index(self@.blocks, id, k) ==> find(self@.blocks, id) == Some(k),
                find(self@.blocks, id) matches Some(k) ==> is_index(self@.blocks, id, k),
            decreases self.blocks@.len() - i,
        {
            assert(self@.blocks[i as int] == self.blocks@[i as int]@);
            if self.blocks[i].id == id {
                assert(is_index(self@.blocks, id, i as int));
                return Some(i);
            }
            i = i + 1;
        }
        None
    }

    /// A block, by its id.
    pub fn block(&self, id: BlockId) -> (block: Option<&Block>)
        ensures
            match block {
                Some(block) => find(self@.blocks, id) matches Some(ix) && block@ == self@.blocks[ix]
                    && block.id == id,
                None => find(self@.blocks, id) is None,
            },
    {
        match self.index_of(id) {
            Some(ix) => {
                assert(self@.blocks[ix as int] == self.blocks@[ix as int]@);
                Some(&self.blocks[ix])
            },
            None => None,
        }
    }

    /// A block, by its id, to be changed.
    pub fn block_mut(&mut self, id: BlockId) -> (block: Option<&mut Block>)
        ensures
            match block {
                Some(block) => find(old(self)@.blocks, id) matches Some(ix) && (*block)@ == old(
                    self,
                )@.blocks[ix] && final(self)@ == old(self)@.with_block(ix, (*final(block))@)
                    && final(self).types() == old(self).types(),
                None => find(old(self)@.blocks, id) is None && *final(self) == *old(self),
            },
    {
        match self.index_of(id) {
            Some(ix) => {
                assert(self@.blocks[ix as int] == self.blocks@[ix as int]@);
                let block = &mut self.blocks[ix];
                Some(block)
            },
            None => None,
        }
    }

    /// What the type of block `ix` can do.
    pub fn caps_at(&self, ix: usize) -> (caps: BlockCaps)
        requires
            ix < self@.blocks.len(),
        ensures
            caps == self@.caps_at(ix as int),
    {
        assert(self@.blocks[ix as int] == self.blocks@[ix as int]@);
        self.registry.caps(&self.blocks[ix].ty)
    }

    /// The type of block `ix`.
    pub fn spec_at(&self, ix: usize) -> (spec: &S)
        requires
            ix < self@.blocks.len(),
        ensures
            *spec == self.types().spec_for(self@.blocks[ix as int].ty),
    {
        assert(self@.blocks[ix as int] == self.blocks@[ix as int]@);
        self.registry.get(&self.blocks[ix].ty)
    }

    /// The input that block `ix` asks for.
    fn make_state(&self, ix: usize) -> (effect: Effect)
        requires
            ix < self@.blocks.len(),
        ensures
            effect@ == new_input(self@.reg, self@.blocks[ix as int]),
    {
        assert(self@.blocks[ix as int] == self.blocks@[ix as int]@);
        let block = &self.blocks[ix];
        let spec = self.registry.get(&block.ty);
        let language = match &block.attrs.language {
            Some(language) => language.clone(),
            None => "plaintext".to_owned(),
        };
        Effect::NewInput {
            block: block.id,
            multiline: spec.caps().multiline,
            language,
            placeholder: spec.placeholder(&block.attrs),
            text: block.text.clone(),
        }
    }

    /// How the text of block `ix` is painted.
    pub(crate) fn decorations(&self, ix: usize) -> (painted: Vec<Decoration>)
        requires
            ix < self@.blocks.len(),
        ensures
            painted@ == decoration_runs(self@.reg, self@.blocks[ix as int]),
    {
        assert(self@.blocks[ix as int] == self.blocks@[ix as int]@);
        let block = &self.blocks[ix];
        let len: usize = text::text_len(&block.text);
        let mut painted: Vec<Decoration> = Vec::new();
        let ghost all = decoration_runs(self@.reg, self@.blocks[ix as int]);
        if self.registry.get(&block.ty).strikethrough(&block.attrs) {
            let mut kinds: Vec<MarkKind> = Vec::new();
            kinds.push(MarkKind::Strike);
            assert(crate::mark::kind_views(kinds@) =~= seq![crate::mark::KindView::Strike]);
            painted.push(Decoration { start: 0, end: len, style: highlight_style(&kinds) });
            assert(painted@ =~= all);
            return painted;
        }
        let runs = block.marks.runs(len);
        let mut i: usize = 0;
        while i < runs.len()
            invariant
                i <= runs@.len(),
                all.len() == runs@.len(),
                painted@ == all.take(i as int),
                crate::mark::run_views(runs@) == crate::mark::mark_runs(block@.marks, len as int),
                forall|j: int|
                    0 <= j < all.len() ==> (#[trigger] all[j]) == (Decoration {
                        start: runs@[j].start,
                        end: runs@[j].end,
                        style: crate::style::style_of(crate::mark::kind_views(runs@[j].kinds@)),
                    }),
            decreases runs@.len() - i,
        {
            painted.push(
                Decoration {
                    start: runs[i].start,
                    end: runs[i].end,
                    style: highlight_style(&runs[i].kinds),
                },
            );
            assert(painted@ =~= all.take(i + 1));
            i = i + 1;
        }
        assert(all.take(i as int) =~= all);
        painted
    }

    /// Insert a block at `ix` and return its id.
    pub fn insert_block(&mut self, ix: usize, content: BlockContent) -> (id: BlockId)
        requires
            old(self)@.next_id < u64::MAX,
        ensures
            final(self)@ == old(self)@.insert_block(ix as int, content@),
            final(self).types() == old(self).types(),
            id.0 == old(self)@.next_id,
            old(self)@.wf() ==> final(self)@.wf(),
    {
        let ghost view = content@;
        let len: usize = text::text_len(&content.text);
        proof {
            if self@.wf() {
                lemma_insert_wf(self@, ix as int, view);
            }
        }
        let id = BlockId(self.next_id);
        self.next_id = self.next_id + 1;
        let mut marks = content.marks;
        marks.clamp(len);
        let block = Block {
            id,
            ty: content.ty,
            attrs: content.attrs,
            text: content.text,
            marks,
            stored_marks: None,
            indent: content.indent,
            rows: 1,
            input: Selection::caret(0),
            seen: Selection::caret(0),
        };
        assert(block@ == fresh_block(id, view));
        let at: usize = if ix < self.blocks.len() {
            ix
        } else {
            self.blocks.len()
        };
        let ghost was = self.blocks@;
        self.blocks.insert(at, block);
        assert(block_views(self.blocks@) =~= block_views(was).insert(at as int, block@));
        let grid = self.caps_at(at).grid;
        if grid {
            self.grids.push(id);
        }
        let input = self.make_state(at);
        self.emit(input);
        if grid {
            self.emit(Effect::RestoreGrid(id));
        }
        self.emit(Effect::Remeasure(id));
        let runs = self.decorations(at);
        self.emit(Effect::Decorate { block: id, runs });
        self.emit(Effect::Document(DocumentChanged));
        self.emit(Effect::Notify);
        id
    }
}

/// Taking a block out keeps the editor in order.
pub proof fn lemma_remove_wf(e: EditorView, id: BlockId)
    requires
        e.wf(),
    ensures
        e.remove_block(id).wf(),
{
    lemma_find(e.blocks, id);
    if let Some(ix) = find(e.blocks, id) {
        let n = e.remove_block(id);
        assert forall|i: int| 0 <= i < n.blocks.len() implies (#[trigger] n.blocks[i]) == (if i
            < ix {
            e.blocks[i]
        } else {
            e.blocks[i + 1]
        }) by {}
        assert forall|other: BlockId| known(e.blocks, other) && other != id implies known(
            n.blocks,
            other,
        ) by {
            let i = choose|i: int| 0 <= i < e.blocks.len() && (#[trigger] e.blocks[i]).id == other;
            if i < ix {
                assert(n.blocks[i] == e.blocks[i]);
            } else {
                assert(n.blocks[i - 1] == e.blocks[i]);
            }
        }
        lemma_without(e.grids, id);
        lemma_without(e.selected, id);
        assert forall|i: int| 0 <= i < n.grids.len() implies holds_cells(
            n.reg,
            n.blocks,
            #[trigger] n.grids[i],
        ) by {
            assert(n.grids.contains(n.grids[i]));
            let j = choose|j: int| 0 <= j < e.grids.len() && e.grids[j] == n.grids[i];
            assert(holds_cells(e.reg, e.blocks, e.grids[j]));
            let k = choose|k: int|
                0 <= k < e.blocks.len() && (#[trigger] e.blocks[k]).id == e.grids[j] && (
                e.reg.caps)(e.blocks[k].ty).grid;
            if k < ix {
                assert(n.blocks[k] == e.blocks[k]);
            } else {
                assert(n.blocks[k - 1] == e.blocks[k]);
            }
        }
        assert forall|i: int| 0 <= i < n.selected.len() implies known(
            n.blocks,
            #[trigger] n.selected[i],
        ) by {
            assert(n.selected.contains(n.selected[i]));
            let j = choose|j: int| 0 <= j < e.selected.len() && e.selected[j] == n.selected[i];
            assert(known(e.blocks, e.selected[j]));
        }
    }
}

/// Replacing a block by one in order, of its id and type, keeps the editor in
/// order.
pub proof fn lemma_with_block_wf(e: EditorView, ix: int, block: crate::block::BlockView)
    requires
        e.wf(),
        0 <= ix < e.blocks.len(),
        block.id == e.blocks[ix].id,
        block.ty == e.blocks[ix].ty,
        block.wf(),
    ensures
        e.with_block(ix, block).wf(),
        forall|id: BlockId|
            find(e.with_block(ix, block).blocks, id) == #[trigger] find(e.blocks, id),
{
    let n = e.with_block(ix, block);
    lemma_same_ids(e.blocks, n.blocks);
    lemma_same_cells(e, n);
}

/// Documents whose blocks have the same ids and types hold the same cells.
pub proof fn lemma_same_cells(e: EditorView, n: EditorView)
    requires
        e.reg == n.reg,
        e.blocks.len() == n.blocks.len(),
        forall|i: int|
            0 <= i < e.blocks.len() ==> (#[trigger] e.blocks[i]).id == n.blocks[i].id
                && e.blocks[i].ty == n.blocks[i].ty,
    ensures
        forall|id: BlockId|
            holds_cells(e.reg, e.blocks, id) ==> #[trigger] holds_cells(n.reg, n.blocks, id),
{
    assert forall|id: BlockId| holds_cells(e.reg, e.blocks, id) implies #[trigger] holds_cells(
        n.reg,
        n.blocks,
        id,
    ) by {
        let k = choose|k: int|
            0 <= k < e.blocks.len() && (#[trigger] e.blocks[k]).id == id && (e.reg.caps)(
                e.blocks[k].ty,
            ).grid;
        assert(n.blocks[k].id == id);
    }
}

/// Documents whose blocks have the same ids find them at the same places.
pub proof fn lemma_same_ids(
    a: Seq<crate::block::BlockView>,
    b: Seq<crate::block::BlockView>,
)
    requires
        a.len() == b.len(),
        forall|i: int| 0 <= i < a.len() ==> (#[trigger] a[i]).id == b[i].id,
    ensures
        forall|id: BlockId| known(a, id) == known(b, id),
        forall|id: BlockId| find(b, id) == #[trigger] find(a, id),
{
    assert forall|id: BlockId| known(a, id) == known(b, id) by {
        if known(a, id) {
            let i = choose|i: int| 0 <= i < a.len() && (#[trigger] a[i]).id == id;
            assert(b[i].id == id);
        }
        if known(b, id) {
            let i = choose|i: int| 0 <= i < b.len() && (#[trigger] b[i]).id == id;
            assert(a[i].id == id);
        }
    }
    assert forall|id: BlockId| find(b, id) == #[trigger] find(a, id) by {
        lemma_find(a, id);
        lemma_find(b, id);
        assert(known(a, id) == known(b, id));
        if let Some(i) = find(a, id) {
            assert forall|j: int| 0 <= j < i implies (#[trigger] b[j]).id != id by {
                assert(a[j].id != id);
            }
            assert(b[i].id == a[i].id);
            assert(is_index(b, id, i));
        }
    }
}

/// Changing a block's type keeps the editor in order.
pub proof fn lemma_set_type_wf(
    e: EditorView,
    id: BlockId,
    ty: Seq<char>,
    attrs: crate::block::AttrsView,
)
    requires
        e.wf(),
    ensures
        e.set_block_type(id, ty, attrs).wf(),
{
    lemma_find(e.blocks, id);
    if let Some(ix) = find(e.blocks, id) {
        let n = e.set_block_type(id, ty, attrs);
        crate::text::lemma_ends(e.blocks[ix].text);
        if e.blocks[ix].ty != ty || e.blocks[ix].attrs != attrs {
            lemma_same_ids(e.blocks, n.blocks);
            lemma_without(e.grids, id);
            assert forall|i: int| 0 <= i < n.grids.len() implies holds_cells(
                n.reg,
                n.blocks,
                #[trigger] n.grids[i],
            ) by {
                assert(n.grids.contains(n.grids[i]));
                let j = choose|j: int| 0 <= j < e.grids.len() && e.grids[j] == n.grids[i];
                assert(holds_cells(e.reg, e.blocks, e.grids[j]));
                let k = choose|k: int|
                    0 <= k < e.blocks.len() && (#[trigger] e.blocks[k]).id == e.grids[j] && (
                    e.reg.caps)(e.blocks[k].ty).grid;
                assert(n.blocks[k].id == e.grids[j]);
            }
        }
    }
}

impl<S: BlockSpec> NotionEditor<S> {
    /// Take a block out of the document, with its cells, its focus and its
    /// selection.
    pub fn remove_block(&mut self, id: BlockId)
        ensures
            final(self)@ == old(self)@.remove_block(id),
            final(self).types() == old(self).types(),
            old(self)@.wf() ==> final(self)@.wf(),
    {
        proof {
            if self@.wf() {
                lemma_remove_wf(self@, id);
            }
        }
        let ix: usize = match self.index_of(id) {
            Some(ix) => ix,
            None => {
                return;
            },
        };
        let ghost was = self.blocks@;
        self.blocks.remove(ix);
        assert(block_views(self.blocks@) =~= block_views(was).remove(ix as int));
        if self.focused == Some(id) {
            self.focused = None;
        }
        self.drop_grid(id);
        self.selected = drop_id(&self.selected, id);
        self.emit(Effect::Document(DocumentChanged));
        self.emit(Effect::Notify);
    }

    /// Drop the cells of a block: left behind, a focused cell of a deleted
    /// table would still answer the keyboard.
    fn drop_grid(&mut self, id: BlockId)
        ensures
            final(self)@ == (EditorView {
                grids: without(old(self)@.grids, id),
                focused_cell: cell_without(old(self)@.focused_cell, id),
                ..old(self)@
            }),
            final(self).types() == old(self).types(),
            final(self).block_list() == old(self).block_list(),
    {
        self.grids = drop_id(&self.grids, id);
        if let Some(cell) = self.focused_cell {
            if cell.0 == id {
                self.focused_cell = None;
            }
        }
    }

    /// Give block `ix` another type, and answer whether it needs a fresh input.
    fn turn_block(&mut self, ix: usize, ty: String, attrs: BlockAttrs) -> (fresh: bool)
        requires
            ix < old(self)@.blocks.len(),
        ensures
            final(self)@ == old(self)@.with_block(
                ix as int,
                turned_block(old(self)@.reg, old(self)@.blocks[ix as int], ty@, attrs@),
            ),
            final(self).types() == old(self).types(),
            fresh == edits_otherwise(old(self)@.reg, old(self)@.blocks[ix as int].ty, ty@),
    {
        let ghost was = self.blocks@;
        assert(self@.blocks[ix as int] == was[ix as int]@);
        let caps = self.registry.caps(&ty);
        let fresh = self.caps_at(ix).multiline != caps.multiline;
        let block = &mut self.blocks[ix];
        block.ty = ty;
        block.attrs = attrs;
        if !caps.list {
            block.indent = 0;
        }
        if fresh {
            block.input = Selection::caret(0);
            block.seen = Selection::caret(0);
        }
        assert(block_views(self.blocks@) =~= block_views(was).update(
            ix as int,
            self.blocks@[ix as int]@,
        ));
        fresh
    }

    /// Replace a block's type, keeping its text and marks.
    ///
    /// The new type may have a different size and line height, so what the
    /// old one learned about its input's inset is worth nothing. A type that
    /// holds no grid holds no cells either, and code edits differently from
    /// prose, so that a change between the two needs a fresh input.
    pub fn set_block_type(&mut self, id: BlockId, ty: String, attrs: BlockAttrs)
        ensures
            final(self)@ == old(self)@.set_block_type(id, ty@, attrs@),
            final(self).types() == old(self).types(),
            old(self)@.wf() ==> final(self)@.wf(),
    {
        proof {
            if self@.wf() {
                lemma_set_type_wf(self@, id, ty@, attrs@);
            }
        }
        let ix: usize = match self.index_of(id) {
            Some(ix) => ix,
            None => {
                return;
            },
        };
        assert(self@.blocks[ix as int] == self.blocks@[ix as int]@);
        if text::text_eq(&self.blocks[ix].ty, &ty) && self.blocks[ix].attrs.same(&attrs) {
            return;
        }
        let caps = self.registry.caps(&ty);
        let fresh = self.turn_block(ix, ty, attrs);
        if !caps.grid {
            self.drop_grid(id);
        }
        self.emit(Effect::ResetFit(id));
        if fresh {
            let input = self.make_state(ix);
            self.emit(input);
        } else {
            assert(self@.blocks.len() == self.blocks@.len());
            assert(self@.blocks[ix as int] == self.blocks@[ix as int]@);
            let hint = self.spec_at(ix).placeholder(&self.blocks[ix].attrs);
            self.emit(Effect::SetPlaceholder { block: id, text: hint });
        }
        self.emit(Effect::Remeasure(id));
        let runs = self.decorations(ix);
        self.emit(Effect::Decorate { block: id, runs });
        self.emit(Effect::Document(DocumentChanged));
        self.emit(Effect::Notify);
    }
}

/// An editor with no blocks.
pub open spec fn bare_editor(reg: crate::block::RegistryView) -> EditorView {
    EditorView {
        reg,
        blocks: Seq::empty(),
        next_id: 1,
        focused: None,
        always_show_gutter: false,
        placed: Seq::empty(),
        mouse_anchor: None,
        grids: Seq::empty(),
        focused_cell: None,
        comment_draft: false,
        selected: Seq::empty(),
        suggestion: None,
        menu_source: crate::slash::SourceView::BuiltIn,
        input_rule_mode: InputRuleMode::BuiltIn,
        mentions: crate::suggestion::default_mention_views(),
        emoji: crate::suggestion::default_emoji_views(),
        drop_target: None,
        link_editor: None,
        toolbar: None,
        effects: Seq::empty(),
    }
}

/// A new editor: one empty paragraph.
pub open spec fn new_editor(reg: crate::block::RegistryView) -> EditorView {
    bare_editor(reg).insert_block(0, crate::block::plain_content(crate::block::PARAGRAPH@, ""@))
}

impl EditorView {
    /// The editor with blocks put in from the top, one after another.
    pub open spec fn insert_blocks(self, contents: Seq<crate::block::ContentView>) -> EditorView
        decreases contents.len(),
    {
        if contents.len() == 0 {
            self
        } else {
            self.insert_blocks(contents.drop_last()).insert_block(
                contents.len() - 1,
                contents.last(),
            )
        }
    }
}

/// An editor that holds `contents`, or an empty paragraph where there are
/// none.
pub open spec fn editor_with(
    reg: crate::block::RegistryView,
    contents: Seq<crate::block::ContentView>,
) -> EditorView {
    let new = new_editor(reg);
    if contents.len() == 0 {
        new
    } else {
        EditorView { blocks: Seq::empty(), ..new }.insert_blocks(contents)
    }
}

/// The views of a list of contents.
pub open spec fn content_views(contents: Seq<BlockContent>) -> Seq<crate::block::ContentView> {
    contents.map_values(|content: BlockContent| content@)
}

/// What the blocks of a document are made of.
pub open spec fn contents_of(blocks: Seq<crate::block::BlockView>) -> Seq<
    crate::block::ContentView,
> {
    blocks.map_values(|block: crate::block::BlockView| block.content())
}

/// Putting blocks in one after another appends them in order, each with its
/// marks cut to its text and under an id of its own.
pub proof fn lemma_insert_blocks(e: EditorView, contents: Seq<crate::block::ContentView>)
    requires
        e.blocks.len() == 0,
    ensures
        ({
            let n = e.insert_blocks(contents);
            &&& n.reg == e.reg
            &&& n.next_id == e.next_id + contents.len()
            &&& n.blocks == Seq::new(
                contents.len(),
                |i: int| fresh_block(BlockId((e.next_id + i) as u64), contents[i]),
            )
        }),
    decreases contents.len(),
{
    if contents.len() > 0 {
        lemma_insert_blocks(e, contents.drop_last());
        let n = e.insert_blocks(contents);
        assert(n.blocks =~= Seq::new(
            contents.len(),
            |i: int| fresh_block(BlockId((e.next_id + i) as u64), contents[i]),
        ));
    } else {
        assert(e.blocks =~= Seq::new(
            contents.len(),
            |i: int| fresh_block(BlockId((e.next_id + i) as u64), contents[i]),
        ));
    }
}

/// A document reads back as it was put in: the content of an editor that was
/// made from blocks with their marks in range is the content of those blocks.
pub proof fn law_content_round_trip(
    reg: crate::block::RegistryView,
    contents: Seq<crate::block::ContentView>,
)
    requires
        contents.len() > 0,
        forall|i: int|
            0 <= i < contents.len() ==> crate::mark::in_range(
                (#[trigger] contents[i]).marks,
                crate::text::blen(contents[i].text),
            ),
    ensures
        contents_of(editor_with(reg, contents).blocks) == contents,
{
    let e = EditorView { blocks: Seq::empty(), ..new_editor(reg) };
    lemma_insert_blocks(e, contents);
    let n = editor_with(reg, contents);
    assert forall|i: int| 0 <= i < contents.len() implies contents_of(n.blocks)[i]
        == contents[i] by {
        crate::mark::lemma_clamp_noop(contents[i].marks, crate::text::blen(contents[i].text));
    }
    assert(contents_of(n.blocks) =~= contents);
}

impl<S: BlockSpec> NotionEditor<S> {
    /// An editor that holds one empty paragraph.
    pub fn new(registry: BlockRegistry<S>) -> (editor: NotionEditor<S>)
        ensures
            editor@ == new_editor(registry@),
            editor.types() == registry,
            editor@.wf(),
    {
        let mut editor = NotionEditor {
            registry,
            blocks: Vec::new(),
            next_id: 1,
            focused: None,
            always_show_gutter: false,
            placed: Vec::new(),
            mouse_anchor: None,
            grids: Vec::new(),
            focused_cell: None,
            comment_draft: false,
            selected: Vec::new(),
            suggestion: None,
            menu_source: MenuSource::BuiltIn,
            input_rule_mode: InputRuleMode::BuiltIn,
            mentions: default_mentions(),
            emoji: default_emoji(),
            drop_target: None,
            link_editor: None,
            toolbar: None,
            effects: Vec::new(),
        };
        assert(editor@ =~= bare_editor(registry@));
        let _ = editor.insert_block(0, BlockContent::paragraph(""));
        editor
    }

    /// Build an editor holding `content`.
    pub fn with_content(registry: BlockRegistry<S>, content: Vec<BlockContent>) -> (editor:
        NotionEditor<S>)
        requires
            content@.len() + 2 <= u64::MAX,
        ensures
            editor@ == editor_with(registry@, content_views(content@)),
            editor.types() == registry,
            !(registry@.caps)(crate::block::PARAGRAPH@).grid ==> editor@.wf(),
    {
        let ghost views = content_views(content@);
        let mut editor = NotionEditor::new(registry);
        if content.len() == 0 {
            return editor;
        }
        editor.blocks.clear();
        let ghost start = editor@;
        assert(start =~= EditorView { blocks: Seq::empty(), ..new_editor(registry@) });
        let ghost plain = !(registry@.caps)(crate::block::PARAGRAPH@).grid;
        let ghost all = content@;
        assert(content.len() == all.len());
        let mut ix: usize = 0;
        assert(views.take(0) =~= Seq::empty());
        for block in it: content
            invariant
                it.seq() == all,
                views == content_views(all),
                all.len() <= usize::MAX,
                views.len() + 2 <= u64::MAX,
                ix == it.index(),
                editor@ == start.insert_blocks(views.take(ix as int)),
                editor.types() == registry,
                start.blocks.len() == 0,
                start.next_id == 2,
                plain ==> editor@.wf(),
        {
            proof {
                lemma_insert_blocks(start, views.take(ix as int));
                assert(views.take(ix + 1).drop_last() =~= views.take(ix as int));
            }
            assert(block@ == views[ix as int]);
            let _ = editor.insert_block(ix, block);
            ix = ix + 1;
        }
        assert(views.take(ix as int) =~= views);
        editor
    }
}

/// Whether block `j` encloses block `ix`: it stands above, less deep, and
/// everything between the two is nested under it as well.
pub open spec fn encloses(blocks: Seq<crate::block::BlockView>, j: int, ix: int) -> bool {
    &&& 0 <= j < ix
    &&& forall|k: int| j < k <= ix ==> blocks[j].indent < (#[trigger] blocks[k]).indent
}

/// Whether no collapsed toggle encloses block `ix`.
pub open spec fn visible(blocks: Seq<crate::block::BlockView>, ix: int) -> bool {
    forall|j: int| #[trigger] encloses(blocks, j, ix) ==> !blocks[j].attrs.collapsed
}

/// The item before block `ix` in its list: the nearest block above at the
/// same depth, where nothing less deep comes between and the type is the same.
pub open spec fn prev_item(blocks: Seq<crate::block::BlockView>, ix: int, j: int) -> bool {
    &&& 0 <= j < ix
    &&& blocks[j].indent == blocks[ix].indent
    &&& blocks[j].ty == blocks[ix].ty
    &&& forall|k: int| j < k < ix ==> blocks[ix].indent < (#[trigger] blocks[k]).indent
}

/// How far the items above block `ix` in its list have counted. An item that
/// starts at a number of its own counts from there.
pub open spec fn counted(blocks: Seq<crate::block::BlockView>, ix: int) -> int
    decreases ix,
{
    if exists|j: int| prev_item(blocks, ix, j) {
        let j = choose|j: int| prev_item(blocks, ix, j);
        if 0 <= j < ix {
            match blocks[j].attrs.start {
                Some(start) => start,
                None => 1 + counted(blocks, j),
            }
        } else {
            0
        }
    } else {
        0
    }
}

/// Number of a list item: where it starts itself, moved on by the items above
/// it.
pub open spec fn ordinal(blocks: Seq<crate::block::BlockView>, ix: int) -> int {
    let own = match blocks[ix].attrs.start {
        Some(start) => start,
        None => 1,
    };
    own + counted(blocks, ix)
}

/// What an item counts from: the item above it in its list.
pub proof fn lemma_counted(blocks: Seq<crate::block::BlockView>, ix: int, j: int)
    requires
        prev_item(blocks, ix, j),
    ensures
        counted(blocks, ix) == (match blocks[j].attrs.start {
            Some(start) => start,
            None => 1 + counted(blocks, j),
        }),
{
    let k = choose|k: int| prev_item(blocks, ix, k);
    assert(k == j) by {
        if k < j {
            assert(blocks[ix].indent < blocks[j].indent);
        }
        if j < k {
            assert(blocks[ix].indent < blocks[k].indent);
        }
    }
}

impl<S: BlockSpec> NotionEditor<S> {
    /// The block that commands act on: the focused one, else the first.
    pub fn active_id(&self) -> (id: Option<BlockId>)
        ensures
            id == self@.active_id(),
    {
        if self.focused.is_some() {
            return self.focused;
        }
        self.block_id_at(0)
    }

    /// Id of the block at `ix`.
    pub fn block_id_at(&self, ix: usize) -> (id: Option<BlockId>)
        ensures
            id == (if ix < self@.blocks.len() {
                Some(self@.blocks[ix as int].id)
            } else {
                None
            }),
    {
        if ix < self.blocks.len() {
            assert(self@.blocks[ix as int] == self.blocks@[ix as int]@);
            Some(self.blocks[ix].id)
        } else {
            None
        }
    }

    /// The block whose input holds focus, if any.
    pub fn focused_id(&self) -> (id: Option<BlockId>)
        ensures
            id == self@.focused,
    {
        self.focused
    }

    /// Index of the block that commands act on.
    pub fn active_index(&self) -> (ix: Option<usize>)
        ensures
            crate::block::opt_int(ix) == self@.active_index(),
            ix matches Some(ix) ==> ix < self@.blocks.len(),
    {
        match self.active_id() {
            Some(id) => self.index_of(id),
            None => None,
        }
    }

    /// Caret offset inside a block, in bytes.
    pub fn caret_offset(&self, id: BlockId) -> (offset: Option<usize>)
        ensures
            offset == (match find(self@.blocks, id) {
                Some(ix) => Some(self@.blocks[ix].input.cursor),
                None => None,
            }),
    {
        match self.index_of(id) {
            Some(ix) => {
                assert(self@.blocks[ix as int] == self.blocks@[ix as int]@);
                Some(self.blocks[ix].input.cursor)
            },
            None => None,
        }
    }

    /// Caret or selection in the active block, in byte offsets.
    pub fn selection(&self) -> (selection: Option<(BlockId, usize, usize)>)
        ensures
            selection == (match self@.active_index() {
                Some(ix) => Some(
                    (
                        self@.blocks[ix].id,
                        self@.blocks[ix].input.start,
                        self@.blocks[ix].input.end,
                    ),
                ),
                None => None,
            }),
    {
        match self.active_index() {
            Some(ix) => {
                assert(self@.blocks[ix as int] == self.blocks@[ix as int]@);
                let block = &self.blocks[ix];
                Some((block.id, block.input.start, block.input.end))
            },
            None => None,
        }
    }

    /// What the document is made of.
    pub fn content(&self) -> (contents: Vec<BlockContent>)
        ensures
            content_views(contents@) == contents_of(self@.blocks),
    {
        let mut contents: Vec<BlockContent> = Vec::new();
        let mut i: usize = 0;
        while i < self.blocks.len()
            invariant
                i <= self.blocks@.len(),
                contents@.len() == i,
                forall|j: int|
                    0 <= j < i ==> (#[trigger] contents@[j])@ == self@.blocks[j].content(),
            decreases self.blocks@.len() - i,
        {
            assert(self@.blocks[i as int] == self.blocks@[i as int]@);
            contents.push(self.blocks[i].content());
            i = i + 1;
        }
        assert(content_views(contents@) =~= contents_of(self@.blocks));
        contents
    }

    /// Type name of the block at `ix`.
    pub fn block_type(&self, ix: usize) -> (ty: &str)
        ensures
            ty@ == (if ix < self@.blocks.len() {
                self@.blocks[ix as int].ty
            } else {
                crate::block::PARAGRAPH@
            }),
    {
        if ix < self.blocks.len() {
            assert(self@.blocks[ix as int] == self.blocks@[ix as int]@);
            self.blocks[ix].ty.as_str()
        } else {
            PARAGRAPH
        }
    }

    /// Whether the block at `ix` is an empty paragraph, so that nothing would
    /// be gained by appending another one after it.
    pub fn block_is_empty_paragraph(&self, ix: usize) -> (empty: bool)
        ensures
            empty == self@.empty_paragraph(ix as int),
    {
        if ix >= self.blocks.len() {
            return false;
        }
        assert(self@.blocks[ix as int] == self.blocks@[ix as int]@);
        text::text_eq(&self.blocks[ix].ty, PARAGRAPH) && self.blocks[ix].is_empty()
    }

    /// Whether a block is shown, so that no collapsed toggle encloses it.
    pub fn is_visible(&self, ix: usize) -> (shown: bool)
        requires
            ix < self@.blocks.len(),
        ensures
            shown == visible(self@.blocks, ix as int),
    {
        let ghost blocks = self@.blocks;
        let mut j: usize = ix;
        assert(blocks[ix as int] == self.blocks@[ix as int]@);
        let mut limit: usize = self.blocks[ix].indent;
        while j > 0
            invariant
                blocks == self@.blocks,
                j <= ix < self.blocks@.len(),
                forall|k: int| j <= k <= ix ==> limit <= (#[trigger] blocks[k]).indent,
                exists|k: int| j <= k <= ix && limit == (#[trigger] blocks[k]).indent,
                forall|i: int|
                    j <= i && #[trigger] encloses(blocks, i, ix as int)
                        ==> !blocks[i].attrs.collapsed,
            decreases j,
        {
            j = j - 1;
            assert(blocks[j as int] == self.blocks@[j as int]@);
            if self.blocks[j].indent < limit {
                limit = self.blocks[j].indent;
                if self.blocks[j].attrs.collapsed {
                    assert(encloses(blocks, j as int, ix as int));
                    return false;
                }
            } else {
                assert(!encloses(blocks, j as int, ix as int));
            }
        }
        assert forall|i: int| #[trigger]
            encloses(blocks, i, ix as int) implies !blocks[i].attrs.collapsed by {}
        true
    }

    /// Whether a block is drawn at all: one inside a collapsed toggle is not,
    /// and nothing may be anchored to it.
    pub fn block_is_on_screen(&self, id: BlockId) -> (shown: bool)
        ensures
            shown == (match find(self@.blocks, id) {
                Some(ix) => visible(self@.blocks, ix),
                None => false,
            }),
    {
        match self.index_of(id) {
            Some(ix) => self.is_visible(ix),
            None => false,
        }
    }

    /// Number of a list item, wide enough for any.
    fn list_ordinal(&self, ix: usize) -> (number: u128)
        requires
            ix < self@.blocks.len(),
        ensures
            number == ordinal(self@.blocks, ix as int),
    {
        let ghost blocks = self@.blocks;
        assert(blocks[ix as int] == self.blocks@[ix as int]@);
        let mut number: u128 = match self.blocks[ix].attrs.start {
            Some(start) => start as u128,
            None => 1,
        };
        let ghost mut item: int = ix as int;
        let mut j: usize = ix;
        while j > 0
            invariant
                blocks == self@.blocks,
                0 <= j <= item <= ix < self.blocks@.len(),
                blocks[item].indent == blocks[ix as int].indent,
                blocks[item].ty == blocks[ix as int].ty,
                forall|k: int| j <= k < item ==> blocks[item].indent < (#[trigger] blocks[k]).indent,
                number + counted(blocks, item) == ordinal(blocks, ix as int),
                number <= usize::MAX + 1 + (ix - j),
            decreases j,
        {
            j = j - 1;
            assert(blocks[j as int] == self.blocks@[j as int]@);
            assert(blocks[ix as int] == self.blocks@[ix as int]@);
            let prev = &self.blocks[j];
            let block = &self.blocks[ix];
            if prev.indent < block.indent {
                proof {
                    assert forall|k: int| !prev_item(blocks, item, k) by {
                        if 0 <= k < j {
                            assert(blocks[j as int].indent < blocks[item].indent);
                        }
                    }
                }
                return number;
            }
            if prev.indent > block.indent {
                continue;
            }
            if !text::text_eq(&prev.ty, &block.ty) {
                proof {
                    assert forall|k: int| !prev_item(blocks, item, k) by {
                        if 0 <= k < j {
                            assert(!(blocks[item].indent < blocks[j as int].indent));
                        }
                    }
                }
                return number;
            }
            proof {
                assert(prev_item(blocks, item, j as int));
                lemma_counted(blocks, item, j as int);
            }
            if let Some(start) = prev.attrs.start {
                return number + start as u128;
            }
            number = number + 1;
            proof {
                item = j as int;
            }
        }
        assert forall|k: int| !prev_item(blocks, item, k) by {
            if 0 <= k < item {
                assert(blocks[item].indent < blocks[k].indent);
            }
        }
        number
    }

    /// Whether the number of a list item is one that [`Self::ordinal_at`] can
    /// give.
    pub fn ordinal_fits(&self, ix: usize) -> (fits: bool)
        requires
            ix < self@.blocks.len(),
        ensures
            fits == (ordinal(self@.blocks, ix as int) <= usize::MAX),
    {
        self.list_ordinal(ix) <= usize::MAX as u128
    }

    /// Number of a list item within its run at the same indent.
    pub fn ordinal_at(&self, ix: usize) -> (number: usize)
        requires
            ix < self@.blocks.len(),
            ordinal(self@.blocks, ix as int) <= usize::MAX,
        ensures
            number == ordinal(self@.blocks, ix as int),
    {
        self.list_ordinal(ix) as usize
    }
}

impl EditorView {
    /// Whether block `ix` is an empty paragraph.
    pub open spec fn empty_paragraph(self, ix: int) -> bool {
        &&& 0 <= ix < self.blocks.len()
        &&& self.blocks[ix].ty == crate::block::PARAGRAPH@
        &&& self.blocks[ix].text.len() == 0
    }
}

} // verus!
