//! What the interface reads of an editor and tells it, and whether an editor is
//! in order.

use vstd::prelude::*;

use crate::block::{Block, BlockId, BlockSpec};
use crate::effect::Effect;
use crate::slash::{MenuSource, SuggestionMenu};
use crate::text;
use crate::toolbar::LinkEditor;
use crate::view::{CellPosition, EditorView, NotionEditor};

verus! {

impl Block {
    /// Whether the marks cover only the text, and the caret is in it.
    pub fn is_valid(&self) -> (valid: bool)
        ensures
            valid == self@.wf(),
    {
        let len: usize = text::text_len(&self.text);
        let mut i: usize = 0;
        while i < self.marks.items.len()
            invariant
                i <= self.marks.items@.len(),
                len == crate::text::blen(self.text@),
                forall|j: int|
                    0 <= j < i ==> 0 <= (#[trigger] self@.marks[j]).start < self@.marks[j].end
                        <= len,
            decreases self.marks.items@.len() - i,
        {
            let mark = &self.marks.items[i];
            assert(self@.marks[i as int] == mark@);
            if mark.start >= mark.end || mark.end > len {
                return false;
            }
            i = i + 1;
        }
        self.input.start <= self.input.end && text::is_boundary(&self.text, self.input.cursor)
            && text::is_boundary(&self.text, self.input.start) && text::is_boundary(
            &self.text,
            self.input.end,
        )
    }
}

/// Whether every one of `ids` is in the document.
pub open spec fn all_known(blocks: Seq<crate::block::BlockView>, ids: Seq<BlockId>) -> bool {
    forall|i: int| 0 <= i < ids.len() ==> crate::view::known(blocks, #[trigger] ids[i])
}

impl EditorView {
    /// Whether every block is in order, under an id of its own that was given
    /// out.
    pub open spec fn blocks_wf(self) -> bool {
        &&& forall|i: int, j: int|
            0 <= i < j < self.blocks.len() ==> (#[trigger] self.blocks[i]).id != (
            #[trigger] self.blocks[j]).id
        &&& forall|i: int|
            0 <= i < self.blocks.len() ==> (#[trigger] self.blocks[i]).id.0 < self.next_id
                && self.blocks[i].wf()
    }

    /// Whether every grid of cells belongs to a block whose type holds one.
    pub open spec fn grids_wf(self) -> bool {
        forall|i: int|
            0 <= i < self.grids.len() ==> crate::view::holds_cells(
                self.reg,
                self.blocks,
                #[trigger] self.grids[i],
            )
    }
}

impl<S: BlockSpec> NotionEditor<S> {
    /// Whether every one of `ids` is in the document.
    fn knows_all(&self, ids: &Vec<BlockId>) -> (known: bool)
        ensures
            known == all_known(self@.blocks, ids@),
    {
        let mut i: usize = 0;
        while i < ids.len()
            invariant
                i <= ids@.len(),
                forall|j: int|
                    0 <= j < i ==> crate::view::known(self@.blocks, #[trigger] ids@[j]),
            decreases ids@.len() - i,
        {
            match self.index_of(ids[i]) {
                Some(_) => {
                    proof {
                        crate::view::lemma_find(self@.blocks, ids@[i as int]);
                    }
                },
                None => {
                    return false;
                },
            }
            i = i + 1;
        }
        true
    }

    /// Whether every block is in order, under an id of its own that was given
    /// out.
    fn blocks_are_valid(&self) -> (valid: bool)
        ensures
            valid == self@.blocks_wf(),
    {
        let mut i: usize = 0;
        while i < self.blocks.len()
            invariant
                i <= self.blocks@.len(),
                forall|j: int|
                    0 <= j < i ==> (#[trigger] self@.blocks[j]).id.0 < self@.next_id
                        && self@.blocks[j].wf() && crate::view::is_index(
                        self@.blocks,
                        self@.blocks[j].id,
                        j,
                    ),
            decreases self.blocks@.len() - i,
        {
            assert(self@.blocks[i as int] == self.blocks@[i as int]@);
            let id = self.blocks[i].id;
            if id.0 >= self.next_id || !self.blocks[i].is_valid() {
                return false;
            }
            match self.index_of(id) {
                Some(first) => {
                    if first != i {
                        assert(self@.blocks[first as int].id == self@.blocks[i as int].id);
                        return false;
                    }
                },
                None => {
                    return false;
                },
            }
            i = i + 1;
        }
        assert forall|k: int, j: int| 0 <= k < j < self@.blocks.len() implies (
        #[trigger] self@.blocks[k]).id != (#[trigger] self@.blocks[j]).id by {
            assert(crate::view::is_index(self@.blocks, self@.blocks[j].id, j));
        }
        true
    }

    /// Whether a block with this id is of a type that holds a grid of cells.
    fn block_holds_cells(&self, id: BlockId) -> (holds: bool)
        ensures
            holds == crate::view::holds_cells(self@.reg, self@.blocks, id),
    {
        let mut i: usize = 0;
        while i < self.blocks.len()
            invariant
                i <= self.blocks@.len(),
                forall|j: int|
                    0 <= j < i ==> !((#[trigger] self@.blocks[j]).id == id && self@.caps_at(
                        j,
                    ).grid),
            decreases self.blocks@.len() - i,
        {
            assert(self@.blocks[i as int] == self.blocks@[i as int]@);
            if self.blocks[i].id == id && self.caps_at(i).grid {
                return true;
            }
            i = i + 1;
        }
        false
    }

    /// Whether every grid of cells belongs to a block whose type holds one.
    fn grids_are_valid(&self) -> (valid: bool)
        ensures
            valid == self@.grids_wf(),
    {
        let mut i: usize = 0;
        while i < self.grids.len()
            invariant
                i <= self.grids@.len(),
                forall|j: int|
                    0 <= j < i ==> crate::view::holds_cells(
                        self@.reg,
                        self@.blocks,
                        #[trigger] self@.grids[j],
                    ),
            decreases self.grids@.len() - i,
        {
            if !self.block_holds_cells(self.grids[i]) {
                assert(!crate::view::holds_cells(self@.reg, self@.blocks, self@.grids[i as int]));
                return false;
            }
            i = i + 1;
        }
        true
    }

    /// Whether the editor is in order: no two blocks share an id, the marks and
    /// the caret of each lie in its text, what is focused or selected is in the
    /// document, every grid of cells belongs to a block that holds one, and no
    /// menu of the editor's own is open beside an application's.
    pub fn is_valid(&self) -> (valid: bool)
        ensures
            valid == self@.wf(),
    {
        let focus = match self.focused {
            Some(id) => self.index_of(id).is_some(),
            None => true,
        };
        let cell = match self.focused_cell {
            Some((id, _)) => self.index_of(id).is_some(),
            None => true,
        };
        proof {
            if let Some(id) = self@.focused {
                crate::view::lemma_find(self@.blocks, id);
            }
            if let Some(cell) = self@.focused_cell {
                crate::view::lemma_find(self@.blocks, cell.0);
            }
        }
        let menu = match &self.menu_source {
            MenuSource::BuiltIn => true,
            MenuSource::Application(_) => self.suggestion.is_none(),
        };
        let blocks = self.blocks_are_valid();
        let selected = self.knows_all(&self.selected);
        let grids = self.grids_are_valid();
        assert(self@.wf() ==> blocks && grids);
        assert(self@.selected == self.selected@);
        focus && cell && menu && blocks && selected && grids
    }

    /// The number that the next block gets.
    pub fn next_id(&self) -> (id: u64)
        ensures
            id == self@.next_id,
    {
        self.next_id
    }

    /// The requests to the interface that were not taken yet, oldest first.
    pub fn effects(&self) -> (effects: &Vec<Effect>)
        ensures
            crate::effect::effect_views(effects@) == self@.effects,
    {
        &self.effects
    }

    /// Take the requests to the interface, oldest first.
    pub fn take_effects(&mut self) -> (effects: Vec<Effect>)
        ensures
            crate::effect::effect_views(effects@) == old(self)@.effects,
            final(self)@ == (EditorView { effects: Seq::empty(), ..old(self)@ }),
            final(self).types() == old(self).types(),
            old(self)@.wf() ==> final(self)@.wf(),
    {
        let mut effects: Vec<Effect> = Vec::new();
        std::mem::swap(&mut effects, &mut self.effects);
        assert(self@.effects =~= Seq::empty());
        effects
    }

    /// A press started in a block, or the button came up.
    pub fn set_mouse_anchor(&mut self, anchor: Option<BlockId>)
        ensures
            final(self)@ == (EditorView { mouse_anchor: anchor, ..old(self)@ }),
            final(self).types() == old(self).types(),
            old(self)@.wf() ==> final(self)@.wf(),
    {
        self.mouse_anchor = anchor;
    }

    /// A comment is being written, or no longer.
    pub fn set_comment_draft(&mut self, writing: bool)
        ensures
            final(self)@ == (EditorView { comment_draft: writing, ..old(self)@ }),
            final(self).types() == old(self).types(),
            old(self)@.wf() ==> final(self)@.wf(),
    {
        self.comment_draft = writing;
    }

    /// A dragged block would land at an index.
    pub fn set_drop_target(&mut self, target: usize)
        ensures
            final(self)@ == (EditorView { drop_target: Some(target), ..old(self)@ }),
            final(self).types() == old(self).types(),
            old(self)@.wf() ==> final(self)@.wf(),
    {
        self.drop_target = Some(target);
    }

    /// Where a dragged block would land.
    pub fn drop_target(&self) -> (target: Option<usize>)
        ensures
            target == self@.drop_target,
    {
        self.drop_target
    }

    /// Select blocks as nodes, where all of them are in the document, and
    /// answer whether they are.
    pub fn select_blocks(&mut self, ids: Vec<BlockId>) -> (selected: bool)
        ensures
            selected == all_known(old(self)@.blocks, ids@),
            final(self)@ == (if selected {
                EditorView { selected: ids@, ..old(self)@ }
            } else {
                old(self)@
            }),
            final(self).types() == old(self).types(),
            old(self)@.wf() ==> final(self)@.wf(),
    {
        let known = self.knows_all(&ids);
        if known {
            self.selected = ids;
        }
        known
    }

    /// Blocks selected as nodes.
    pub fn selected_blocks(&self) -> (ids: &Vec<BlockId>)
        ensures
            ids@ == self@.selected,
    {
        &self.selected
    }

    /// Blocks that hold a grid of cells.
    pub fn grid_blocks(&self) -> (ids: &Vec<BlockId>)
        ensures
            ids@ == self@.grids,
    {
        &self.grids
    }

    /// The caret came into a cell of a block, if that is in the document.
    /// Answers whether it is.
    pub fn focus_cell(&mut self, id: BlockId, cell: CellPosition) -> (focused: bool)
        ensures
            focused == crate::view::known(old(self)@.blocks, id),
            final(self)@ == (if focused {
                EditorView { focused_cell: Some((id, cell)), ..old(self)@ }
            } else {
                old(self)@
            }),
            final(self).types() == old(self).types(),
            old(self)@.wf() ==> final(self)@.wf(),
    {
        proof {
            crate::view::lemma_find(self@.blocks, id);
        }
        let known = self.index_of(id).is_some();
        if known {
            self.focused_cell = Some((id, cell));
        }
        known
    }

    /// Which cell has the caret, when one does.
    pub fn focused_cell(&self) -> (cell: Option<(BlockId, CellPosition)>)
        ensures
            cell == self@.focused_cell,
    {
        self.focused_cell
    }

    /// The editor's own menu, where it is open.
    pub fn suggestion(&self) -> (menu: Option<&SuggestionMenu>)
        ensures
            match menu {
                Some(menu) => self@.suggestion == Some(menu@),
                None => self@.suggestion is None,
            },
    {
        match &self.suggestion {
            Some(menu) => Some(menu),
            None => None,
        }
    }

    /// What the link editor was opened from, where it is open.
    pub fn link_editor(&self) -> (editor: Option<LinkEditor>)
        ensures
            editor == self@.link_editor,
    {
        self.link_editor
    }

    /// Whether the link editor's range lies in the text of its block, as it
    /// does until that text gets shorter.
    pub fn link_fits(&self) -> (fits: bool)
        ensures
            fits == self@.link_fits(),
    {
        match self.link_editor {
            Some(editor) => match self.index_of(editor.block) {
                Some(ix) => {
                    assert(self@.blocks[ix as int] == self.blocks@[ix as int]@);
                    editor.end <= text::text_len(&self.blocks[ix].text)
                },
                None => true,
            },
            None => true,
        }
    }
}

} // verus!
