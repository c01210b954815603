//! What is drawn of a document: which blocks, how far apart, and what each is
//! told about itself.

use vstd::prelude::*;

use crate::block::{BlockId, BlockSpec};
use crate::text;
use crate::view::{EditorView, NotionEditor};

verus! {

/// Space above a block.
#[derive(Clone, Copy, Debug, PartialEq, Eq, Structural)]
pub enum MarginTop {
    /// None, above the first block.
    Flush,
    /// Little, between blocks that stand close together.
    Tight,
    /// What the block's type asks for.
    Full,
}

/// Space above block `ix`, as the contracts see it.
pub open spec fn margin_above(
    reg: crate::block::RegistryView,
    blocks: Seq<crate::block::BlockView>,
    ix: int,
) -> MarginTop {
    if ix == 0 {
        MarginTop::Flush
    } else if (reg.collapse)(blocks[ix].ty, blocks[ix].attrs) && blocks[ix - 1].ty
        == blocks[ix].ty {
        MarginTop::Tight
    } else {
        MarginTop::Full
    }
}

/// The blocks among the first `n` that are shown, in order.
pub open spec fn shown(blocks: Seq<crate::block::BlockView>, n: int) -> Seq<int>
    decreases n,
{
    if n <= 0 {
        Seq::empty()
    } else if crate::view::visible(blocks, n - 1) {
        shown(blocks, n - 1).push(n - 1)
    } else {
        shown(blocks, n - 1)
    }
}

/// What a block is told about its place in the document when it is drawn.
#[derive(Clone, Copy, Debug, PartialEq, Eq, Structural)]
pub struct BlockContext {
    pub id: BlockId,
    pub ix: usize,
    /// Whether it holds a grid of cells.
    pub grid: bool,
    /// Whether its gutter controls show without the pointer.
    pub reveal_controls: bool,
    pub indent: usize,
    pub focused: bool,
    pub selected: bool,
    /// Its number, in a numbered list.
    pub ordinal: usize,
}

/// The offsets of a list of integers.
pub open spec fn int_views(indexes: Seq<usize>) -> Seq<int> {
    indexes.map_values(|ix: usize| ix as int)
}

/// Whether `id` is that of a block that is shown.
pub open spec fn in_sight(blocks: Seq<crate::block::BlockView>, id: BlockId) -> bool {
    crate::view::find(blocks, id) matches Some(ix) && crate::view::visible(blocks, ix)
}

/// Those of `ids` that are of blocks that are shown.
pub open spec fn all_in_sight(
    blocks: Seq<crate::block::BlockView>,
    ids: Seq<BlockId>,
) -> Seq<BlockId>
    decreases ids.len(),
{
    if ids.len() == 0 {
        Seq::empty()
    } else if in_sight(blocks, ids.last()) {
        all_in_sight(blocks, ids.drop_last()).push(ids.last())
    } else {
        all_in_sight(blocks, ids.drop_last())
    }
}

impl EditorView {
    /// The editor with the place of block `id` known.
    pub open spec fn on_block_placed(self, id: BlockId) -> EditorView {
        if self.placed.contains(id) {
            self
        } else {
            EditorView { placed: self.placed.push(id), ..self }
        }
    }

    /// The editor at the start of a frame: the block that has the keyboard is
    /// adopted, and the places of blocks out of sight are forgotten.
    pub open spec fn begin_frame(self, keyboard: Seq<bool>) -> EditorView {
        let held = self.refresh_focus(keyboard);
        EditorView { placed: all_in_sight(held.blocks, held.placed), ..held }
    }
}

fn holds(ids: &Vec<BlockId>, id: BlockId) -> (found: bool)
    ensures
        found == ids@.contains(id),
{
    let mut i: usize = 0;
    while i < ids.len()
        invariant
            i <= ids@.len(),
            forall|j: int| 0 <= j < i ==> ids@[j] != id,
        decreases ids@.len() - i,
    {
        if ids[i] == id {
            assert(ids@[i as int] == id);
            return true;
        }
        i = i + 1;
    }
    false
}

impl<S: BlockSpec> NotionEditor<S> {
    /// The blocks that are drawn, in order: those that no collapsed toggle
    /// encloses.
    pub fn visible_blocks(&self) -> (indexes: Vec<usize>)
        ensures
            int_views(indexes@) == shown(self@.blocks, self@.blocks.len() as int),
    {
        let mut indexes: Vec<usize> = Vec::new();
        let mut ix: usize = 0;
        assert(int_views(indexes@) =~= Seq::empty());
        while ix < self.blocks.len()
            invariant
                ix <= self.blocks@.len(),
                int_views(indexes@) == shown(self@.blocks, ix as int),
            decreases self.blocks@.len() - ix,
        {
            let ghost done = indexes@;
            if self.is_visible(ix) {
                indexes.push(ix);
                assert(int_views(indexes@) =~= int_views(done).push(ix as int));
            }
            ix = ix + 1;
        }
        indexes
    }

    /// Space above block `ix`. The text wrapper cancels the input's inset on
    /// both sides, so a block occupies exactly its text and there is nothing
    /// to trim back.
    pub fn margin_top(&self, ix: usize) -> (margin: MarginTop)
        requires
            ix < self@.blocks.len(),
        ensures
            margin == margin_above(self@.reg, self@.blocks, ix as int),
    {
        if ix == 0 {
            return MarginTop::Flush;
        }
        assert(self@.blocks[ix as int] == self.blocks@[ix as int]@);
        assert(self@.blocks[ix - 1] == self.blocks@[ix - 1]@);
        let block = &self.blocks[ix];
        let close = self.registry.get(&block.ty).collapse_with_siblings(&block.attrs);
        if close && text::text_eq(&self.blocks[ix - 1].ty, &block.ty) {
            MarginTop::Tight
        } else {
            MarginTop::Full
        }
    }

    /// What block `ix` is told about its place when it is drawn.
    pub fn block_context(&self, ix: usize) -> (context: BlockContext)
        requires
            ix < self@.blocks.len(),
            crate::view::ordinal(self@.blocks, ix as int) <= usize::MAX,
        ensures
            ({
                let block = self@.blocks[ix as int];
                &&& context.id == block.id
                &&& context.ix == ix
                &&& context.grid == self@.grids.contains(block.id)
                &&& context.reveal_controls == self@.always_show_gutter
                &&& context.indent == block.indent
                &&& context.focused == (self@.focused == Some(block.id))
                &&& context.selected == self@.selected.contains(block.id)
                &&& context.ordinal == crate::view::ordinal(self@.blocks, ix as int)
            }),
    {
        assert(self@.blocks[ix as int] == self.blocks@[ix as int]@);
        let block = &self.blocks[ix];
        BlockContext {
            id: block.id,
            ix,
            grid: holds(&self.grids, block.id),
            reveal_controls: self.always_show_gutter,
            indent: block.indent,
            focused: self.focused == Some(block.id),
            selected: holds(&self.selected, block.id),
            ordinal: self.ordinal_at(ix),
        }
    }
}

/// One row of the document on screen.
#[derive(Clone, Copy, Debug, PartialEq, Eq, Structural)]
pub struct BlockRow {
    pub context: BlockContext,
    pub margin: MarginTop,
}

/// Whether a row is that of block `ix`.
pub open spec fn is_row(e: EditorView, ix: int, row: BlockRow) -> bool {
    let block = e.blocks[ix];
    &&& row.context.id == block.id
    &&& row.context.ix == ix
    &&& row.context.grid == e.grids.contains(block.id)
    &&& row.context.reveal_controls == e.always_show_gutter
    &&& row.context.indent == block.indent
    &&& row.context.focused == (e.focused == Some(block.id))
    &&& row.context.selected == e.selected.contains(block.id)
    &&& row.context.ordinal == crate::view::ordinal(e.blocks, ix)
    &&& row.margin == margin_above(e.reg, e.blocks, ix)
}

/// Whether `rows` are those of the blocks that are shown, in order.
pub open spec fn are_rows(e: EditorView, rows: Seq<BlockRow>) -> bool {
    let indexes = shown(e.blocks, e.blocks.len() as int);
    &&& rows.len() == indexes.len()
    &&& forall|k: int| 0 <= k < rows.len() ==> is_row(e, indexes[k], #[trigger] rows[k])
}

proof fn lemma_shown(blocks: Seq<crate::block::BlockView>, n: int)
    requires
        0 <= n,
    ensures
        forall|k: int|
            0 <= k < shown(blocks, n).len() ==> 0 <= #[trigger] shown(blocks, n)[k] < n
                && crate::view::visible(blocks, shown(blocks, n)[k]),
        forall|k: int, l: int|
            0 <= k < l < shown(blocks, n).len() ==> (#[trigger] shown(blocks, n)[k])
                < #[trigger] shown(blocks, n)[l],
        forall|ix: int|
            0 <= ix < n && crate::view::visible(blocks, ix) ==> #[trigger] shown(
                blocks,
                n,
            ).contains(ix),
    decreases n,
{
    if n > 0 {
        lemma_shown(blocks, n - 1);
        let rest = shown(blocks, n - 1);
        let all = shown(blocks, n);
        assert forall|ix: int| 0 <= ix < n && crate::view::visible(
            blocks,
            ix,
        ) implies #[trigger] all.contains(ix) by {
            if ix < n - 1 {
                assert(rest.contains(ix));
                let k = choose|k: int| 0 <= k < rest.len() && rest[k] == ix;
                assert(all[k] == ix);
            } else {
                assert(all[all.len() - 1] == ix);
            }
        }
    }
}

/// The rows are those of the visible blocks, each once, from the top down.
pub proof fn law_shown(blocks: Seq<crate::block::BlockView>, ix: int)
    requires
        0 <= ix < blocks.len(),
    ensures
        ({
            let rows = shown(blocks, blocks.len() as int);
            &&& rows.contains(ix) <==> crate::view::visible(blocks, ix)
            &&& forall|k: int, l: int|
                0 <= k < l < rows.len() ==> (#[trigger] rows[k]) < #[trigger] rows[l]
        }),
{
    lemma_shown(blocks, blocks.len() as int);
    let rows = shown(blocks, blocks.len() as int);
    if rows.contains(ix) {
        let k = choose|k: int| 0 <= k < rows.len() && rows[k] == ix;
        assert(crate::view::visible(blocks, rows[k]));
    }
}

impl<S: BlockSpec> NotionEditor<S> {
    /// The row of block `ix`.
    pub fn block_row(&self, ix: usize) -> (row: BlockRow)
        requires
            ix < self@.blocks.len(),
            crate::view::ordinal(self@.blocks, ix as int) <= usize::MAX,
        ensures
            is_row(self@, ix as int, row),
    {
        BlockRow { context: self.block_context(ix), margin: self.margin_top(ix) }
    }

    /// A block came to stand somewhere on screen.
    pub fn on_block_placed(&mut self, id: BlockId)
        ensures
            final(self)@ == old(self)@.on_block_placed(id),
            final(self).types() == old(self).types(),
            old(self)@.wf() ==> final(self)@.wf(),
    {
        if !holds(&self.placed, id) {
            self.placed.push(id);
        }
    }

    /// Whether a block's place on screen is known.
    pub fn is_placed(&self, id: BlockId) -> (placed: bool)
        ensures
            placed == self@.placed.contains(id),
    {
        holds(&self.placed, id)
    }

    /// Forget the places of blocks that are hidden or gone: they cannot anchor
    /// an overlay.
    fn forget_places(&mut self)
        ensures
            final(self)@ == (EditorView {
                placed: all_in_sight(old(self)@.blocks, old(self)@.placed),
                ..old(self)@
            }),
            final(self).types() == old(self).types(),
            old(self)@.wf() ==> final(self)@.wf(),
    {
        let mut kept: Vec<BlockId> = Vec::new();
        let mut i: usize = 0;
        let ghost ids = self.placed@;
        assert(ids.take(0) =~= Seq::empty());
        while i < self.placed.len()
            invariant
                i <= ids.len(),
                ids == self.placed@,
                *self == *old(self),
                kept@ == all_in_sight(self@.blocks, ids.take(i as int)),
            decreases ids.len() - i,
        {
            let id = self.placed[i];
            assert(ids.take(i + 1).drop_last() =~= ids.take(i as int));
            assert(ids.take(i + 1).last() == id);
            let shown = match self.index_of(id) {
                Some(ix) => self.is_visible(ix),
                None => false,
            };
            if shown {
                kept.push(id);
            }
            i = i + 1;
        }
        assert(ids.take(i as int) =~= ids);
        self.placed = kept;
    }

    /// Begin a frame: adopt the block that has the keyboard, forget where
    /// blocks out of sight were, and lay out the rows of the blocks that are
    /// shown. Answers whether a block holds the caret. There are no rows where
    /// a list item that is shown has a number too large to show.
    pub fn begin_frame(&mut self, keyboard: &Vec<bool>) -> (frame: (bool, Option<Vec<BlockRow>>))
        requires
            keyboard@.len() == old(self)@.blocks.len(),
        ensures
            final(self)@ == old(self)@.begin_frame(keyboard@),
            final(self).types() == old(self).types(),
            frame.0 == (old(self)@.keyboard_block(keyboard@) is Some),
            match frame.1 {
                Some(rows) => are_rows(final(self)@, rows@),
                None => exists|ix: int|
                    0 <= ix < old(self)@.blocks.len() && crate::view::visible(
                        old(self)@.blocks,
                        ix,
                    ) && #[trigger] crate::view::ordinal(old(self)@.blocks, ix) > usize::MAX,
            },
            old(self)@.wf() ==> final(self)@.wf(),
    {
        let held = self.refresh_focus(keyboard);
        self.forget_places();
        assert(self@.blocks == old(self)@.blocks);
        let indexes = self.visible_blocks();
        let ghost all = shown(self@.blocks, self@.blocks.len() as int);
        proof {
            lemma_shown(self@.blocks, self@.blocks.len() as int);
        }
        let mut rows: Vec<BlockRow> = Vec::new();
        let mut k: usize = 0;
        while k < indexes.len()
            invariant
                all == shown(self@.blocks, self@.blocks.len() as int),
                int_views(indexes@) == all,
                forall|i: int|
                    0 <= i < all.len() ==> 0 <= #[trigger] all[i] < self@.blocks.len()
                        && crate::view::visible(self@.blocks, all[i]),
                self@.blocks == old(self)@.blocks,
                self@ == old(self)@.begin_frame(keyboard@),
                self.registry == old(self).registry,
                held == (old(self)@.keyboard_block(keyboard@) is Some),
                old(self)@.wf() ==> self@.wf(),
                k <= indexes@.len(),
                rows@.len() == k,
                forall|i: int| 0 <= i < k ==> is_row(self@, all[i], #[trigger] rows@[i]),
            decreases indexes@.len() - k,
        {
            let ix: usize = indexes[k];
            assert(all[k as int] == ix);
            if !self.ordinal_fits(ix) {
                return (held, None);
            }
            rows.push(self.block_row(ix));
            k = k + 1;
        }
        (held, Some(rows))
    }
}

proof fn lemma_all_in_sight(
    blocks: Seq<crate::block::BlockView>,
    ids: Seq<BlockId>,
    id: BlockId,
)
    ensures
        all_in_sight(blocks, ids).contains(id) <==> ids.contains(id) && in_sight(blocks, id),
    decreases ids.len(),
{
    if ids.len() > 0 {
        let rest = ids.drop_last();
        let kept = all_in_sight(blocks, rest);
        let all = all_in_sight(blocks, ids);
        lemma_all_in_sight(blocks, rest, id);
        assert(ids =~= rest.push(ids.last()));
        if kept.contains(id) {
            let i = choose|i: int| 0 <= i < kept.len() && kept[i] == id;
            assert(all[i] == id);
        }
        if rest.contains(id) {
            let i = choose|i: int| 0 <= i < rest.len() && rest[i] == id;
            assert(ids[i] == id);
        }
        if ids.last() == id {
            assert(ids[ids.len() - 1] == id);
            if in_sight(blocks, id) {
                assert(all[all.len() - 1] == id);
            }
        }
        if all.contains(id) {
            let i = choose|i: int| 0 <= i < all.len() && all[i] == id;
            if i < kept.len() {
                assert(kept[i] == id);
            }
        }
    }
}

/// A frame changes no block. Its rows are those of the visible blocks, each
/// once, from the top down, and of the places that were known, those of blocks
/// among them stay.
pub proof fn law_frame(e: EditorView, keyboard: Seq<bool>, rows: Seq<BlockRow>)
    requires
        e.wf(),
        are_rows(e.begin_frame(keyboard), rows),
    ensures
        ({
            let n = e.begin_frame(keyboard);
            &&& n.blocks == e.blocks
            &&& forall|k: int|
                0 <= k < rows.len() ==> (#[trigger] rows[k]).context.ix < e.blocks.len()
                    && rows[k].context.id == e.blocks[rows[k].context.ix as int].id
                    && crate::view::visible(e.blocks, rows[k].context.ix as int)
            &&& forall|k: int, l: int|
                0 <= k < l < rows.len() ==> (#[trigger] rows[k]).context.ix < (
                #[trigger] rows[l]).context.ix
            &&& forall|ix: int|
                0 <= ix < e.blocks.len() && #[trigger] crate::view::visible(e.blocks, ix)
                    ==> exists|k: int| 0 <= k < rows.len() && (#[trigger] rows[k]).context.ix == ix
            &&& forall|id: BlockId| #[trigger]
                n.placed.contains(id) <==> e.placed.contains(id) && exists|k: int|
                    0 <= k < rows.len() && (#[trigger] rows[k]).context.id == id
        }),
{
    let n = e.begin_frame(keyboard);
    let all = shown(e.blocks, e.blocks.len() as int);
    lemma_shown(e.blocks, e.blocks.len() as int);
    assert forall|k: int| 0 <= k < rows.len() implies (#[trigger] rows[k]).context.ix == all[k] by {
        assert(is_row(n, all[k], rows[k]));
    }
    assert forall|ix: int|
        0 <= ix < e.blocks.len() && #[trigger] crate::view::visible(e.blocks, ix) implies exists|
        k: int,
    |
        0 <= k < rows.len() && (#[trigger] rows[k]).context.ix == ix by {
        assert(all.contains(ix));
        let k = choose|k: int| 0 <= k < all.len() && all[k] == ix;
        assert(rows[k].context.ix == ix);
    }
    assert forall|k: int| 0 <= k < rows.len() implies (#[trigger] rows[k]).context.id
        == e.blocks[rows[k].context.ix as int].id by {
        assert(is_row(n, all[k], rows[k]));
    }
    assert forall|id: BlockId| #[trigger]
        n.placed.contains(id) <==> e.placed.contains(id) && exists|k: int|
            0 <= k < rows.len() && (#[trigger] rows[k]).context.id == id by {
        lemma_all_in_sight(e.blocks, e.placed, id);
        crate::view::lemma_find(e.blocks, id);
        if n.placed.contains(id) {
            let ix = crate::view::find(e.blocks, id)->0;
            assert(all.contains(ix));
            let k = choose|k: int| 0 <= k < all.len() && all[k] == ix;
            assert(rows[k].context.ix == ix);
        }
        if exists|k: int| 0 <= k < rows.len() && (#[trigger] rows[k]).context.id == id {
            let k = choose|k: int| 0 <= k < rows.len() && (#[trigger] rows[k]).context.id == id;
            assert(crate::view::is_index(e.blocks, id, rows[k].context.ix as int));
        }
    }
}

} // verus!
