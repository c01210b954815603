//! Editing the text of blocks, and keeping what depends on it in step: marks,
//! decorations, row counts and the inputs of the interface.

use vstd::prelude::*;

use crate::block::{BlockContent, BlockId, BlockSpec, Selection};
use crate::effect::Effect;
use crate::mark::{diff_edit, inclusive_kinds, MarkKind, Marks, TextEdit};
use crate::text;
use crate::view::{Caret, DocumentChanged, EditorView, NotionEditor, SelectionChanged};

verus! {

/// The edit that replaces the bytes `a..b` by `r`.
pub open spec fn replacement(a: int, b: int, r: Seq<char>) -> TextEdit {
    TextEdit { start: a as usize, end: b as usize, new_len: crate::text::blen(r) as usize }
}

/// A block with the bytes `a..b` of its text replaced and its caret behind
/// what replaced them. Marks move with the text.
pub open spec fn edited_block(
    block: crate::block::BlockView,
    a: int,
    b: int,
    r: Seq<char>,
) -> crate::block::BlockView {
    crate::block::BlockView {
        text: crate::text::splice(block.text, a, b, r),
        marks: crate::mark::remap_marks(block.marks, replacement(a, b, r)),
        input: Selection::at(a + crate::text::blen(r)),
        ..block
    }
}

/// A block with another text and its caret moved. Marks are cut to the text.
pub open spec fn rewritten_block(
    block: crate::block::BlockView,
    text: Seq<char>,
    caret: int,
) -> crate::block::BlockView {
    crate::block::BlockView {
        text,
        marks: crate::mark::clamp_marks(block.marks, crate::text::blen(text)),
        input: Selection::at(caret),
        ..block
    }
}

impl EditorView {
    /// The editor with block `ix` replaced by one of another text, and its
    /// input told.
    pub open spec fn retext(self, ix: int, block: crate::block::BlockView) -> EditorView {
        self.with_block(ix, block).emit(
            crate::effect::EffectView::SetText {
                block: block.id,
                text: block.text,
                caret: block.input.cursor as int,
            },
        ).emit(crate::effect::EffectView::Remeasure(block.id)).emit(
            crate::view::decorate(self.reg, block),
        ).emit(crate::effect::EffectView::Document)
    }

    /// The editor with the bytes `a..b` of block `ix` replaced by `r`.
    pub open spec fn edit_block_text(self, ix: int, a: int, b: int, r: Seq<char>) -> EditorView {
        self.retext(ix, edited_block(self.blocks[ix], a, b, r))
    }

    /// The editor with `text` for the text of block `ix`.
    pub open spec fn set_block_text(self, ix: int, text: Seq<char>, caret: int) -> EditorView {
        self.retext(ix, rewritten_block(self.blocks[ix], text, caret))
    }

    /// The empty paragraph after block `ix`, if there is one.
    pub open spec fn paragraph_after(self, ix: int) -> BlockId {
        if self.empty_paragraph(ix + 1) {
            self.blocks[ix + 1].id
        } else {
            BlockId(self.next_id as u64)
        }
    }

    /// The editor with an empty paragraph after block `ix`, put in where there
    /// is none.
    pub open spec fn ensure_paragraph_after(self, ix: int) -> EditorView {
        if self.empty_paragraph(ix + 1) {
            self
        } else {
            self.insert_block(
                ix + 1,
                crate::block::plain_content(crate::block::PARAGRAPH@, ""@),
            )
        }
    }

    /// The editor with block `id` painted again.
    pub open spec fn apply_decorations(self, id: BlockId) -> EditorView {
        match crate::view::find(self.blocks, id) {
            Some(ix) => self.emit(crate::view::decorate(self.reg, self.blocks[ix])),
            None => self,
        }
    }

    /// The editor with every block painted again.
    pub open spec fn reapply_decorations(self) -> EditorView {
        EditorView {
            effects: self.effects + Seq::new(
                self.blocks.len(),
                |i: int| crate::view::decorate(self.reg, self.blocks[i]),
            ),
            ..self
        }.emit(crate::effect::EffectView::Notify)
    }

    /// The editor with every block asked to count its rows again.
    pub open spec fn remeasure_all(self) -> EditorView {
        EditorView {
            effects: self.effects + Seq::new(
                self.blocks.len(),
                |i: int| crate::effect::EffectView::Remeasure(self.blocks[i].id),
            ),
            ..self
        }
    }
}

/// An edit between characters of a block leaves it in order.
pub proof fn lemma_edited_wf(block: crate::block::BlockView, a: int, b: int, r: Seq<char>)
    requires
        block.wf(),
        crate::text::boundary(block.text, a),
        crate::text::boundary(block.text, b),
        a <= b,
        crate::text::blen(crate::text::splice(block.text, a, b, r)) <= usize::MAX,
    ensures
        edited_block(block, a, b, r).wf(),
        0 <= a <= b <= crate::text::blen(block.text),
        0 <= crate::text::blen(r),
        a + crate::text::blen(r) <= crate::text::blen(edited_block(block, a, b, r).text),
{
    crate::text::lemma_splice(block.text, a, b, r);
    crate::text::lemma_split(block.text, a);
    crate::text::lemma_split(block.text, b);
    crate::text::lemma_ends(r);
    crate::text::lemma_split(
        crate::text::splice(block.text, a, b, r),
        a + crate::text::blen(r),
    );
    crate::mark::lemma_remap_in_range(
        block.marks,
        replacement(a, b, r),
        crate::text::blen(block.text),
    );
}

/// A new text with the caret between its characters leaves a block in order.
pub proof fn lemma_rewritten_wf(block: crate::block::BlockView, text: Seq<char>, caret: int)
    requires
        block.wf(),
        crate::text::boundary(text, caret),
        crate::text::blen(text) <= usize::MAX,
    ensures
        rewritten_block(block, text, caret).wf(),
        0 <= caret <= usize::MAX,
{
    crate::text::lemma_split(text, caret);
    crate::mark::lemma_clamp_in_range(block.marks, crate::text::blen(text));
}

impl<S: BlockSpec> NotionEditor<S> {
    /// Tell the input of block `ix` its text and caret, and bring what depends
    /// on the text up to date.
    fn push_text(&mut self, ix: usize)
        requires
            ix < old(self)@.blocks.len(),
        ensures
            final(self)@ == old(self)@.retext(ix as int, old(self)@.blocks[ix as int]),
            final(self).types() == old(self).types(),
            old(self)@.wf() ==> final(self)@.wf(),
    {
        assert(self@.blocks[ix as int] == self.blocks@[ix as int]@);
        assert(self@.with_block(ix as int, self@.blocks[ix as int]) =~= self@);
        let id = self.blocks[ix].id;
        let text = self.blocks[ix].text.clone();
        let caret: usize = self.blocks[ix].input.cursor;
        self.emit(Effect::SetText { block: id, text, caret });
        self.emit(Effect::Remeasure(id));
        let runs = self.decorations(ix);
        self.emit(Effect::Decorate { block: id, runs });
        self.emit(Effect::Document(DocumentChanged));
    }

    /// Replace the bytes `a..b` of block `ix` by `r`, put the caret behind it
    /// and return its offset. Marks move with the text.
    pub fn edit_block_text(&mut self, ix: usize, a: usize, b: usize, r: &str) -> (caret: usize)
        requires
            old(self)@.wf(),
            ix < old(self)@.blocks.len(),
            a <= b,
            crate::text::boundary(old(self)@.blocks[ix as int].text, a as int),
            crate::text::boundary(old(self)@.blocks[ix as int].text, b as int),
        ensures
            final(self)@ == old(self)@.edit_block_text(ix as int, a as int, b as int, r@),
            final(self).types() == old(self).types(),
            final(self)@.wf(),
            caret == a + crate::text::blen(r@),
            caret <= crate::text::blen(final(self)@.blocks[ix as int].text),
    {
        let ghost start = self@;
        let ghost was = self.blocks@;
        let ghost old_block = start.blocks[ix as int];
        assert(old_block == was[ix as int]@);
        let len: usize = text::text_len(&self.blocks[ix].text);
        let new_len: usize = text::text_len(r);
        let spliced = text::text_splice(&self.blocks[ix].text, a, b, r);
        text::fits_memory(&spliced);
        proof {
            lemma_edited_wf(old_block, a as int, b as int, r@);
            crate::text::lemma_splice(old_block.text, a as int, b as int, r@);
        }
        let caret: usize = a + new_len;
        let edit = TextEdit { start: a, end: b, new_len };
        let block = &mut self.blocks[ix];
        block.text = spliced;
        block.marks.remap(&edit, len);
        block.input = Selection::caret(caret);
        assert(crate::view::block_views(self.blocks@) =~= crate::view::block_views(was).update(
            ix as int,
            self.blocks@[ix as int]@,
        ));
        proof {
            crate::view::lemma_with_block_wf(start, ix as int, self@.blocks[ix as int]);
        }
        assert(self@ =~= start.with_block(ix as int, self@.blocks[ix as int]));
        assert(self@.blocks[ix as int] == edited_block(old_block, a as int, b as int, r@));
        self.push_text(ix);
        caret
    }

    /// Give block `ix` another text and put the caret at `caret`.
    pub fn set_block_text(&mut self, ix: usize, new_text: String, caret: usize)
        requires
            old(self)@.wf(),
            ix < old(self)@.blocks.len(),
            crate::text::boundary(new_text@, caret as int),
        ensures
            final(self)@ == old(self)@.set_block_text(ix as int, new_text@, caret as int),
            final(self).types() == old(self).types(),
            final(self)@.wf(),
    {
        let ghost start = self@;
        let ghost was = self.blocks@;
        let ghost old_block = start.blocks[ix as int];
        assert(old_block == was[ix as int]@);
        let len: usize = text::text_len(&new_text);
        proof {
            lemma_rewritten_wf(old_block, new_text@, caret as int);
        }
        let block = &mut self.blocks[ix];
        block.text = new_text;
        block.marks.clamp(len);
        block.input = Selection::caret(caret);
        assert(crate::view::block_views(self.blocks@) =~= crate::view::block_views(was).update(
            ix as int,
            self.blocks@[ix as int]@,
        ));
        proof {
            crate::view::lemma_with_block_wf(start, ix as int, self@.blocks[ix as int]);
        }
        assert(self@ =~= start.with_block(ix as int, self@.blocks[ix as int]));
        self.push_text(ix);
    }

    /// See to it that an empty paragraph follows block `ix`, and return it.
    pub fn ensure_paragraph_after(&mut self, ix: usize) -> (id: BlockId)
        requires
            ix < old(self)@.blocks.len(),
            old(self)@.next_id < u64::MAX,
        ensures
            final(self)@ == old(self)@.ensure_paragraph_after(ix as int),
            final(self).types() == old(self).types(),
            id == old(self)@.paragraph_after(ix as int),
            old(self)@.wf() ==> final(self)@.wf(),
    {
        assert(ix < self.blocks.len());
        let after: usize = ix + 1;
        if self.block_is_empty_paragraph(after) {
            assert(self@.blocks[after as int] == self.blocks@[after as int]@);
            return self.blocks[after].id;
        }
        self.insert_block(after, BlockContent::paragraph(""))
    }

    /// Push a block's marks into its input's decoration layer.
    pub fn apply_decorations(&mut self, id: BlockId)
        ensures
            final(self)@ == old(self)@.apply_decorations(id),
            final(self).types() == old(self).types(),
            final(self).block_list() == old(self).block_list(),
    {
        let ix: usize = match self.index_of(id) {
            Some(ix) => ix,
            None => {
                return;
            },
        };
        let runs = self.decorations(ix);
        self.emit(Effect::Decorate { block: id, runs });
    }

    /// Repaint every block's marks, after something the colors are read from
    /// has changed.
    pub fn reapply_decorations(&mut self)
        ensures
            final(self)@ == old(self)@.reapply_decorations(),
            final(self).types() == old(self).types(),
    {
        let ghost start = self@;
        let ghost paint = |i: int| crate::view::decorate(start.reg, start.blocks[i]);
        let mut ix: usize = 0;
        assert(self@.effects =~= start.effects + Seq::new(0, paint));
        while ix < self.blocks.len()
            invariant
                ix <= self.blocks@.len(),
                self.registry == old(self).registry,
                self.block_list() == old(self).block_list(),
                start == old(self)@,
                paint == (|i: int| crate::view::decorate(start.reg, start.blocks[i])),
                self@ == (EditorView {
                    effects: start.effects + Seq::new(ix as nat, paint),
                    ..start
                }),
            decreases self.blocks@.len() - ix,
        {
            assert(start.blocks[ix as int] == self.blocks@[ix as int]@);
            let id = self.blocks[ix].id;
            let runs = self.decorations(ix);
            self.emit(Effect::Decorate { block: id, runs });
            assert(self@.effects =~= start.effects + Seq::new((ix + 1) as nat, paint));
            ix = ix + 1;
        }
        self.emit(Effect::Notify);
    }

    /// Count again the wrapped rows of every block, after the width they wrap
    /// at has changed.
    pub fn remeasure_all(&mut self)
        ensures
            final(self)@ == old(self)@.remeasure_all(),
            final(self).types() == old(self).types(),
    {
        let ghost start = self@;
        let ghost ask = |i: int| crate::effect::EffectView::Remeasure(start.blocks[i].id);
        let mut ix: usize = 0;
        assert(self@.effects =~= start.effects + Seq::new(0, ask));
        while ix < self.blocks.len()
            invariant
                ix <= self.blocks@.len(),
                self.registry == old(self).registry,
                self.block_list() == old(self).block_list(),
                start == old(self)@,
                ask == (|i: int| crate::effect::EffectView::Remeasure(start.blocks[i].id)),
                self@ == (EditorView {
                    effects: start.effects + Seq::new(ix as nat, ask),
                    ..start
                }),
            decreases self.blocks@.len() - ix,
        {
            assert(start.blocks[ix as int] == self.blocks@[ix as int]@);
            let id = self.blocks[ix].id;
            self.emit(Effect::Remeasure(id));
            assert(self@.effects =~= start.effects + Seq::new((ix + 1) as nat, ask));
            ix = ix + 1;
        }
    }
}

/// Rows that lines of text take, `wraps[i]` being how often line `i` breaks.
/// An empty line takes a row.
pub open spec fn row_count(lines: Seq<Seq<char>>, wraps: Seq<usize>) -> int
    decreases lines.len(),
{
    if lines.len() == 0 {
        0
    } else {
        row_count(lines.drop_last(), wraps) + 1 + (if lines.last().len() == 0 {
            0
        } else {
            wraps[lines.len() - 1] as int
        })
    }
}

/// Rows that a text takes: one, where there is no width to wrap it at.
pub open spec fn text_rows(text: Seq<char>, wraps: Option<Seq<usize>>) -> int {
    match wraps {
        Some(wraps) => row_count(crate::text::lines(text), wraps),
        None => 1,
    }
}

/// How often each line breaks, as the contracts see it.
pub open spec fn opt_wraps(wraps: Option<Vec<usize>>) -> Option<Seq<usize>> {
    match wraps {
        Some(wraps) => Some(wraps@),
        None => None,
    }
}

proof fn lemma_row_count(lines: Seq<Seq<char>>, wraps: Seq<usize>, n: int)
    requires
        0 <= n <= lines.len(),
    ensures
        n <= row_count(lines.take(n), wraps) <= row_count(lines, wraps),
    decreases lines.len(),
{
    if n < lines.len() {
        lemma_row_count(lines.drop_last(), wraps, n);
        assert(lines.drop_last().take(n) =~= lines.take(n));
    } else {
        assert(lines.take(n) =~= lines);
        if n > 0 {
            lemma_row_count(lines.drop_last(), wraps, n - 1);
            assert(lines.drop_last().take(n - 1) =~= lines.drop_last());
        }
    }
}

/// Rows the text wraps into. `wraps` says of each line how often it breaks at
/// the width of the column; it is absent where there is no such width.
pub fn measure_rows(content: &str, wraps: &Option<Vec<usize>>) -> (rows: usize)
    requires
        wraps matches Some(wraps) ==> wraps@.len() == crate::text::lines(content@).len(),
        text_rows(content@, opt_wraps(*wraps)) <= usize::MAX,
    ensures
        rows == text_rows(content@, opt_wraps(*wraps)),
        rows >= 1,
{
    let wraps = match wraps {
        Some(wraps) => wraps,
        None => {
            return 1;
        },
    };
    let lines = text::text_lines(content);
    let ghost views = crate::text::lines(content@);
    let mut rows: usize = 0;
    let mut i: usize = 0;
    assert(views.len() == lines@.len());
    assert(views.take(0) =~= Seq::empty());
    while i < lines.len()
        invariant
            views == lines@.map_values(|line: String| line@),
            i <= lines@.len(),
            views.len() == lines@.len(),
            wraps@.len() == views.len(),
            rows == row_count(views.take(i as int), wraps@),
            row_count(views, wraps@) <= usize::MAX,
        decreases lines@.len() - i,
    {
        proof {
            lemma_row_count(views, wraps@, i + 1);
            assert(views.take(i + 1).drop_last() =~= views.take(i as int));
            assert(views.take(i + 1).last() == lines@[i as int]@);
        }
        if lines[i].as_str().is_empty() {
            rows = rows + 1;
        } else {
            rows = rows + 1 + wraps[i];
        }
        i = i + 1;
    }
    proof {
        assert(views.take(i as int) =~= views);
        crate::text::lemma_lines_from(content@, 0);
        lemma_row_count(views, wraps@, 1);
    }
    rows
}

impl<S: BlockSpec> NotionEditor<S> {
    /// Take in how a block's text wraps. Asked for whenever its text, type or
    /// nesting changes: the only things that can change it.
    pub fn remeasure(&mut self, id: BlockId, wraps: &Option<Vec<usize>>)
        requires
            crate::view::find(old(self)@.blocks, id) matches Some(ix) ==> {
                &&& wraps matches Some(wraps) ==> wraps@.len() == crate::text::lines(
                    old(self)@.blocks[ix].text,
                ).len()
                &&& text_rows(old(self)@.blocks[ix].text, opt_wraps(*wraps)) <= usize::MAX
            },
        ensures
            final(self)@ == old(self)@.remeasure(id, opt_wraps(*wraps)),
            final(self).types() == old(self).types(),
            old(self)@.wf() ==> final(self)@.wf(),
    {
        let ix: usize = match self.index_of(id) {
            Some(ix) => ix,
            None => {
                return;
            },
        };
        let ghost start = self@;
        let ghost was = self.blocks@;
        assert(start.blocks[ix as int] == was[ix as int]@);
        let rows: usize = measure_rows(&self.blocks[ix].text, wraps);
        let block = &mut self.blocks[ix];
        block.rows = rows;
        assert(crate::view::block_views(self.blocks@) =~= crate::view::block_views(was).update(
            ix as int,
            self.blocks@[ix as int]@,
        ));
        proof {
            if start.wf() {
                crate::view::lemma_with_block_wf(start, ix as int, self@.blocks[ix as int]);
            }
        }
        assert(self@ =~= start.with_block(ix as int, self@.blocks[ix as int]));
    }

    /// A block's input reported its caret and selection: `next`, in `value`.
    /// Listeners hear of it where it is news, the input has the keyboard, its
    /// text is the one the document knows and nothing is being composed.
    pub fn on_input_observed(
        &mut self,
        id: BlockId,
        next: Selection,
        focused: bool,
        value: &str,
        composing: bool,
    )
        requires
            next.fits(value@),
        ensures
            final(self)@ == old(self)@.on_input_observed(id, next, focused, value@, composing),
            final(self).types() == old(self).types(),
            old(self)@.wf() ==> final(self)@.wf(),
    {
        let ix: usize = match self.index_of(id) {
            Some(ix) => ix,
            None => {
                return;
            },
        };
        let ghost start = self@;
        let ghost was = self.blocks@;
        assert(start.blocks[ix as int] == was[ix as int]@);
        let settled = text::text_eq(value, &self.blocks[ix].text);
        let unchanged = self.blocks[ix].seen == next;
        let block = &mut self.blocks[ix];
        block.seen = next;
        if settled {
            block.input = next;
        }
        assert(crate::view::block_views(self.blocks@) =~= crate::view::block_views(was).update(
            ix as int,
            self.blocks@[ix as int]@,
        ));
        proof {
            assert(crate::view::known(start.blocks, start.blocks[ix as int].id));
            if start.wf() {
                crate::view::lemma_with_block_wf(start, ix as int, self@.blocks[ix as int]);
                crate::view::lemma_same_ids(start.blocks, self@.blocks);
            }
        }
        assert(self@ =~= start.with_block(ix as int, self@.blocks[ix as int]));
        if unchanged || !focused || !settled || composing {
            return;
        }
        self.focused = Some(id);
        self.emit(Effect::Selection(SelectionChanged));
    }

    /// A block's input took the keyboard.
    pub fn on_input_focused(&mut self, id: BlockId)
        ensures
            final(self)@ == (EditorView {
                focused: Some(id),
                selected: Seq::empty(),
                ..old(self)@
            }).emit(crate::effect::EffectView::Selection).emit(crate::effect::EffectView::Notify),
            final(self).types() == old(self).types(),
            old(self)@.wf() && crate::view::known(old(self)@.blocks, id) ==> final(self)@.wf(),
    {
        self.focused = Some(id);
        self.selected.clear();
        assert(self@ =~= EditorView { focused: Some(id), selected: Seq::empty(), ..old(self)@ });
        self.emit(Effect::Selection(SelectionChanged));
        self.emit(Effect::Notify);
    }
}

impl EditorView {
    /// The editor with the rows of block `id` counted.
    pub open spec fn remeasure(self, id: BlockId, wraps: Option<Seq<usize>>) -> EditorView {
        match crate::view::find(self.blocks, id) {
            Some(ix) => self.with_block(
                ix,
                crate::block::BlockView {
                    rows: text_rows(self.blocks[ix].text, wraps),
                    ..self.blocks[ix]
                },
            ),
            None => self,
        }
    }

    /// The editor once the input of block `id` has reported its caret and
    /// selection.
    pub open spec fn on_input_observed(
        self,
        id: BlockId,
        next: Selection,
        focused: bool,
        value: Seq<char>,
        composing: bool,
    ) -> EditorView {
        match crate::view::find(self.blocks, id) {
            Some(ix) => {
                let block = self.blocks[ix];
                let settled = value == block.text;
                let there = self.with_block(
                    ix,
                    crate::block::BlockView {
                        seen: next,
                        input: if settled {
                            next
                        } else {
                            block.input
                        },
                        ..block
                    },
                );
                if block.seen != next && focused && settled && !composing {
                    EditorView { focused: Some(id), ..there }.emit(
                        crate::effect::EffectView::Selection,
                    )
                } else {
                    there
                }
            },
            None => self,
        }
    }
}

impl EditorView {
    /// The editor with a mark put on text that was just typed into block `ix`,
    /// and nothing armed for what follows it.
    pub open spec fn mark_typed(
        self,
        ix: int,
        kind: crate::mark::KindView,
        start: int,
        end: int,
    ) -> EditorView {
        let block = self.blocks[ix];
        self.with_block(
            ix,
            crate::block::BlockView {
                marks: crate::mark::add_mark(block.marks, kind, start, end),
                stored_marks: Some(Seq::empty()),
                ..block
            },
        ).apply_decorations(block.id)
    }
}

impl<S: BlockSpec> NotionEditor<S> {
    /// Put a mark on text that was just typed into block `ix`. What follows it
    /// is plain again.
    pub(crate) fn mark_typed(&mut self, ix: usize, kind: MarkKind, start: usize, end: usize)
        requires
            old(self)@.wf(),
            ix < old(self)@.blocks.len(),
            end <= crate::text::blen(old(self)@.blocks[ix as int].text),
        ensures
            final(self)@ == old(self)@.mark_typed(ix as int, kind@, start as int, end as int),
            final(self).types() == old(self).types(),
            final(self)@.wf(),
    {
        let ghost start_view = self@;
        let ghost was = self.blocks@;
        assert(start_view.blocks[ix as int] == was[ix as int]@);
        proof {
            crate::mark::lemma_add_in_range(
                was[ix as int]@.marks,
                kind@,
                start as int,
                end as int,
                crate::text::blen(was[ix as int]@.text),
            );
        }
        let id = self.blocks[ix].id;
        let block = &mut self.blocks[ix];
        block.marks.add(kind, start, end);
        block.stored_marks = Some(Vec::new());
        assert(crate::mark::kind_views(Seq::empty()) =~= Seq::empty());
        assert(crate::view::block_views(self.blocks@) =~= crate::view::block_views(was).update(
            ix as int,
            self.blocks@[ix as int]@,
        ));
        proof {
            crate::view::lemma_with_block_wf(start_view, ix as int, self@.blocks[ix as int]);
        }
        assert(self@ =~= start_view.with_block(ix as int, self@.blocks[ix as int]));
        self.apply_decorations(id);
    }
}

/// A block once its input holds `new_text`, with its caret at `input`. Marks
/// move with the text, and what was typed is formatted as the marks armed at
/// the caret say, else as the text it was typed into.
pub open spec fn changed_block(
    block: crate::block::BlockView,
    new_text: Seq<char>,
    input: Selection,
) -> crate::block::BlockView {
    let edit = crate::mark::edit_between(block.text, new_text);
    let applied = match block.stored_marks {
        Some(kinds) => kinds,
        None => crate::mark::inclusive_only(
            crate::mark::active_kinds(block.marks, edit.start as int),
        ),
    };
    let moved = crate::mark::remap_marks(block.marks, edit);
    let marks = if edit.new_len > 0 {
        crate::mark::add_marks(moved, applied, edit.start as int, edit.start + edit.new_len)
    } else {
        moved
    };
    crate::block::BlockView {
        text: new_text,
        marks: crate::mark::clamp_marks(marks, crate::text::blen(new_text)),
        stored_marks: None,
        input,
        ..block
    }
}

/// Whether a change of text came as a paste: more than a lone line break was
/// put in, and a line break was in it.
pub open spec fn pasted(old_text: Seq<char>, new_text: Seq<char>) -> bool {
    let edit = crate::mark::edit_between(old_text, new_text);
    edit.new_len > 1 && crate::text::slice(
        new_text,
        edit.start as int,
        edit.start + edit.new_len,
    ).contains('\n')
}

impl EditorView {
    /// The editor once the line of block `id` has been read as markdown.
    #[verifier::opaque]
    pub open spec fn read_markdown(self, id: BlockId) -> EditorView {
        match self.markdown_prefix(id) {
            Some(next) => next,
            None => self,
        }
    }

    /// The editor with `rest` put in as blocks after block `ix`, one for each
    /// line, like that block, and each read as markdown.
    pub open spec fn insert_lines(self, ix: int, rest: Seq<Seq<char>>) -> EditorView
        decreases rest.len(),
    {
        if rest.len() == 0 {
            self
        } else {
            let above = self.insert_lines(ix, rest.drop_last());
            above.insert_block(
                ix + rest.len(),
                crate::block::ContentView {
                    ty: above.blocks[ix].ty,
                    attrs: above.blocks[ix].attrs,
                    text: rest.last(),
                    marks: Seq::empty(),
                    indent: above.blocks[ix].indent,
                },
            ).read_markdown(BlockId(above.next_id as u64))
        }
    }

    /// Whether block `ix` falls apart into blocks once it holds `text`: that is
    /// of several lines, and the block's type is not.
    pub open spec fn falls_apart(self, ix: int, text: Seq<char>) -> bool {
        !self.caps_at(ix).multiline && text.contains('\n')
    }

    /// The editor with the lines of block `id` made into blocks of their own,
    /// where it holds several and its type is not one of several lines.
    #[verifier::opaque]
    pub open spec fn split_pasted_lines(self, id: BlockId) -> Option<EditorView> {
        match crate::view::find(self.blocks, id) {
            Some(ix) if self.falls_apart(ix, self.blocks[ix].text) => {
                let lines = crate::text::lines(self.blocks[ix].text);
                let head = self.set_block_text(
                    ix,
                    lines[0],
                    crate::text::blen(lines[0]),
                ).read_markdown(id);
                let rest = lines.drop_first();
                Some(
                    head.insert_lines(ix, rest).focus_block(
                        BlockId((head.next_id + rest.len() - 1) as u64),
                        Caret::End,
                    ).emit(crate::effect::EffectView::Document).emit(
                        crate::effect::EffectView::Notify,
                    ),
                )
            },
            _ => None,
        }
    }

    /// The editor once the input rules have run on block `id`.
    #[verifier::opaque]
    pub open spec fn run_input_rules(self, id: BlockId) -> EditorView {
        match self.input_rules(id) {
            Some(next) => next,
            None => self,
        }
    }

    /// The editor once block `id` holds `new_text`, before anything is made of
    /// it.
    #[verifier::opaque]
    pub open spec fn take_text(
        self,
        id: BlockId,
        ix: int,
        new_text: Seq<char>,
        input: Selection,
    ) -> EditorView {
        let block = changed_block(self.blocks[ix], new_text, input);
        self.emit(
            crate::effect::EffectView::RecordTyping(crate::view::contents_of(self.blocks)),
        ).with_block(ix, block).emit(crate::effect::EffectView::Remeasure(id)).emit(
            crate::view::decorate(self.reg, block),
        )
    }

    /// The editor once the input of block `id` has changed to `new_text`. A
    /// paste of several lines becomes blocks; anything else runs the input
    /// rules and brings the menu in step.
    pub open spec fn on_block_changed(
        self,
        id: BlockId,
        new_text: Seq<char>,
        input: Selection,
    ) -> EditorView {
        match crate::view::find(self.blocks, id) {
            Some(ix) => if self.blocks[ix].text == new_text {
                self.with_block(ix, crate::block::BlockView { input, ..self.blocks[ix] })
            } else {
                let taken = self.take_text(id, ix, new_text, input);
                match taken.split_pasted_lines(id) {
                    Some(split) if pasted(self.blocks[ix].text, new_text) => split,
                    _ => taken.run_input_rules(id).sync_suggestion_menu().emit(
                        crate::effect::EffectView::Document,
                    ).emit(crate::effect::EffectView::Notify),
                }
            },
            None => self,
        }
    }
}

/// Whether `n` is `e` with the line of block `ix` read: that block holds what
/// was made of the line, nested as it was unless it is no list item any more,
/// and the others stand as they stood.
pub open spec fn line_was_read(e: EditorView, n: EditorView, ix: int) -> bool {
    let read = e.read_line(e.blocks[ix].ty, e.blocks[ix].attrs, e.blocks[ix].text);
    let block = n.blocks[ix];
    &&& n.blocks.len() == e.blocks.len()
    &&& block.ty == read.ty && block.attrs == read.attrs && block.text == read.text
    &&& block.id == e.blocks[ix].id
    &&& read.ty == e.blocks[ix].ty && read.attrs == e.blocks[ix].attrs ==> block == e.blocks[ix]
    &&& read.ty != e.blocks[ix].ty || read.attrs != e.blocks[ix].attrs ==> block.indent == (if (
    e.reg.caps)(read.ty).list {
        e.blocks[ix].indent
    } else {
        0
    })
    &&& e.blocks[ix].marks.len() == 0 ==> block.marks.len() == 0
    &&& forall|j: int| 0 <= j < n.blocks.len() && j != ix ==> (#[trigger] n.blocks[j]) == e.blocks[j]
}

proof fn lemma_prefix_frame(e: EditorView, ix: int, i: int)
    requires
        crate::view::is_index(e.blocks, e.blocks[ix].id, ix),
        0 <= i,
    ensures
        ({
            let block = e.blocks[ix];
            let target = crate::ready::first_target(e.reg, block.ty, block.attrs, block.text, i);
            match e.prefix_rules(ix, i) {
                Some(n) => {
                    &&& n.next_id == e.next_id
                    &&& n.reg == e.reg
                    &&& n.input_rule_mode == e.input_rule_mode
                    &&& target is Some
                    &&& e.rules_apply(ix) && target == crate::ready::first_target(
                        e.reg,
                        block.ty,
                        block.attrs,
                        block.text,
                        0,
                    ) ==> line_was_read(e, n, ix)
                },
                None => target is None,
            }
        }),
    decreases e.reg.rules.len() - i,
{
    let block = e.blocks[ix];
    if i < e.reg.rules.len() {
        let rule = e.reg.rules[i];
        let found = crate::pattern::match_of(
            crate::input_rules::open_ended(rule.pattern),
            block.text,
        );
        if e.prefix_match(ix, rule, found) is Some {
            let w = found->0.whole().1;
            let cut = e.edit_block_text(ix, 0, w, ""@);
            reveal_strlit("");
            crate::text::lemma_ends(block.text);
            assert(cut.blocks[ix].text =~= crate::text::after(block.text, w));
            crate::view::lemma_same_ids(e.blocks, cut.blocks);
            crate::view::lemma_find(e.blocks, block.id);
            crate::view::lemma_find(cut.blocks, block.id);
        } else {
            lemma_prefix_frame(e, ix, i + 1);
        }
    }
}

/// Reading a line as markdown adds and removes no block, and changes only the
/// one that the line is in.
pub proof fn lemma_markdown_frame(e: EditorView, id: BlockId)
    ensures
        ({
            let n = e.read_markdown(id);
            &&& n.next_id == e.next_id
            &&& n.reg == e.reg
            &&& n.input_rule_mode == e.input_rule_mode
            &&& n.blocks.len() == e.blocks.len()
            &&& crate::view::find(e.blocks, id) matches Some(ix) ==> line_was_read(e, n, ix)
        }),
{
    reveal(EditorView::read_markdown);
    crate::view::lemma_find(e.blocks, id);
    if let Some(ix) = crate::view::find(e.blocks, id) {
        lemma_prefix_frame(e, ix, 0);
    }
}

/// A block's lines become blocks of their own exactly where it falls apart.
proof fn lemma_split_decided(e: EditorView, id: BlockId)
    ensures
        e.split_pasted_lines(id) is Some <==> (crate::view::find(e.blocks, id) matches Some(ix)
            && e.falls_apart(ix, e.blocks[ix].text)),
{
    reveal(EditorView::split_pasted_lines);
}

/// A change of text leaves a block in order.
pub proof fn lemma_changed_wf(
    block: crate::block::BlockView,
    new_text: Seq<char>,
    input: Selection,
)
    requires
        block.wf(),
        crate::text::blen(new_text) <= usize::MAX,
        input.fits(new_text),
    ensures
        changed_block(block, new_text, input).wf(),
{
    let edit = crate::mark::edit_between(block.text, new_text);
    crate::mark::law_edit_between(block.text, new_text);
    let len = crate::text::blen(new_text);
    crate::mark::lemma_remap_in_range(block.marks, edit, crate::text::blen(block.text));
    let moved = crate::mark::remap_marks(block.marks, edit);
    let applied = match block.stored_marks {
        Some(kinds) => kinds,
        None => crate::mark::inclusive_only(
            crate::mark::active_kinds(block.marks, edit.start as int),
        ),
    };
    crate::text::lemma_split(new_text, edit.start + edit.new_len);
    crate::mark::lemma_adds_in_range(
        moved,
        applied,
        edit.start as int,
        edit.start + edit.new_len,
        len,
    );
    let marks = if edit.new_len > 0 {
        crate::mark::add_marks(moved, applied, edit.start as int, edit.start + edit.new_len)
    } else {
        moved
    };
    crate::mark::lemma_clamp_in_range(marks, len);
}

impl<S: BlockSpec> NotionEditor<S> {
    /// Take the new text of block `ix` into the document: its marks move with
    /// it, and what was typed is formatted as the marks armed at the caret say,
    /// otherwise as the text it was typed into.
    fn take_text(&mut self, id: BlockId, ix: usize, new_text: String, edit: &TextEdit, input: Selection)
        requires
            old(self)@.wf(),
            ix < old(self)@.blocks.len(),
            *edit == crate::mark::edit_between(old(self)@.blocks[ix as int].text, new_text@),
            input.fits(new_text@),
            id == old(self)@.blocks[ix as int].id,
        ensures
            final(self)@ == old(self)@.take_text(id, ix as int, new_text@, input),
            final(self).types() == old(self).types(),
            final(self)@.wf(),
            final(self)@.next_id == old(self)@.next_id,
            final(self)@.input_rule_mode == old(self)@.input_rule_mode,
            final(self)@.blocks.len() == old(self)@.blocks.len(),
            final(self)@.blocks[ix as int].text == new_text@,
            final(self)@.blocks[ix as int].ty == old(self)@.blocks[ix as int].ty,
            final(self)@.blocks[ix as int].attrs == old(self)@.blocks[ix as int].attrs,
            final(self)@.blocks[ix as int].input == input,
            forall|i: int|
                0 <= i < old(self)@.blocks.len() ==> (#[trigger] old(self)@.blocks[i]).id
                    == final(self)@.blocks[i].id,
    {
        proof {
            reveal(EditorView::take_text);
        }
        let ghost start = self@;
        let ghost was = self.blocks@;
        let ghost old_block = start.blocks[ix as int];
        assert(old_block == was[ix as int]@);
        let contents = self.content();
        let len: usize = text::text_len(&self.blocks[ix].text);
        let new_len: usize = text::text_len(&new_text);
        proof {
            lemma_changed_wf(old_block, new_text@, input);
            crate::mark::law_edit_between(old_block.text, new_text@);
            crate::text::lemma_split(new_text@, edit.start + edit.new_len);
        }
        self.emit(Effect::RecordTyping(contents));
        let ghost recorded = self@;
        let block = &mut self.blocks[ix];
        let applied = match block.stored_marks.take() {
            Some(kinds) => kinds,
            None => inclusive_kinds(&block.marks.active(edit.start)),
        };
        block.text = new_text;
        block.marks.remap(edit, len);
        if edit.new_len > 0 {
            block.marks.add_all(&applied, edit.start, edit.start + edit.new_len);
        }
        block.marks.clamp(new_len);
        block.input = input;
        assert(self.blocks@[ix as int]@ == changed_block(old_block, new_text@, input));
        assert(crate::view::block_views(self.blocks@) =~= crate::view::block_views(was).update(
            ix as int,
            self.blocks@[ix as int]@,
        ));
        proof {
            crate::view::lemma_with_block_wf(recorded, ix as int, self@.blocks[ix as int]);
        }
        assert(self@ =~= recorded.with_block(ix as int, self@.blocks[ix as int]));
        self.emit(Effect::Remeasure(id));
        let runs = self.decorations(ix);
        self.emit(Effect::Decorate { block: id, runs });
    }

    /// Read the line of a block as markdown.
    fn read_markdown(&mut self, id: BlockId)
        requires
            old(self)@.wf(),
            old(self).types().wf(),
            old(self)@.prefixes_ready(id),
        ensures
            final(self)@ == old(self)@.read_markdown(id),
            final(self).types() == old(self).types(),
            final(self)@.wf(),
            final(self)@.next_id == old(self)@.next_id,
            final(self)@.input_rule_mode == old(self)@.input_rule_mode,
            final(self)@.blocks.len() == old(self)@.blocks.len(),
    {
        proof {
            lemma_markdown_frame(self@, id);
            reveal(EditorView::read_markdown);
        }
        let _ = self.apply_markdown_prefix(id);
    }

    /// Put a block in after block `ix` for each of `parts` but the first, like
    /// that block, and return the last of them.
    fn insert_lines(&mut self, ix: usize, parts: &Vec<String>) -> (last: BlockId)
        requires
            old(self)@.wf(),
            old(self).types().wf(),
            forall|k: int|
                1 <= k < parts@.len() ==> old(self)@.line_ready(
                    old(self)@.blocks[ix as int].ty,
                    old(self)@.blocks[ix as int].attrs,
                    (#[trigger] parts@[k])@,
                ),
            ix < old(self)@.blocks.len(),
            parts@.len() > 1,
            old(self)@.next_id + parts@.len() <= u64::MAX,
        ensures
            final(self)@ == old(self)@.insert_lines(
                ix as int,
                parts@.map_values(|line: String| line@).drop_first(),
            ),
            final(self).types() == old(self).types(),
            final(self)@.wf(),
            last.0 == old(self)@.next_id + parts@.len() - 2,
    {
        let ghost top = self@;
        let ghost rest = parts@.map_values(|line: String| line@).drop_first();
        let mut last = BlockId(0);
        let mut i: usize = 1;
        assert(rest.take(0) =~= Seq::empty());
        while i < parts.len()
            invariant
                1 <= i <= parts@.len(),
                rest == parts@.map_values(|line: String| line@).drop_first(),
                self@ == top.insert_lines(ix as int, rest.take(i - 1)),
                self@.wf(),
                self.registry == old(self).registry,
                self.registry.wf(),
                self@.input_rule_mode == top.input_rule_mode,
                self@.reg == top.reg,
                self@.blocks[ix as int] == top.blocks[ix as int],
                forall|k: int|
                    1 <= k < parts@.len() ==> top.line_ready(
                        top.blocks[ix as int].ty,
                        top.blocks[ix as int].attrs,
                        (#[trigger] parts@[k])@,
                    ),
                ix + i <= self@.blocks.len(),
                self@.next_id == top.next_id + i - 1,
                top.next_id + parts@.len() <= u64::MAX,
                i > 1 ==> last.0 == top.next_id + i - 2,
            decreases parts@.len() - i,
        {
            assert(self@.blocks[ix as int] == self.blocks@[ix as int]@);
            assert(rest.take(i as int).drop_last() =~= rest.take(i - 1));
            assert(rest.take(i as int).last() == parts@[i as int]@);
            let block = &self.blocks[ix];
            let content = BlockContent {
                ty: block.ty.clone(),
                attrs: block.attrs.copy(),
                text: parts[i].clone(),
                marks: Marks::new(),
                indent: block.indent,
            };
            assert(ix + i <= self.blocks.len());
            let ghost above = self@;
            last = self.insert_block(ix + i, content);
            proof {
                crate::laws::law_insert(above, ix + i, content@);
                assert(self@.blocks[ix as int] == above.blocks[ix as int]);
                assert(self@.blocks[ix + i] == crate::view::fresh_block(last, content@));
                lemma_markdown_frame(self@, last);
            }
            self.read_markdown(last);
            i = i + 1;
        }
        assert(rest.take(i - 1) =~= rest);
        last
    }

    /// Text arriving with newlines — a paste — becomes one block per line,
    /// each line still subject to the markdown rules.
    pub fn split_pasted_lines(&mut self, id: BlockId) -> (split: bool)
        requires
            old(self)@.wf(),
            old(self).types().wf(),
            crate::view::find(old(self)@.blocks, id) matches Some(ix) ==> old(self)@.falls_apart(
                ix,
                old(self)@.blocks[ix].text,
            ) ==> old(self)@.paste_ready(
                old(self)@.blocks[ix].ty,
                old(self)@.blocks[ix].attrs,
                crate::text::lines(old(self)@.blocks[ix].text),
            ),
            crate::view::find(old(self)@.blocks, id) matches Some(ix) ==> old(self)@.next_id
                + crate::text::lines(old(self)@.blocks[ix].text).len() <= u64::MAX,
        ensures
            ({
                let next = old(self)@.split_pasted_lines(id);
                &&& split == (next is Some)
                &&& final(self)@ == (match next {
                    Some(next) => next,
                    None => old(self)@,
                })
            }),
            final(self).types() == old(self).types(),
            final(self)@.wf(),
    {
        proof {
            reveal(EditorView::split_pasted_lines);
        }
        let ix: usize = match self.index_of(id) {
            Some(ix) => ix,
            None => {
                return false;
            },
        };
        assert(self@.blocks[ix as int] == self.blocks@[ix as int]@);
        if self.caps_at(ix).multiline || !text::has_char(&self.blocks[ix].text, '\n') {
            return false;
        }
        let parts = text::text_lines(&self.blocks[ix].text);
        proof {
            let content = self@.blocks[ix as int].text;
            let lines = crate::text::lines(content);
            crate::text::lemma_lines_from(content, 0);
            crate::text::lemma_many_lines(content);
            assert(lines[0] == parts@[0]@);
            crate::text::lemma_ends(lines[0]);
        }
        let head = parts[0].clone();
        let caret: usize = text::text_len(&head);
        let ghost start = self@;
        self.set_block_text(ix, head, caret);
        proof {
            crate::view::lemma_same_ids(start.blocks, self@.blocks);
            lemma_markdown_frame(self@, id);
            let lines = crate::text::lines(start.blocks[ix as int].text);
            assert forall|k: int| 1 <= k < parts@.len() implies lines[k] == (
            #[trigger] parts@[k])@ by {
                assert(parts@.map_values(|line: String| line@)[k] == parts@[k]@);
            }
        }
        self.read_markdown(id);
        let last = self.insert_lines(ix, &parts);
        self.focus_block(last, Caret::End);
        self.emit(Effect::Document(DocumentChanged));
        self.emit(Effect::Notify);
        true
    }
}

impl<S: BlockSpec> NotionEditor<S> {
    /// Run the input rules on a block.
    fn fire_rules(&mut self, id: BlockId)
        requires
            old(self)@.wf(),
            old(self).types().wf(),
            old(self)@.rules_ready(id),
            old(self)@.next_id < u64::MAX,
        ensures
            final(self)@ == old(self)@.run_input_rules(id),
            final(self).types() == old(self).types(),
            final(self)@.wf(),
    {
        proof {
            reveal(EditorView::run_input_rules);
        }
        let _ = self.run_input_rules(id);
    }

    /// Keep a block's text, marks and decorations in step with its input, which
    /// holds `new_text` now with its caret at `input`.
    ///
    /// A lone newline is Shift-Enter's soft break; anything longer that carries
    /// newlines arrived as a paste, and becomes one block per line.
    pub fn on_block_changed(&mut self, id: BlockId, new_text: String, input: Selection)
        requires
            old(self)@.wf(),
            old(self).types().wf(),
            old(self)@.change_ready(id, new_text@, input),
            old(self)@.next_id + crate::text::lines(new_text@).len() <= u64::MAX,
            input.fits(new_text@),
        ensures
            final(self)@ == old(self)@.on_block_changed(id, new_text@, input),
            final(self).types() == old(self).types(),
            final(self)@.wf(),
    {
        let ix: usize = match self.index_of(id) {
            Some(ix) => ix,
            None => {
                return;
            },
        };
        let ghost start = self@;
        let ghost was = self.blocks@;
        let ghost old_block = start.blocks[ix as int];
        assert(old_block == was[ix as int]@);
        text::fits_memory(&self.blocks[ix].text);
        text::fits_memory(&new_text);
        let edit = match diff_edit(&self.blocks[ix].text, &new_text) {
            Some(edit) => edit,
            None => {
                let block = &mut self.blocks[ix];
                block.input = input;
                assert(crate::view::block_views(self.blocks@) =~= crate::view::block_views(
                    was,
                ).update(ix as int, self.blocks@[ix as int]@));
                assert(self@ =~= start.with_block(ix as int, self@.blocks[ix as int]));
                proof {
                    crate::view::lemma_with_block_wf(start, ix as int, self@.blocks[ix as int]);
                }
                return;
            },
        };
        proof {
            crate::mark::law_edit_between(old_block.text, new_text@);
            crate::text::lemma_split(new_text@, edit.start + edit.new_len);
            crate::text::lemma_lines_from(new_text@, 0);
        }
        let pasted = edit.new_len > 1 && text::has_char(
            text::text_slice(&new_text, edit.start, edit.start + edit.new_len),
            '\n',
        );
        self.take_text(id, ix, new_text, &edit, input);
        proof {
            crate::view::lemma_same_ids(start.blocks, self@.blocks);
            lemma_split_decided(self@, id);
        }
        if pasted && self.split_pasted_lines(id) {
            return;
        }
        self.fire_rules(id);
        self.sync_suggestion_menu();
        self.emit(Effect::Document(DocumentChanged));
        self.emit(Effect::Notify);
    }

    /// Take a change of a block's input in, where every pattern that it has the
    /// rules match with is a regular expression, and answer whether that was
    /// so.
    pub fn handle_change(&mut self, id: BlockId, new_text: String, input: Selection) -> (taken: bool)
        requires
            old(self)@.wf(),
            old(self).types().wf(),
            old(self)@.next_id + crate::text::lines(new_text@).len() <= u64::MAX,
            input.fits(new_text@),
        ensures
            taken == old(self)@.change_ready(id, new_text@, input),
            final(self)@ == (if taken {
                old(self)@.on_block_changed(id, new_text@, input)
            } else {
                old(self)@
            }),
            final(self).types() == old(self).types(),
            final(self)@.wf(),
    {
        if !self.is_change_ready(id, &new_text, input) {
            return false;
        }
        self.on_block_changed(id, new_text, input);
        true
    }
}

} // verus!
