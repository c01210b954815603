//! Focus: which block holds the caret, and where it goes next.

use vstd::prelude::*;

use crate::block::{BlockContent, BlockId, BlockSpec, Selection};
use crate::effect::Effect;
use crate::text;
use crate::view::{Caret, DocumentChanged, EditorView, NotionEditor};

verus! {

/// Place of the first `true`, if there is one.
pub open spec fn first_true(flags: Seq<bool>) -> Option<int>
    decreases flags.len(),
{
    if flags.len() == 0 {
        None
    } else {
        match first_true(flags.drop_last()) {
            Some(i) => Some(i),
            None => if flags.last() {
                Some(flags.len() - 1)
            } else {
                None
            },
        }
    }
}

fn find_true(flags: &Vec<bool>) -> (place: Option<usize>)
    ensures
        crate::block::opt_int(place) == first_true(flags@),
        place matches Some(i) ==> i < flags@.len(),
{
    let mut found: Option<usize> = None;
    let mut i: usize = 0;
    while i < flags.len()
        invariant
            i <= flags@.len(),
            crate::block::opt_int(found) == first_true(flags@.take(i as int)),
            found matches Some(k) ==> k < i,
        decreases flags@.len() - i,
    {
        assert(flags@.take(i + 1).drop_last() =~= flags@.take(i as int));
        if found.is_none() && flags[i] {
            found = Some(i);
        }
        i = i + 1;
    }
    assert(flags@.take(i as int) =~= flags@);
    found
}

/// The byte offset that a caret stands for in a text of `len` bytes.
pub open spec fn caret_in(caret: Caret, len: int) -> int {
    match caret {
        Caret::Start => 0,
        Caret::End => len,
        Caret::At(offset) => if offset < len {
            offset as int
        } else {
            len
        },
    }
}

/// A selection of the bytes `start..end` of `text`, each end moved back to a
/// character it may stand at.
pub open spec fn selection_in(text: Seq<char>, start: int, end: int) -> Selection {
    let len = crate::text::blen(text);
    let a = crate::text::snap(text, if start < len { start } else { len });
    let b = crate::text::snap(text, if end < len { end } else { len });
    Selection { cursor: b as usize, start: a as usize, end: b as usize }
}

impl EditorView {
    /// The hint that block `ix` shows: that of its type while it is written
    /// in, or where its type always shows it.
    pub open spec fn hint(self, ix: int) -> crate::effect::EffectView {
        let block = self.blocks[ix];
        let show = (self.reg.placeholder_always)(block.ty) || self.focused == Some(block.id);
        crate::effect::EffectView::SetPlaceholder {
            block: block.id,
            text: if show {
                (self.reg.placeholder)(block.ty, block.attrs)
            } else {
                ""@
            },
        }
    }

    /// The editor with the hint of every block brought up to date.
    pub open spec fn sync_placeholders(self) -> EditorView {
        EditorView {
            effects: self.effects + Seq::new(self.blocks.len(), |i: int| self.hint(i)),
            ..self
        }
    }

    /// The block whose input has the keyboard, given which inputs have it.
    pub open spec fn keyboard_block(self, keyboard: Seq<bool>) -> Option<BlockId> {
        match first_true(keyboard) {
            Some(ix) => Some(self.blocks[ix].id),
            None => None,
        }
    }

    /// The editor once it has adopted whichever block has the keyboard. With
    /// the keyboard elsewhere no block is focused, unless a popover that edits
    /// the focused one is open.
    pub open spec fn refresh_focus(self, keyboard: Seq<bool>) -> EditorView {
        let focused = self.keyboard_block(keyboard);
        if focused == self.focused {
            self
        } else if focused is Some {
            EditorView { focused, selected: Seq::empty(), ..self }.sync_placeholders()
        } else if self.link_editor is Some || self.comment_draft {
            self
        } else {
            EditorView { focused: None, ..self }.sync_placeholders().emit(
                crate::effect::EffectView::Notify,
            )
        }
    }

    /// The editor with the caret in block `id`, or with that block selected as
    /// a node where it is not text. An offset inside a character counts as the
    /// one before that character. The request hands the input the offset as it
    /// was given: the input snaps it in its own text.
    pub open spec fn focus_block(self, id: BlockId, caret: Caret) -> EditorView {
        match crate::view::find(self.blocks, id) {
            Some(ix) => if self.caps_at(ix).textual {
                let block = self.blocks[ix];
                let offset = caret_in(caret, crate::text::blen(block.text));
                let at = crate::text::snap(block.text, offset);
                EditorView { focused: Some(id), selected: Seq::empty(), ..self }.with_block(
                    ix,
                    crate::block::BlockView { input: Selection::at(at), ..block },
                ).emit(crate::effect::EffectView::FocusInput { block: id, caret: offset }).emit(
                    crate::effect::EffectView::Notify,
                )
            } else {
                EditorView { focused: None, selected: seq![id], ..self }.emit(
                    crate::effect::EffectView::FocusEditor,
                ).emit(crate::effect::EffectView::Notify)
            },
            None => self,
        }
    }

    /// The editor with the bytes `start..end` of block `ix` selected.
    pub open spec fn select_text_in_block(self, ix: int, start: usize, end: usize) -> EditorView {
        if ix < self.blocks.len() {
            let block = self.blocks[ix];
            let there = self.focus_block(block.id, Caret::At(start));
            there.with_block(
                ix,
                crate::block::BlockView {
                    input: selection_in(block.text, start as int, end as int),
                    ..there.blocks[ix]
                },
            ).emit(
                crate::effect::EffectView::SelectInput {
                    block: block.id,
                    start: start as int,
                    end: end as int,
                },
            ).emit(crate::effect::EffectView::Notify)
        } else {
            self
        }
    }

    /// The editor with the caret at the end of its last block.
    pub open spec fn focus_last_block(self) -> EditorView {
        if self.blocks.len() > 0 {
            self.focus_block(self.blocks.last().id, Caret::End)
        } else {
            self
        }
    }

    /// The editor with the caret in an empty last block of text, which is
    /// appended where the last block is none.
    pub open spec fn focus_trailing_block(self) -> EditorView {
        let last = self.blocks.len() - 1;
        if last >= 0 && self.caps_at(last).textual && self.blocks[last].text.len() == 0 {
            self.focus_block(self.blocks[last].id, Caret::End)
        } else {
            self.insert_block(
                self.blocks.len() as int,
                crate::block::plain_content(crate::block::PARAGRAPH@, ""@),
            ).focus_block(BlockId(self.next_id as u64), Caret::End)
        }
    }

    /// The nearest block of text in sight, looking from `at` in steps of
    /// `delta`.
    pub open spec fn sibling(self, at: int, delta: int) -> Option<int>
        decreases
                (if at < 0 || at >= self.blocks.len() {
                    0
                } else if delta > 0 {
                    self.blocks.len() - at
                } else {
                    at + 1
                }),
    {
        if delta == 0 || at < 0 || at >= self.blocks.len() {
            None
        } else if self.caps_at(at).textual && crate::view::visible(self.blocks, at) {
            Some(at)
        } else {
            self.sibling(at + delta, delta)
        }
    }

    /// The editor with the caret in the nearest such block, if there is one.
    pub open spec fn focus_sibling(self, from: int, delta: int, caret: Caret) -> EditorView {
        match self.sibling(from + delta, delta) {
            Some(ix) => self.focus_block(self.blocks[ix].id, caret),
            None => self,
        }
    }
}

/// Focusing a block keeps the editor in order.
pub proof fn lemma_focus_wf(e: EditorView, id: BlockId, caret: Caret)
    requires
        e.wf(),
    ensures
        e.focus_block(id, caret).wf(),
        e.focus_block(id, caret).reg == e.reg,
        e.focus_block(id, caret).blocks.len() == e.blocks.len(),
        forall|i: int|
            0 <= i < e.blocks.len() ==> (#[trigger] e.focus_block(id, caret).blocks[i])
                == (crate::block::BlockView {
                input: e.focus_block(id, caret).blocks[i].input,
                ..e.blocks[i]
            }),
{
    crate::view::lemma_find(e.blocks, id);
    if let Some(ix) = crate::view::find(e.blocks, id) {
        let block = e.blocks[ix];
        assert(crate::view::known(e.blocks, id));
        if e.caps_at(ix).textual {
            let offset = caret_in(caret, crate::text::blen(block.text));
            crate::text::lemma_snap(block.text, offset);
            let at = crate::text::snap(block.text, offset);
            let n = crate::block::BlockView { input: Selection::at(at), ..block };
            crate::view::lemma_with_block_wf(e, ix, n);
            crate::view::lemma_same_ids(e.blocks, e.focus_block(id, caret).blocks);
            crate::view::lemma_same_cells(e, e.focus_block(id, caret));
        }
    }
}

/// A selection moved onto characters of a text fits it.
pub proof fn lemma_selection_in(text: Seq<char>, start: int, end: int)
    requires
        start <= end,
        crate::text::blen(text) <= usize::MAX,
    ensures
        selection_in(text, start, end).fits(text),
{
    let len = crate::text::blen(text);
    let a = if start < len { start } else { len };
    let b = if end < len { end } else { len };
    crate::text::lemma_snap(text, a);
    crate::text::lemma_snap(text, b);
    crate::text::lemma_snap_order(text, a, b);
}

impl<S: BlockSpec> NotionEditor<S> {
    /// Hint the block being written in, and any block that always hints.
    pub fn sync_placeholders(&mut self)
        ensures
            final(self)@ == old(self)@.sync_placeholders(),
            final(self).types() == old(self).types(),
            final(self).block_list() == old(self).block_list(),
    {
        let ghost start = self@;
        let mut ix: usize = 0;
        assert(self@ =~= EditorView {
            effects: start.effects + Seq::new(0, |i: int| start.hint(i)),
            ..start
        });
        while ix < self.blocks.len()
            invariant
                ix <= self.blocks@.len(),
                start == old(self)@,
                self.registry == old(self).registry,
                self.block_list() == old(self).block_list(),
                self@ == (EditorView {
                    effects: start.effects + Seq::new(ix as nat, |i: int| start.hint(i)),
                    ..start
                }),
            decreases self.blocks@.len() - ix,
        {
            assert(start.blocks[ix as int] == self.blocks@[ix as int]@);
            let block = &self.blocks[ix];
            let id = block.id;
            let spec = self.registry.get(&block.ty);
            let show = spec.placeholder_always() || self.focused == Some(id);
            let hint = if show {
                spec.placeholder(&block.attrs)
            } else {
                "".to_owned()
            };
            self.emit(Effect::SetPlaceholder { block: id, text: hint });
            assert(self@.effects =~= start.effects + Seq::new(
                (ix + 1) as nat,
                |i: int| start.hint(i),
            ));
            ix = ix + 1;
        }
    }

    /// Adopt whichever block's input holds keyboard focus, `keyboard` saying
    /// of each block whether its input does, and answer whether one holds the
    /// caret at all.
    ///
    /// A block input takes focus from a click without the editor hearing
    /// about it, so the window is the authority on which block is active. With
    /// focus somewhere that is no block, a popover that edits the block it
    /// came from keeps it; anything else means no block holds the caret, and
    /// the toolbar, the placeholder and every command have to know.
    pub fn refresh_focus(&mut self, keyboard: &Vec<bool>) -> (held: bool)
        requires
            keyboard@.len() == old(self)@.blocks.len(),
        ensures
            final(self)@ == old(self)@.refresh_focus(keyboard@),
            final(self).types() == old(self).types(),
            held == (old(self)@.keyboard_block(keyboard@) is Some),
            old(self)@.wf() ==> final(self)@.wf(),
    {
        let focused = match find_true(keyboard) {
            Some(ix) => {
                assert(self@.blocks[ix as int] == self.blocks@[ix as int]@);
                assert(crate::view::known(self@.blocks, self@.blocks[ix as int].id));
                Some(self.blocks[ix].id)
            },
            None => None,
        };
        if focused == self.focused {
            return focused.is_some();
        }
        if focused.is_none() {
            if self.link_editor.is_some() || self.comment_draft {
                return false;
            }
            self.focused = None;
            self.sync_placeholders();
            self.emit(Effect::Notify);
            return false;
        }
        self.focused = focused;
        self.selected.clear();
        assert(self@ =~= EditorView { focused, selected: Seq::empty(), ..old(self)@ });
        self.sync_placeholders();
        true
    }

    /// Keep every block's gutter controls on screen.
    pub fn show_gutter_always(&mut self)
        ensures
            final(self)@ == (EditorView { always_show_gutter: true, ..old(self)@ }),
            final(self).types() == old(self).types(),
    {
        self.always_show_gutter = true;
    }

    /// Put the caret in a block, or select it as a node where it is not text.
    ///
    /// An offset inside a character puts the caret before that character, while
    /// the request carries the offset unchanged and leaves it to the input to
    /// snap it.
    pub fn focus_block(&mut self, id: BlockId, caret: Caret)
        ensures
            final(self)@ == old(self)@.focus_block(id, caret),
            final(self).types() == old(self).types(),
            old(self)@.wf() ==> final(self)@.wf(),
    {
        proof {
            if self@.wf() {
                lemma_focus_wf(self@, id, caret);
            }
        }
        let ix: usize = match self.index_of(id) {
            Some(ix) => ix,
            None => {
                return;
            },
        };
        if !self.caps_at(ix).textual {
            self.focused = None;
            let mut selected: Vec<BlockId> = Vec::new();
            selected.push(id);
            self.selected = selected;
            assert(self.selected@ =~= seq![id]);
            self.emit(Effect::FocusEditor);
            self.emit(Effect::Notify);
            return;
        }
        assert(self@.blocks[ix as int] == self.blocks@[ix as int]@);
        let len: usize = text::text_len(&self.blocks[ix].text);
        let offset: usize = match caret {
            Caret::Start => 0,
            Caret::End => len,
            Caret::At(offset) => if offset < len {
                offset
            } else {
                len
            },
        };
        self.focused = Some(id);
        self.selected.clear();
        let at: usize = text::text_snap(&self.blocks[ix].text, offset);
        let ghost was = self.blocks@;
        let block = &mut self.blocks[ix];
        block.input = Selection::caret(at);
        assert(crate::view::block_views(self.blocks@) =~= crate::view::block_views(was).update(
            ix as int,
            self.blocks@[ix as int]@,
        ));
        self.emit(Effect::FocusInput { block: id, caret: offset });
        self.emit(Effect::Notify);
    }

    /// Focus a block and select a byte range inside it.
    pub fn select_text_in_block(&mut self, ix: usize, start: usize, end: usize)
        requires
            old(self)@.wf(),
            start <= end,
        ensures
            final(self)@ == old(self)@.select_text_in_block(ix as int, start, end),
            final(self).types() == old(self).types(),
            final(self)@.wf(),
    {
        if ix >= self.blocks.len() {
            return;
        }
        let ghost block = self@.blocks[ix as int];
        assert(block == self.blocks@[ix as int]@);
        let id = self.blocks[ix].id;
        proof {
            lemma_focus_wf(self@, id, Caret::At(start));
            lemma_selection_in(block.text, start as int, end as int);
        }
        self.focus_block(id, Caret::At(start));
        let ghost there = self@;
        assert(there.blocks[ix as int] == self.blocks@[ix as int]@);
        assert(there.blocks[ix as int].text == block.text);
        let len: usize = text::text_len(&self.blocks[ix].text);
        let a: usize = text::text_snap(
            &self.blocks[ix].text,
            if start < len {
                start
            } else {
                len
            },
        );
        let b: usize = text::text_snap(
            &self.blocks[ix].text,
            if end < len {
                end
            } else {
                len
            },
        );
        let ghost was = self.blocks@;
        let block = &mut self.blocks[ix];
        block.input = Selection { cursor: b, start: a, end: b };
        assert(crate::view::block_views(self.blocks@) =~= crate::view::block_views(was).update(
            ix as int,
            self.blocks@[ix as int]@,
        ));
        proof {
            crate::view::lemma_with_block_wf(there, ix as int, self@.blocks[ix as int]);
        }
        assert(self@ =~= there.with_block(ix as int, self@.blocks[ix as int]));
        self.emit(Effect::SelectInput { block: id, start, end });
        self.emit(Effect::Notify);
    }

    /// Put the caret in the last block of the document.
    pub fn focus_last_block(&mut self)
        ensures
            final(self)@ == old(self)@.focus_last_block(),
            final(self).types() == old(self).types(),
            old(self)@.wf() ==> final(self)@.wf(),
    {
        if self.blocks.len() == 0 {
            return;
        }
        let last: usize = self.blocks.len() - 1;
        assert(self@.blocks[last as int] == self.blocks@[last as int]@);
        let id = self.blocks[last].id;
        self.focus_block(id, Caret::End);
    }

    /// Put the caret in the last block, appending a paragraph unless the last
    /// block is text with nothing in it.
    pub fn focus_trailing_block(&mut self)
        requires
            old(self)@.next_id < u64::MAX,
        ensures
            final(self)@ == old(self)@.focus_trailing_block(),
            final(self).types() == old(self).types(),
            old(self)@.wf() ==> final(self)@.wf(),
    {
        let count: usize = self.blocks.len();
        if count > 0 {
            let last: usize = count - 1;
            assert(self@.blocks[last as int] == self.blocks@[last as int]@);
            if self.caps_at(last).textual && self.blocks[last].is_empty() {
                let id = self.blocks[last].id;
                self.focus_block(id, Caret::End);
                return;
            }
        }
        let id = self.insert_block(count, BlockContent::paragraph(""));
        self.focus_block(id, Caret::End);
    }

    /// Move focus to the next or previous block of text in sight, by steps of
    /// `delta`, and answer whether there was one.
    pub fn focus_sibling(&mut self, from: usize, delta: isize, caret: Caret) -> (moved: bool)
        requires
            delta != 0,
        ensures
            final(self)@ == old(self)@.focus_sibling(from as int, delta as int, caret),
            final(self).types() == old(self).types(),
            moved == (old(self)@.sibling(from + delta, delta as int) is Some),
            old(self)@.wf() ==> final(self)@.wf(),
    {
        let mut at: i128 = from as i128 + delta as i128;
        let count: i128 = self.blocks.len() as i128;
        while 0 <= at && at < count
            invariant
                self == old(self),
                delta != 0,
                count == self.blocks@.len(),
                count <= usize::MAX,
                at <= usize::MAX + isize::MAX,
                self@.sibling(at as int, delta as int) == self@.sibling(
                    from + delta,
                    delta as int,
                ),
            decreases
                    (if at < 0 || at >= count {
                        0
                    } else if delta > 0 {
                        count - at
                    } else {
                        at + 1
                    }),
        {
            let ix: usize = at as usize;
            assert(ix == at);
            if self.caps_at(ix).textual && self.is_visible(ix) {
                assert(self@.blocks[ix as int] == self.blocks@[ix as int]@);
                let id = self.blocks[ix].id;
                self.focus_block(id, caret);
                return true;
            }
            at = at + delta as i128;
        }
        false
    }

    /// Show or hide what is nested under a toggle.
    pub fn toggle_collapsed(&mut self, id: BlockId)
        ensures
            final(self)@ == old(self)@.toggle_collapsed(id),
            final(self).types() == old(self).types(),
            old(self)@.wf() ==> final(self)@.wf(),
    {
        let ix: usize = match self.index_of(id) {
            Some(ix) => ix,
            None => {
                return;
            },
        };
        let ghost start = self@;
        let ghost was = self.blocks@;
        assert(start.blocks[ix as int] == was[ix as int]@);
        let block = &mut self.blocks[ix];
        block.attrs.collapsed = !block.attrs.collapsed;
        assert(crate::view::block_views(self.blocks@) =~= crate::view::block_views(was).update(
            ix as int,
            self.blocks@[ix as int]@,
        ));
        proof {
            if start.wf() {
                crate::view::lemma_with_block_wf(start, ix as int, self@.blocks[ix as int]);
            }
        }
        assert(self@ =~= start.with_block(ix as int, self@.blocks[ix as int]));
        self.emit(Effect::Document(DocumentChanged));
        self.emit(Effect::Notify);
    }

    /// Forget a drop target, however the drag ended.
    pub fn clear_drop_target(&mut self)
        ensures
            final(self)@ == (if old(self)@.drop_target is Some {
                EditorView { drop_target: None, ..old(self)@ }.emit(
                    crate::effect::EffectView::Notify,
                )
            } else {
                old(self)@
            }),
            final(self).types() == old(self).types(),
    {
        if self.drop_target.is_some() {
            self.drop_target = None;
            self.emit(Effect::Notify);
        }
    }
}

impl EditorView {
    /// The editor with what is nested under block `id` shown or hidden.
    pub open spec fn toggle_collapsed(self, id: BlockId) -> EditorView {
        match crate::view::find(self.blocks, id) {
            Some(ix) => {
                let block = self.blocks[ix];
                self.with_block(
                    ix,
                    crate::block::BlockView {
                        attrs: crate::block::AttrsView {
                            collapsed: !block.attrs.collapsed,
                            ..block.attrs
                        },
                        ..block
                    },
                ).emit(crate::effect::EffectView::Document).emit(
                    crate::effect::EffectView::Notify,
                )
            },
            None => self,
        }
    }
}

} // verus!
