//! What the operations on a document promise: which blocks change and how, where
//! the caret goes, and what the interface is asked for.

use vstd::prelude::*;

use crate::block::{BlockId, Selection};
use crate::effect::EffectView;
use crate::view::{Caret, EditorView};

verus! {

/// A block that is put in holds what it was made of, with its marks cut to its
/// text, nothing armed and its caret at the start. Its input is asked for with
/// that text, and a type that holds cells gets them. What is focused and
/// selected stays.
pub proof fn law_inserted(
    e: EditorView,
    ix: int,
    content: crate::block::ContentView,
    k: crate::mark::KindView,
    o: int,
)
    requires
        0 <= ix,
        0 <= e.next_id < u64::MAX,
    ensures
        ({
            let n = e.insert_block(ix, content);
            let at = if ix < e.blocks.len() {
                ix
            } else {
                e.blocks.len() as int
            };
            let block = n.blocks[at];
            let grid = (e.reg.caps)(content.ty).grid;
            &&& n.blocks.len() == e.blocks.len() + 1
            &&& forall|j: int| 0 <= j < at ==> (#[trigger] n.blocks[j]) == e.blocks[j]
            &&& forall|j: int|
                at < j < n.blocks.len() ==> (#[trigger] n.blocks[j]) == e.blocks[j - 1]
            &&& block.id.0 == e.next_id
            &&& n.next_id == e.next_id + 1
            &&& block.ty == content.ty
            &&& block.attrs == content.attrs
            &&& block.text == content.text
            &&& block.indent == content.indent
            &&& block.stored_marks is None
            &&& block.input == Selection::at(0)
            &&& block.seen == Selection::at(0)
            &&& block.rows == 1
            &&& crate::mark::covers(block.marks, k, o) <==> crate::mark::covers(
                content.marks,
                k,
                o,
            ) && o < crate::text::blen(content.text)
            &&& n.focused == e.focused
            &&& n.selected == e.selected
            &&& n.focused_cell == e.focused_cell
            &&& n.grids == (if grid {
                e.grids.push(block.id)
            } else {
                e.grids
            })
            &&& n.effects[e.effects.len() as int] == (EffectView::NewInput {
                block: block.id,
                multiline: (e.reg.caps)(content.ty).multiline,
                language: match content.attrs.language {
                    Some(language) => language,
                    None => "plaintext"@,
                },
                placeholder: (e.reg.placeholder)(content.ty, content.attrs),
                text: content.text,
            })
            &&& grid ==> n.effects[e.effects.len() as int + 1] == EffectView::RestoreGrid(block.id)
        }),
{
    crate::mark::law_clamp(content.marks, crate::text::blen(content.text), k, o);
}

/// Taking a block out takes out that one: the others stand in their order, and
/// whatever of them was focused, selected or held cells still is. A block that
/// is not there changes nothing.
pub proof fn law_removed(e: EditorView, id: BlockId, other: BlockId)
    requires
        other != id,
    ensures
        ({
            let n = e.remove_block(id);
            &&& !crate::view::known(e.blocks, id) ==> n == e
            &&& e.focused == Some(other) ==> n.focused == Some(other)
            &&& n.selected.contains(other) <==> e.selected.contains(other)
            &&& n.grids.contains(other) <==> e.grids.contains(other)
            &&& e.focused_cell matches Some(cell) ==> cell.0 == other ==> n.focused_cell
                == e.focused_cell
            &&& n.next_id == e.next_id
            &&& n.suggestion == e.suggestion
            &&& n.link_editor == e.link_editor
        }),
{
    crate::view::lemma_find(e.blocks, id);
    crate::view::lemma_without(e.grids, id);
    crate::view::lemma_without(e.selected, id);
}

/// Changing a block's type keeps its nesting where the new type is a list and
/// drops it otherwise, and keeps its caret unless the two types edit in
/// different ways: then a new input is asked for, and the caret goes to the
/// start. Its cells stay with it only where the new type holds cells.
pub proof fn law_type_changed(
    e: EditorView,
    id: BlockId,
    ty: Seq<char>,
    attrs: crate::block::AttrsView,
)
    requires
        crate::view::find(e.blocks, id) matches Some(ix) && (e.blocks[ix].ty != ty
            || e.blocks[ix].attrs != attrs),
    ensures
        ({
            let n = e.set_block_type(id, ty, attrs);
            let ix = crate::view::find(e.blocks, id)->0;
            let (was, now) = (e.blocks[ix], n.blocks[ix]);
            let caps = (e.reg.caps)(ty);
            let fresh = (e.reg.caps)(was.ty).multiline != caps.multiline;
            &&& now.indent == (if caps.list {
                was.indent
            } else {
                0
            })
            &&& now.input == (if fresh {
                Selection::at(0)
            } else {
                was.input
            })
            &&& now.stored_marks == was.stored_marks
            &&& now.marks == was.marks
            &&& now.text == was.text
            &&& now.rows == was.rows
            &&& n.grids.contains(id) <==> e.grids.contains(id) && caps.grid
            &&& caps.grid ==> n.grids == e.grids && n.focused_cell == e.focused_cell
            &&& !caps.grid ==> !(n.focused_cell matches Some(cell) && cell.0 == id)
            &&& n.focused == e.focused
            &&& n.selected == e.selected
            &&& n.effects[e.effects.len() as int] == EffectView::ResetFit(id)
            &&& fresh ==> n.effects[e.effects.len() as int + 1] == (EffectView::NewInput {
                block: was.id,
                multiline: caps.multiline,
                language: match attrs.language {
                    Some(language) => language,
                    None => "plaintext"@,
                },
                placeholder: (e.reg.placeholder)(ty, attrs),
                text: was.text,
            })
            &&& !fresh ==> n.effects[e.effects.len() as int + 1] == (EffectView::SetPlaceholder {
                block: id,
                text: (e.reg.placeholder)(ty, attrs),
            })
        }),
{
    crate::view::lemma_find(e.blocks, id);
    crate::view::lemma_without(e.grids, id);
}

/// Collapsing turns a toggle over and changes nothing else of it, nor any other
/// block.
pub proof fn law_toggled(e: EditorView, id: BlockId)
    requires
        crate::view::known(e.blocks, id),
    ensures
        ({
            let n = e.toggle_collapsed(id);
            let ix = crate::view::find(e.blocks, id)->0;
            &&& n.blocks.len() == e.blocks.len()
            &&& forall|j: int|
                0 <= j < e.blocks.len() && j != ix ==> (#[trigger] n.blocks[j]) == e.blocks[j]
            &&& n.blocks[ix].attrs.collapsed != e.blocks[ix].attrs.collapsed
            &&& n.blocks[ix] == (crate::block::BlockView {
                attrs: crate::block::AttrsView {
                    collapsed: n.blocks[ix].attrs.collapsed,
                    ..e.blocks[ix].attrs
                },
                ..e.blocks[ix]
            })
            &&& n.focused == e.focused
            &&& n.selected == e.selected
            &&& crate::laws::announced(e, n)
        }),
{
    crate::view::lemma_find(e.blocks, id);
    let n = e.toggle_collapsed(id);
    assert(n.effects[e.effects.len() as int] == EffectView::Document);
}

/// Whether `at` is the last place at or before `o` where a caret can stand in
/// `text`.
pub open spec fn is_last_place(text: Seq<char>, o: int, at: int) -> bool {
    &&& crate::text::boundary(text, at)
    &&& 0 <= at <= o
    &&& forall|p: int| at < p <= o ==> !#[trigger] crate::text::boundary(text, p)
}

proof fn lemma_last_place(text: Seq<char>, o: int)
    requires
        0 <= o,
    ensures
        is_last_place(text, o, crate::text::snap(text, o)),
    decreases o,
{
    crate::text::lemma_snap(text, o);
    if o > 0 && !crate::text::boundary(text, o) {
        lemma_last_place(text, o - 1);
    }
}

/// The caret goes where it is sent: to the start, the end, or the offset that is
/// named, cut to the text and moved back onto a character. The input is asked
/// for it. Only the caret of that block moves.
pub proof fn law_caret_goes(e: EditorView, id: BlockId, caret: Caret)
    requires
        e.wf(),
        crate::view::find(e.blocks, id) matches Some(ix) && (e.reg.caps)(e.blocks[ix].ty).textual,
    ensures
        ({
            let n = e.focus_block(id, caret);
            let ix = crate::view::find(e.blocks, id)->0;
            let len = crate::text::blen(e.blocks[ix].text);
            let wanted = match caret {
                Caret::Start => 0,
                Caret::End => len,
                Caret::At(offset) => if offset <= len {
                    offset as int
                } else {
                    len
                },
            };
            let input = n.blocks[ix].input;
            &&& is_last_place(e.blocks[ix].text, wanted, input.cursor as int)
            &&& input.start == input.cursor
            &&& input.end == input.cursor
            &&& n.blocks[ix] == (crate::block::BlockView { input, ..e.blocks[ix] })
            &&& n.blocks.len() == e.blocks.len()
            &&& forall|j: int|
                0 <= j < e.blocks.len() && j != ix ==> (#[trigger] n.blocks[j]) == e.blocks[j]
            &&& n.effects == e.effects.push(
                EffectView::FocusInput { block: id, caret: wanted },
            ).push(EffectView::Notify)
            &&& n.focused == Some(id)
            &&& n.selected.len() == 0
            &&& n.suggestion == e.suggestion
            &&& n.link_editor == e.link_editor
        }),
{
    crate::view::lemma_find(e.blocks, id);
    let ix = crate::view::find(e.blocks, id)->0;
    let text = e.blocks[ix].text;
    let wanted = crate::focus::caret_in(caret, crate::text::blen(text));
    crate::text::lemma_ends(text);
    lemma_last_place(text, wanted);
    crate::text::lemma_snap(text, wanted);
}

/// A block that holds no text is selected as a node instead, and no block keeps
/// the caret.
pub proof fn law_node_selected(e: EditorView, id: BlockId, caret: Caret)
    requires
        crate::view::find(e.blocks, id) matches Some(ix) && !(e.reg.caps)(
            e.blocks[ix].ty,
        ).textual,
    ensures
        ({
            let n = e.focus_block(id, caret);
            &&& n == (EditorView {
                focused: None,
                selected: seq![id],
                effects: e.effects.push(EffectView::FocusEditor).push(EffectView::Notify),
                ..e
            })
        }),
{
}

/// Selecting a stretch of a block's text selects exactly that stretch, each end
/// cut to the text and moved back onto a character, with the caret at its end,
/// and focuses the block. Only that block's selection changes.
pub proof fn law_stretch_selected(e: EditorView, ix: int, start: usize, end: usize)
    requires
        e.wf(),
        0 <= ix < e.blocks.len(),
        (e.reg.caps)(e.blocks[ix].ty).textual,
    ensures
        ({
            let n = e.select_text_in_block(ix, start, end);
            let text = e.blocks[ix].text;
            let len = crate::text::blen(text);
            let input = n.blocks[ix].input;
            &&& is_last_place(
                text,
                if start < len {
                    start as int
                } else {
                    len
                },
                input.start as int,
            )
            &&& is_last_place(
                text,
                if end < len {
                    end as int
                } else {
                    len
                },
                input.end as int,
            )
            &&& input.cursor == input.end
            &&& n.blocks[ix] == (crate::block::BlockView { input, ..e.blocks[ix] })
            &&& n.blocks.len() == e.blocks.len()
            &&& forall|j: int|
                0 <= j < e.blocks.len() && j != ix ==> (#[trigger] n.blocks[j]) == e.blocks[j]
            &&& n.focused == Some(e.blocks[ix].id)
            &&& n.selected.len() == 0
            &&& n.effects[n.effects.len() - 2] == (EffectView::SelectInput {
                block: e.blocks[ix].id,
                start: start as int,
                end: end as int,
            })
        }),
{
    let id = e.blocks[ix].id;
    assert(crate::view::is_index(e.blocks, id, ix));
    crate::view::lemma_find(e.blocks, id);
    law_caret_goes(e, id, Caret::At(start));
    let text = e.blocks[ix].text;
    let len = crate::text::blen(text);
    crate::text::lemma_ends(text);
    let a = if start < len { start as int } else { len };
    let b = if end < len { end as int } else { len };
    lemma_last_place(text, a);
    lemma_last_place(text, b);
    crate::text::lemma_snap(text, a);
    crate::text::lemma_snap(text, b);
}

/// The last block is focused at its end.
pub proof fn law_last_focused(e: EditorView)
    ensures
        e.blocks.len() > 0 ==> e.focus_last_block() == e.focus_block(
            e.blocks[e.blocks.len() - 1].id,
            Caret::End,
        ),
        e.blocks.len() == 0 ==> e.focus_last_block() == e,
{
}

/// The space under the document leads into an empty last block of text: the one
/// that is there, or a paragraph put in behind the last block.
pub proof fn law_trailing(e: EditorView)
    requires
        e.wf(),
        e.next_id < u64::MAX,
        (e.reg.caps)("paragraph"@).textual,
    ensures
        ({
            let n = e.focus_trailing_block();
            let last = e.blocks.len() - 1;
            let there = e.blocks.len() > 0 && (e.reg.caps)(e.blocks[last].ty).textual
                && e.blocks[last].text.len() == 0;
            let end = n.blocks[n.blocks.len() - 1];
            &&& n.blocks.len() == e.blocks.len() + (if there {
                0int
            } else {
                1int
            })
            &&& end.text.len() == 0
            &&& n.focused == Some(end.id)
            &&& there ==> end.id == e.blocks[last].id
            &&& !there ==> end.ty == "paragraph"@ && end.id.0 == e.next_id
            &&& forall|j: int|
                0 <= j < e.blocks.len() ==> (#[trigger] n.blocks[j]).content()
                    == e.blocks[j].content()
        }),
{
    let last = e.blocks.len() - 1;
    reveal_strlit("");
    if last >= 0 && e.caps_at(last).textual && e.blocks[last].text.len() == 0 {
        assert(crate::view::is_index(e.blocks, e.blocks[last].id, last));
        crate::view::lemma_find(e.blocks, e.blocks[last].id);
    } else {
        let content = crate::block::plain_content(crate::block::PARAGRAPH@, ""@);
        let put = e.insert_block(e.blocks.len() as int, content);
        let id = BlockId(e.next_id as u64);
        crate::laws::law_insert(e, e.blocks.len() as int, content);
        crate::view::lemma_find(put.blocks, id);
        assert(forall|j: int| 0 <= j < e.blocks.len() ==> (#[trigger] put.blocks[j]) == e.blocks[j]);
    }
}

/// Moving on from a block goes to another one: the nearest below it or above it
/// that is text and in sight, or nowhere.
pub proof fn law_moves_on(e: EditorView, from: int, forward: bool, caret: Caret)
    requires
        0 <= from < e.blocks.len(),
    ensures
        ({
            let delta: int = if forward {
                1
            } else {
                -1
            };
            let n = e.focus_sibling(from, delta, caret);
            let open = |i: int|
                (e.reg.caps)(e.blocks[i].ty).textual && crate::view::visible(e.blocks, i);
            ||| n == e && forall|i: int|
                0 <= i < e.blocks.len() && (if forward {
                    from < i
                } else {
                    i < from
                }) ==> !#[trigger] open(i)
            ||| exists|to: int|
                0 <= to < e.blocks.len() && (if forward {
                    from < to
                } else {
                    to < from
                }) && #[trigger] open(to) && n == e.focus_block(e.blocks[to].id, caret)
                    && forall|i: int|
                    (from < i < to || to < i < from) ==> !#[trigger] open(i)
        }),
{
    let delta: int = if forward {
        1
    } else {
        -1
    };
    let at = from + delta;
    let open = |i: int|
        (e.reg.caps)(e.blocks[i].ty).textual && crate::view::visible(e.blocks, i);
    if 0 <= at < e.blocks.len() {
        crate::laws::law_sibling(e, at, forward);
        assert(forall|i: int|
            #![trigger e.caps_at(i)]
            open(i) <==> e.caps_at(i).textual && crate::view::visible(e.blocks, i));
        if let Some(to) = e.sibling(at, delta) {
            assert(open(to));
            assert forall|i: int| (from < i < to || to < i < from) implies !#[trigger] open(i) by {
                let _ = e.caps_at(i);
            }
        } else {
            assert forall|i: int|
                0 <= i < e.blocks.len() && (if forward {
                    from < i
                } else {
                    i < from
                }) implies !#[trigger] open(i) by {
                let _ = e.caps_at(i);
            }
        }
    }
}

/// Commands act on the focused block and, where none is, on the first one.
pub proof fn law_active(e: EditorView)
    ensures
        e.active_id() == (match e.focused {
            Some(id) => Some(id),
            None => if e.blocks.len() > 0 {
                Some(e.blocks[0].id)
            } else {
                None
            },
        }),
        match e.active_index() {
            Some(ix) => 0 <= ix < e.blocks.len() && Some(e.blocks[ix].id) == e.active_id()
                && forall|j: int|
                0 <= j < ix ==> Some((#[trigger] e.blocks[j]).id) != e.active_id(),
            None => e.active_id() is None || forall|j: int|
                0 <= j < e.blocks.len() ==> Some((#[trigger] e.blocks[j]).id) != e.active_id(),
        },
        e.focused is None && e.blocks.len() > 0 ==> e.active_index() == Some(0int),
{
    if let Some(id) = e.active_id() {
        crate::view::lemma_find(e.blocks, id);
        if e.focused is None && e.blocks.len() > 0 {
            assert(crate::view::is_index(e.blocks, id, 0));
        }
    }
}

/// The block that has the keyboard is the first whose input says so.
pub proof fn law_keyboard(flags: Seq<bool>)
    ensures
        match crate::focus::first_true(flags) {
            Some(i) => 0 <= i < flags.len() && flags[i] && forall|j: int|
                0 <= j < i ==> !#[trigger] flags[j],
            None => forall|j: int| 0 <= j < flags.len() ==> !#[trigger] flags[j],
        },
    decreases flags.len(),
{
    if flags.len() > 0 {
        let rest = flags.drop_last();
        law_keyboard(rest);
        match crate::focus::first_true(rest) {
            Some(i) => {
                assert forall|j: int| 0 <= j < i implies !#[trigger] flags[j] by {
                    assert(!rest[j]);
                }
            },
            None => {
                assert forall|j: int| 0 <= j < rest.len() implies !#[trigger] flags[j] by {
                    assert(!rest[j]);
                }
            },
        }
    }
}

/// Whether `n` is `e` with the hint of every block brought up to date, top to
/// bottom: a block hints while it is focused or where its type always does, and
/// is told to hint nothing otherwise.
pub open spec fn hints_follow(e: EditorView, n: EditorView) -> bool {
    forall|i: int|
        0 <= i < n.blocks.len() ==> (#[trigger] n.effects[e.effects.len() + i]) == (
        EffectView::SetPlaceholder {
            block: n.blocks[i].id,
            text: if n.focused == Some(n.blocks[i].id) || (n.reg.placeholder_always)(
                n.blocks[i].ty,
            ) {
                (n.reg.placeholder)(n.blocks[i].ty, n.blocks[i].attrs)
            } else {
                Seq::empty()
            },
        })
}

/// The editor adopts the block that has the keyboard, drops what was selected as
/// nodes and brings the hints up to date. With the keyboard elsewhere it lets go
/// of its block, unless the link editor or a comment is open over it. Where the
/// block that has the keyboard is focused already nothing happens.
pub proof fn law_focus_adopted(e: EditorView, keyboard: Seq<bool>)
    requires
        keyboard.len() == e.blocks.len(),
    ensures
        ({
            let n = e.refresh_focus(keyboard);
            let held = match crate::focus::first_true(keyboard) {
                Some(ix) => Some(e.blocks[ix].id),
                None => None,
            };
            let keeps = held == e.focused || (held is None && (e.link_editor is Some
                || e.comment_draft));
            &&& keeps ==> n == e
            &&& !keeps ==> n.focused == held && hints_follow(e, n)
            &&& !keeps && held is Some ==> n.selected.len() == 0 && n.effects.len()
                == e.effects.len() + e.blocks.len()
            &&& !keeps && held is None ==> n.selected == e.selected && n.effects.len()
                == e.effects.len() + e.blocks.len() + 1 && n.effects[n.effects.len() - 1]
                == EffectView::Notify
            &&& n.blocks == e.blocks
            &&& n.suggestion == e.suggestion
            &&& n.link_editor == e.link_editor
        }),
{
    reveal_strlit("");
    assert(""@ =~= Seq::<char>::empty());
}

/// A block is shown exactly where no collapsed block above holds it: one that is
/// less deep than it and than everything between the two.
pub proof fn law_shown_exactly(blocks: Seq<crate::block::BlockView>, ix: int)
    requires
        0 <= ix < blocks.len(),
    ensures
        crate::view::visible(blocks, ix) <==> forall|j: int|
            0 <= j < ix && (#[trigger] blocks[j]).attrs.collapsed ==> exists|k: int|
                j < k <= ix && (#[trigger] blocks[k]).indent <= blocks[j].indent,
{
    if crate::view::visible(blocks, ix) {
        assert forall|j: int| 0 <= j < ix && (#[trigger] blocks[j]).attrs.collapsed implies exists|
            k: int,
        |
            j < k <= ix && (#[trigger] blocks[k]).indent <= blocks[j].indent by {
            assert(!crate::view::encloses(blocks, j, ix));
        }
    } else {
        let j = choose|j: int| #[trigger]
            crate::view::encloses(blocks, j, ix) && blocks[j].attrs.collapsed;
        assert(blocks[j].attrs.collapsed);
    }
}

/// A list item counts on from the item above it in its list: the nearest block
/// above that is not deeper, where that is as deep and of the same type. An
/// item that starts at a number of its own counts from there, and one with no
/// item above it from its start or from one.
pub proof fn law_counts(blocks: Seq<crate::block::BlockView>, ix: int, j: int)
    requires
        0 <= j < ix < blocks.len(),
        forall|k: int| j < k < ix ==> blocks[ix].indent < (#[trigger] blocks[k]).indent,
        blocks[j].indent <= blocks[ix].indent,
    ensures
        ({
            let own = match blocks[ix].attrs.start {
                Some(start) => start as int,
                None => 1,
            };
            let above = if blocks[j].indent == blocks[ix].indent && blocks[j].ty == blocks[ix].ty {
                match blocks[j].attrs.start {
                    Some(start) => start as int,
                    None => crate::view::ordinal(blocks, j),
                }
            } else {
                0
            };
            crate::view::ordinal(blocks, ix) == own + above
        }),
{
    if blocks[j].indent == blocks[ix].indent && blocks[j].ty == blocks[ix].ty {
        assert(crate::view::prev_item(blocks, ix, j));
        crate::view::lemma_counted(blocks, ix, j);
    } else {
        assert forall|i: int| !crate::view::prev_item(blocks, ix, i) by {
            if crate::view::prev_item(blocks, ix, i) {
                if i < j {
                    assert(blocks[ix].indent < blocks[j].indent);
                } else if j < i {
                    assert(blocks[ix].indent < blocks[i].indent);
                }
            }
        }
    }
}

/// The first item counts from its start or from one.
pub proof fn law_counts_first(blocks: Seq<crate::block::BlockView>, ix: int)
    requires
        0 <= ix < blocks.len(),
        forall|k: int| 0 <= k < ix ==> blocks[ix].indent < (#[trigger] blocks[k]).indent,
    ensures
        crate::view::ordinal(blocks, ix) == (match blocks[ix].attrs.start {
            Some(start) => start as int,
            None => 1,
        }),
{
    assert forall|i: int| !crate::view::prev_item(blocks, ix, i) by {
        if crate::view::prev_item(blocks, ix, i) {
            assert(blocks[ix].indent < blocks[i].indent);
        }
    }
}

/// A row tells its block what it is: its place and number, whether it is
/// focused, selected or holds cells, and how far it stands from the one above:
/// not at all for the first, a little where it follows one of its own type that
/// it stands close to, and as far as its type asks otherwise.
pub proof fn law_row_tells(e: EditorView, ix: int, row: crate::render::BlockRow)
    requires
        0 <= ix < e.blocks.len(),
        crate::render::is_row(e, ix, row),
    ensures
        row.context.id == e.blocks[ix].id,
        row.context.ix == ix,
        row.context.indent == e.blocks[ix].indent,
        row.context.grid <==> e.grids.contains(e.blocks[ix].id),
        row.context.selected <==> e.selected.contains(e.blocks[ix].id),
        row.context.focused <==> e.focused == Some(e.blocks[ix].id),
        row.context.reveal_controls <==> e.always_show_gutter,
        row.context.ordinal == crate::view::ordinal(e.blocks, ix),
        row.margin == crate::render::MarginTop::Flush <==> ix == 0,
        row.margin == crate::render::MarginTop::Tight <==> ix > 0 && e.blocks[ix - 1].ty
            == e.blocks[ix].ty && (e.reg.collapse)(e.blocks[ix].ty, e.blocks[ix].attrs),
{
}

/// A block's input that reports its caret is believed where it holds the text of
/// the block. Listeners hear of it where the caret is elsewhere than last
/// reported, the input has the keyboard, holds that text and is not composing;
/// the block is the focused one then.
pub proof fn law_observed_exactly(
    e: EditorView,
    id: BlockId,
    next: Selection,
    focused: bool,
    value: Seq<char>,
    composing: bool,
)
    requires
        crate::view::known(e.blocks, id),
    ensures
        ({
            let n = e.on_input_observed(id, next, focused, value, composing);
            let ix = crate::view::find(e.blocks, id)->0;
            let (was, now) = (e.blocks[ix], n.blocks[ix]);
            let heard = was.seen != next && focused && value == was.text && !composing;
            &&& now.seen == next
            &&& now.input == (if value == was.text {
                next
            } else {
                was.input
            })
            &&& now == (crate::block::BlockView { seen: now.seen, input: now.input, ..was })
            &&& n.effects == (if heard {
                e.effects.push(EffectView::Selection)
            } else {
                e.effects
            })
            &&& n.focused == (if heard {
                Some(id)
            } else {
                e.focused
            })
            &&& n.blocks.len() == e.blocks.len()
            &&& forall|j: int|
                0 <= j < e.blocks.len() && j != ix ==> (#[trigger] n.blocks[j]) == e.blocks[j]
            &&& n.selected == e.selected
        }),
{
    crate::view::lemma_find(e.blocks, id);
}

/// Every line takes a row and one more for each time it breaks, and an empty
/// line one row.
pub proof fn law_rows(lines: Seq<Seq<char>>, line: Seq<char>, wraps: Seq<usize>)
    ensures
        crate::edit::row_count(Seq::empty(), wraps) == 0,
        crate::edit::row_count(lines.push(line), wraps) == crate::edit::row_count(lines, wraps) + (
        if line.len() == 0 {
            1
        } else {
            1 + wraps[lines.len() as int]
        }),
{
    assert(lines.push(line).drop_last() =~= lines);
}

/// Measuring a block again counts its rows, one where there is no width to wrap
/// it at, and changes nothing else.
pub proof fn law_measured(e: EditorView, id: BlockId, wraps: Option<Seq<usize>>)
    requires
        crate::view::known(e.blocks, id),
    ensures
        ({
            let n = e.remeasure(id, wraps);
            let ix = crate::view::find(e.blocks, id)->0;
            &&& n == (EditorView { blocks: n.blocks, ..e })
            &&& n.blocks[ix] == (crate::block::BlockView {
                rows: n.blocks[ix].rows,
                ..e.blocks[ix]
            })
            &&& n.blocks[ix].rows == (match wraps {
                Some(wraps) => crate::edit::row_count(
                    crate::text::lines(e.blocks[ix].text),
                    wraps,
                ),
                None => 1,
            })
            &&& n.blocks.len() == e.blocks.len()
            &&& forall|j: int|
                0 <= j < e.blocks.len() && j != ix ==> (#[trigger] n.blocks[j]) == e.blocks[j]
        }),
{
    crate::view::lemma_find(e.blocks, id);
}

/// Every block is painted or measured again, once each and top to bottom; what
/// was painted is shown. Nothing else happens.
pub proof fn law_all_again(e: EditorView, i: int)
    requires
        0 <= i < e.blocks.len(),
    ensures
        ({
            let painted = e.reapply_decorations();
            let measured = e.remeasure_all();
            let at = e.effects.len() + i;
            &&& painted == (EditorView { effects: painted.effects, ..e })
            &&& measured == (EditorView { effects: measured.effects, ..e })
            &&& painted.effects.len() == e.effects.len() + e.blocks.len() + 1
            &&& painted.effects[painted.effects.len() - 1] == EffectView::Notify
            &&& measured.effects.len() == e.effects.len() + e.blocks.len()
            &&& painted.effects[at] == (EffectView::Decorate {
                block: e.blocks[i].id,
                runs: crate::view::decoration_runs(e.reg, e.blocks[i]),
            })
            &&& measured.effects[at] == EffectView::Remeasure(e.blocks[i].id)
        }),
{
}

proof fn lemma_kinds_over(m: Seq<crate::mark::MarkView>, o: int, k: crate::mark::KindView)
    ensures
        crate::mark::kinds_at(m, o).contains(k) <==> crate::mark::covers(m, k, o),
    decreases m.len(),
{
    if m.len() > 0 {
        let prior = m.drop_last();
        let mark = m.last();
        let up = crate::mark::kinds_at(prior, o);
        let all = crate::mark::kinds_at(m, o);
        lemma_kinds_over(prior, o, k);
        if all.contains(k) {
            let j = choose|j: int| 0 <= j < all.len() && all[j] == k;
            if j < up.len() {
                assert(up[j] == k);
                let i = choose|i: int|
                    0 <= i < prior.len() && (#[trigger] prior[i]).kind == k && prior[i].start <= o
                        < prior[i].end;
                assert(m[i] == prior[i]);
            } else {
                assert(m[m.len() - 1] == mark);
            }
        }
        if crate::mark::covers(m, k, o) {
            let i = choose|i: int|
                0 <= i < m.len() && (#[trigger] m[i]).kind == k && m[i].start <= o < m[i].end;
            if i < prior.len() {
                assert(prior[i] == m[i]);
                let j = choose|j: int| 0 <= j < up.len() && up[j] == k;
                assert(all[j] == k);
            } else {
                assert(all[all.len() - 1] == k);
            }
        }
    }
}

/// The style of text shows each of its marks: it is bold, italic or struck
/// through exactly where one of them says so, and underlined for an underline,
/// a link or a comment. Unmarked text has none.
pub proof fn law_style_shows(kinds: Seq<crate::mark::KindView>)
    ensures
        ({
            let style = crate::style::style_of(kinds);
            &&& style.bold <==> kinds.contains(crate::mark::KindView::Bold)
            &&& style.italic <==> kinds.contains(crate::mark::KindView::Italic)
            &&& style.strikethrough <==> kinds.contains(crate::mark::KindView::Strike)
            &&& style.underline is Some <==> exists|i: int|
                0 <= i < kinds.len() && ((#[trigger] kinds[i]) is Underline || kinds[i] is Link
                    || kinds[i] is Comment)
            &&& style.background_color is Some <==> exists|i: int|
                0 <= i < kinds.len() && ((#[trigger] kinds[i]) is Code || kinds[i] is Highlight
                    || kinds[i] is Mention || kinds[i] is Comment)
            &&& style.color is Some <==> exists|i: int|
                0 <= i < kinds.len() && ((#[trigger] kinds[i]) is Code || kinds[i] is Link
                    || kinds[i] is TextColor || kinds[i] is Mention)
        }),
    decreases kinds.len(),
{
    if kinds.len() > 0 {
        let rest = kinds.drop_last();
        law_style_shows(rest);
        assert(kinds =~= rest.push(kinds.last()));
        assert(forall|i: int| 0 <= i < rest.len() ==> (#[trigger] kinds[i]) == rest[i]);
        assert(kinds[kinds.len() - 1] == kinds.last());
        assert forall|k: crate::mark::KindView|
            kinds.contains(k) <==> rest.contains(k) || kinds.last() == k by {
            if rest.contains(k) {
                let i = choose|i: int| 0 <= i < rest.len() && rest[i] == k;
                assert(kinds[i] == k);
            }
        }
    }
}

/// A later mark is painted over an earlier one: the last of the marks gives its
/// colors, its line and its weight, and leaves what it does not set as the
/// others painted it.
pub proof fn law_style_over(
    kinds: Seq<crate::mark::KindView>,
    highlight: Option<crate::mark::HighlightColor>,
    color: crate::mark::TextColor,
    word: Seq<char>,
    thread: crate::mark::ThreadId,
)
    ensures
        ({
            let under = crate::style::style_of(kinds);
            let line = Some(crate::style::UnderlineStyle { color: None });
            let over = |k: crate::mark::KindView| crate::style::style_of(kinds.push(k));
            &&& over(crate::mark::KindView::Bold) == (crate::style::HighlightStyle {
                bold: true,
                ..under
            })
            &&& over(crate::mark::KindView::Italic) == (crate::style::HighlightStyle {
                italic: true,
                ..under
            })
            &&& over(crate::mark::KindView::Underline) == (crate::style::HighlightStyle {
                underline: line,
                ..under
            })
            &&& over(crate::mark::KindView::Strike) == (crate::style::HighlightStyle {
                strikethrough: true,
                ..under
            })
            &&& over(crate::mark::KindView::Code) == (crate::style::HighlightStyle {
                background_color: Some(crate::style::Tint::CodeBackground),
                color: Some(crate::style::Tint::CodeForeground),
                ..under
            })
            &&& over(crate::mark::KindView::Link(word)) == (crate::style::HighlightStyle {
                color: Some(crate::style::Tint::Link),
                underline: line,
                ..under
            })
            &&& over(crate::mark::KindView::Highlight(highlight)) == (
            crate::style::HighlightStyle {
                background_color: Some(crate::style::Tint::Highlight(highlight)),
                ..under
            })
            &&& over(crate::mark::KindView::TextColor(color)) == (crate::style::HighlightStyle {
                color: Some(crate::style::Tint::Text(color)),
                ..under
            })
            &&& over(crate::mark::KindView::Mention(word)) == (crate::style::HighlightStyle {
                color: Some(crate::style::Tint::Primary),
                background_color: Some(crate::style::Tint::Accent),
                ..under
            })
            &&& over(crate::mark::KindView::Comment(thread)) == (crate::style::HighlightStyle {
                background_color: Some(crate::style::Tint::CommentFill),
                underline: Some(
                    crate::style::UnderlineStyle {
                        color: Some(crate::style::Tint::CommentAccent),
                    },
                ),
                ..under
            })
            &&& over(crate::mark::KindView::Superscript) == under
            &&& over(crate::mark::KindView::Subscript) == under
        }),
{
    assert forall|k: crate::mark::KindView| (#[trigger] kinds.push(k)).drop_last() == kinds by {
        assert(kinds.push(k).drop_last() =~= kinds);
    }
}

/// A block is painted byte by byte as it is marked: a byte that carries a mark
/// lies in a run whose style is that of the marks over it, in order, and a byte
/// in no run carries none. A block that its type strikes through is painted so
/// from end to end.
pub proof fn law_painted(
    reg: crate::block::RegistryView,
    block: crate::block::BlockView,
    o: int,
    k: crate::mark::KindView,
)
    requires
        block.wf(),
        0 <= o < crate::text::blen(block.text),
    ensures
        ({
            let runs = crate::view::decoration_runs(reg, block);
            if (reg.strikethrough)(block.ty, block.attrs) {
                runs.len() == 1 && runs[0].start == 0 && runs[0].end == crate::text::blen(
                    block.text,
                ) && runs[0].style.strikethrough && !runs[0].style.bold
            } else {
                &&& crate::mark::covers(block.marks, k, o) ==> exists|i: int|
                    0 <= i < runs.len() && (#[trigger] runs[i]).start <= o < runs[i].end
                &&& forall|i: int|
                    0 <= i < runs.len() && (#[trigger] runs[i]).start <= o < runs[i].end
                        ==> runs[i].style == crate::style::style_of(
                        crate::mark::kinds_at(block.marks, o),
                    )
            }
        }),
        crate::mark::kinds_at(block.marks, o).contains(k) <==> crate::mark::covers(
            block.marks,
            k,
            o,
        ),
{
    let len = crate::text::blen(block.text);
    let runs = crate::view::decoration_runs(reg, block);
    lemma_kinds_over(block.marks, o, k);
    if (reg.strikethrough)(block.ty, block.attrs) {
        let kinds = seq![crate::mark::KindView::Strike];
        law_style_shows(kinds);
        assert(kinds[0] == crate::mark::KindView::Strike);
        assert(!kinds.contains(crate::mark::KindView::Bold));
        assert(kinds.contains(crate::mark::KindView::Strike));
    } else {
        let all = crate::mark::mark_runs(block.marks, len);
        crate::mark::law_runs(block.marks, len);
        assert forall|i: int|
            0 <= i < runs.len() && (#[trigger] runs[i]).start <= o < runs[i].end implies runs[i].style
            == crate::style::style_of(crate::mark::kinds_at(block.marks, o)) by {
            assert(0 <= all[i].start < all[i].end <= len);
            assert(crate::mark::in_run(all, i, o));
        }
        if crate::mark::covers(block.marks, k, o) {
            assert(crate::mark::kinds_at(block.marks, o).len() > 0);
            let i = choose|i: int| crate::mark::in_run(all, i, o);
            assert(0 <= all[i].start < all[i].end <= len);
            assert(runs[i].start <= o < runs[i].end);
        }
    }
}

/// An editor that is given nothing holds one empty paragraph, with nothing
/// focused, selected or open.
pub proof fn law_new(reg: crate::block::RegistryView)
    ensures
        ({
            let e = crate::view::editor_with(reg, Seq::empty());
            &&& e == crate::view::new_editor(reg)
            &&& e.blocks.len() == 1
            &&& e.blocks[0].ty == "paragraph"@
            &&& e.blocks[0].text.len() == 0
            &&& e.blocks[0].marks.len() == 0
            &&& e.blocks[0].indent == 0
            &&& e.focused is None
            &&& e.selected.len() == 0
            &&& e.suggestion is None
            &&& e.menu_source is BuiltIn
            &&& e.input_rule_mode == crate::input_rules::InputRuleMode::BuiltIn
            &&& e.link_editor is None
            &&& e.toolbar is None
            &&& !e.comment_draft
            &&& e.drop_target is None
            &&& e.mouse_anchor is None
            &&& e.reg == reg
        }),
{
    reveal_strlit("");
}

/// Taking an id out of a list keeps the others in their order.
pub proof fn law_without(ids: Seq<BlockId>, last: BlockId, id: BlockId)
    ensures
        crate::view::without(Seq::empty(), id).len() == 0,
        crate::view::without(ids.push(last), id) == (if last == id {
            crate::view::without(ids, id)
        } else {
            crate::view::without(ids, id).push(last)
        }),
{
    assert(ids.push(last).drop_last() =~= ids);
}

/// The lines of a text are what stands between its line breaks: none holds one,
/// and joined again they are the text.
pub proof fn law_lines(s: Seq<char>)
    ensures
        crate::text::lines(s).len() > 0,
        crate::text::join_lines(crate::text::lines(s)) == s,
        forall|i: int|
            0 <= i < crate::text::lines(s).len() ==> !(#[trigger] crate::text::lines(
                s,
            )[i]).contains('\n'),
{
    crate::text::lemma_lines_from(s, 0);
    assert(s.skip(0) =~= s);
}

/// A trimmed text is the stretch between the white space at its ends: what is
/// left neither begins nor ends with any, and all that was cut off is.
pub proof fn law_trim(s: Seq<char>)
    ensures
        exists|a: int, b: int| #[trigger] trims_to(s, a, b),
{
    let tail = crate::text::trim_start(s);
    lemma_trim_start(s);
    let a = s.len() - tail.len();
    crate::menu_laws::lemma_trim_end_prefix(tail, 0);
    let kept = crate::text::trim_end(tail);
    let b = a + kept.len();
    assert(crate::text::trim(s) =~= s.subrange(a, b));
    assert forall|i: int| b <= i < s.len() implies crate::text::is_white(#[trigger] s[i]) by {
        assert(tail[i - a] == s[i]);
        crate::menu_laws::lemma_trim_end_prefix(tail, i - a);
    }
    if a < b {
        assert(s[a] == tail[0]);
        assert(s[b - 1] == kept[kept.len() - 1]);
    }
    assert(trims_to(s, a, b));
}

/// Whether `s` trimmed is the stretch `a..b` of its characters.
pub open spec fn trims_to(s: Seq<char>, a: int, b: int) -> bool {
    &&& 0 <= a <= b <= s.len()
    &&& crate::text::trim(s) == s.subrange(a, b)
    &&& forall|i: int| 0 <= i < a ==> crate::text::is_white(#[trigger] s[i])
    &&& forall|i: int| b <= i < s.len() ==> crate::text::is_white(#[trigger] s[i])
    &&& a < b ==> !crate::text::is_white(s[a]) && !crate::text::is_white(s[b - 1])
}

proof fn lemma_trim_start(s: Seq<char>)
    ensures
        ({
            let tail = crate::text::trim_start(s);
            let a = s.len() - tail.len();
            &&& tail.len() <= s.len()
            &&& tail == s.skip(a)
            &&& forall|i: int| 0 <= i < a ==> crate::text::is_white(#[trigger] s[i])
            &&& tail.len() > 0 ==> !crate::text::is_white(tail[0])
        }),
    decreases s.len(),
{
    let tail = crate::text::trim_start(s);
    let a = s.len() - tail.len();
    if s.len() > 0 && crate::text::is_white(s[0]) {
        let rest = s.drop_first();
        lemma_trim_start(rest);
        assert(tail =~= s.skip(a));
        assert forall|i: int| 0 <= i < a implies crate::text::is_white(#[trigger] s[i]) by {
            if i > 0 {
                assert(rest[i - 1] == s[i]);
            }
        }
    } else {
        assert(tail =~= s.skip(a));
    }
}

/// Every edit of a block's text asks its input to show the new text, then for its
/// rows and its paint, and tells listeners, in that order and once each.
pub proof fn law_edit_requests(e: EditorView, ix: int, a: int, b: int, r: Seq<char>)
    ensures
        ({
            let n = e.edit_block_text(ix, a, b, r);
            let block = n.blocks[ix];
            0 <= ix < e.blocks.len() ==> n.effects == e.effects + seq![
                EffectView::SetText {
                    block: e.blocks[ix].id,
                    text: block.text,
                    caret: block.input.cursor as int,
                },
                EffectView::Remeasure(e.blocks[ix].id),
                EffectView::Decorate {
                    block: e.blocks[ix].id,
                    runs: crate::view::decoration_runs(e.reg, block),
                },
                EffectView::Document,
            ]
        }),
{
    let n = e.edit_block_text(ix, a, b, r);
    if 0 <= ix < e.blocks.len() {
        assert(n.effects.len() == e.effects.len() + 4);
        assert(n.effects =~= e.effects + n.effects.skip(e.effects.len() as int));
        assert(n.effects.skip(e.effects.len() as int) =~= seq![
            n.effects[e.effects.len() as int],
            n.effects[e.effects.len() as int + 1],
            n.effects[e.effects.len() as int + 2],
            n.effects[e.effects.len() as int + 3],
        ]);
    }
}

/// What was typed is recorded before anything else, and the block is then
/// measured and painted; its input, which holds the text already, is asked for
/// nothing.
pub proof fn law_typing_requests(
    e: EditorView,
    id: BlockId,
    new_text: Seq<char>,
    input: Selection,
)
    requires
        crate::view::known(e.blocks, id),
    ensures
        ({
            let ix = crate::view::find(e.blocks, id)->0;
            let n = e.take_text(id, ix, new_text, input);
            &&& n.effects.len() == e.effects.len() + 3
            &&& n.effects[e.effects.len() as int] == EffectView::RecordTyping(
                crate::view::contents_of(e.blocks),
            )
            &&& n.effects[e.effects.len() as int + 1] == EffectView::Remeasure(id)
            &&& n.effects[e.effects.len() as int + 2] == (EffectView::Decorate {
                block: id,
                runs: crate::view::decoration_runs(e.reg, n.blocks[ix]),
            })
            &&& n == (EditorView { blocks: n.blocks, effects: n.effects, ..e })
        }),
{
    reveal(EditorView::take_text);
    crate::view::lemma_find(e.blocks, id);
}

/// Painting a block again asks for that, as it is marked, and for nothing else.
pub proof fn law_painted_again(e: EditorView, id: BlockId)
    ensures
        match crate::view::find(e.blocks, id) {
            Some(ix) => e.apply_decorations(id) == (EditorView {
                effects: e.effects.push(
                    EffectView::Decorate {
                        block: id,
                        runs: crate::view::decoration_runs(e.reg, e.blocks[ix]),
                    },
                ),
                ..e
            }),
            None => e.apply_decorations(id) == e,
        },
{
    crate::view::lemma_find(e.blocks, id);
}

/// The last requests of putting a block in, taking one out or changing its type
/// tell listeners that the document changed and ask for it to be shown; before
/// them a block that is there is measured and painted.
pub proof fn law_document_requests(
    e: EditorView,
    ix: int,
    content: crate::block::ContentView,
    id: BlockId,
    ty: Seq<char>,
    attrs: crate::block::AttrsView,
)
    requires
        0 <= ix,
    ensures
        ({
            let n = e.insert_block(ix, content);
            let at = if ix < e.blocks.len() {
                ix
            } else {
                e.blocks.len() as int
            };
            let last = n.effects.len() - 1;
            &&& n.effects.len() == e.effects.len() + 5 + (if (e.reg.caps)(content.ty).grid {
                1int
            } else {
                0int
            })
            &&& n.effects[last] == EffectView::Notify
            &&& n.effects[last - 1] == EffectView::Document
            &&& n.effects[last - 2] == (EffectView::Decorate {
                block: n.blocks[at].id,
                runs: crate::view::decoration_runs(e.reg, n.blocks[at]),
            })
            &&& n.effects[last - 3] == EffectView::Remeasure(n.blocks[at].id)
        }),
        crate::view::known(e.blocks, id) ==> e.remove_block(id).effects == e.effects.push(
            EffectView::Document,
        ).push(EffectView::Notify),
        ({
            let n = e.set_block_type(id, ty, attrs);
            let last = n.effects.len() - 1;
            crate::view::find(e.blocks, id) matches Some(at) ==> e.blocks[at].ty != ty
                || e.blocks[at].attrs != attrs ==> {
                &&& n.effects.len() == e.effects.len() + 6
                &&& n.effects[last] == EffectView::Notify
                &&& n.effects[last - 1] == EffectView::Document
                &&& n.effects[last - 2] == (EffectView::Decorate {
                    block: id,
                    runs: crate::view::decoration_runs(e.reg, n.blocks[at]),
                })
                &&& n.effects[last - 3] == EffectView::Remeasure(id)
            }
        }),
{
    crate::view::lemma_find(e.blocks, id);
}

/// What stands before the caret of a block is its text up to the caret.
pub proof fn law_head(e: EditorView, ix: int)
    requires
        0 <= ix < e.blocks.len(),
        crate::text::boundary(e.blocks[ix].text, e.blocks[ix].input.cursor as int),
    ensures
        crate::text::blen(e.head(ix)) == e.blocks[ix].input.cursor,
        e.blocks[ix].text.take(e.head(ix).len() as int) == e.head(ix),
{
    crate::text::lemma_split(e.blocks[ix].text, e.blocks[ix].input.cursor as int);
}

/// Two marks are of one kind exactly where they are the same mark, whatever they
/// carry: two links are, and two highlights are, and a link and a highlight are
/// not.
pub proof fn law_kinds(a: crate::mark::KindView, b: crate::mark::KindView)
    ensures
        a.tag() == b.tag() <==> {
            ||| a is Bold && b is Bold
            ||| a is Italic && b is Italic
            ||| a is Underline && b is Underline
            ||| a is Strike && b is Strike
            ||| a is Code && b is Code
            ||| a is Superscript && b is Superscript
            ||| a is Subscript && b is Subscript
            ||| a is Link && b is Link
            ||| a is Highlight && b is Highlight
            ||| a is TextColor && b is TextColor
            ||| a is Mention && b is Mention
            ||| a is Comment && b is Comment
        },
{
}

/// A stretch carries a mark exactly where it is not empty and each of its bytes
/// lies under a mark of that kind.
pub proof fn law_has(m: Seq<crate::mark::MarkView>, k: crate::mark::KindView, s: int, e: int)
    ensures
        crate::mark::has_mark(m, k, s, e) <==> s < e && forall|o: int|
            s <= o < e ==> #[trigger] under_kind(m, k, o),
{
    assert forall|o: int| #[trigger]
        under_kind(m, k, o) <==> crate::mark::byte_marked(m, k, o) by {
        if under_kind(m, k, o) {
            let i = choose|i: int|
                0 <= i < m.len() && (#[trigger] m[i]).kind.tag() == k.tag() && m[i].start <= o
                    < m[i].end;
            assert(crate::mark::marked_at(m, k, o, i));
        }
        if crate::mark::byte_marked(m, k, o) {
            let i = choose|i: int| crate::mark::marked_at(m, k, o, i);
            assert(m[i].kind.tag() == k.tag());
        }
    }
    if crate::mark::has_mark(m, k, s, e) {
        assert forall|o: int| s <= o < e implies #[trigger] under_kind(m, k, o) by {
            assert(crate::mark::byte_marked(m, k, o));
        }
    }
    if forall|o: int| s <= o < e ==> #[trigger] under_kind(m, k, o) {
        assert forall|o: int| s <= o < e implies #[trigger] crate::mark::byte_marked(m, k, o) by {
            assert(under_kind(m, k, o));
        }
    }
}

/// Whether the byte `o` lies under a mark of the kind of `k`.
pub open spec fn under_kind(
    m: Seq<crate::mark::MarkView>,
    k: crate::mark::KindView,
    o: int,
) -> bool {
    exists|i: int|
        0 <= i < m.len() && (#[trigger] m[i]).kind.tag() == k.tag() && m[i].start <= o < m[i].end
}

/// White space is the characters that Unicode calls so.
pub proof fn law_white(c: char)
    ensures
        crate::text::is_white(c) <==> {
            let u = c as u32;
            ||| u == 9 || u == 10 || u == 11 || u == 12 || u == 13
            ||| u == 32 || u == 133 || u == 160 || u == 5760
            ||| 8192 <= u && u <= 8202
            ||| u == 8232 || u == 8233 || u == 8239 || u == 8287 || u == 12288
        },
{
}

/// Closing the link editor changes no content, and closing it again does
/// nothing.
pub proof fn law_link_closed(e: EditorView)
    ensures
        ({
            let n = e.close_link_editor();
            &&& n.link_editor is None
            &&& crate::view::contents_of(n.blocks) == crate::view::contents_of(e.blocks)
            &&& e.link_editor is None ==> n == e
            &&& !crate::laws::announced(e, n)
            &&& n.close_link_editor() == n
        }),
{
    if let Some(editor) = e.link_editor {
        let closed = EditorView { link_editor: None, ..e };
        crate::laws::lemma_focus_contents(closed, editor.block, Caret::At(editor.end));
    }
}

/// A block that came to stand somewhere has a known place, once, and no other
/// block's place is forgotten or learnt.
pub proof fn law_placed(e: EditorView, id: BlockId, other: BlockId)
    ensures
        ({
            let n = e.on_block_placed(id);
            &&& n == (EditorView { placed: n.placed, ..e })
            &&& n.placed.contains(id)
            &&& other != id ==> (n.placed.contains(other) <==> e.placed.contains(other))
            &&& n.on_block_placed(id) == n
        }),
{
    let n = e.on_block_placed(id);
    if !e.placed.contains(id) {
        assert(n.placed[e.placed.len() as int] == id);
        if e.placed.contains(other) {
            let i = choose|i: int| 0 <= i < e.placed.len() && e.placed[i] == other;
            assert(n.placed[i] == other);
        }
    }
}

/// Whether `n` is `extra` with `name` set to `value` at place `p`: where it stood
/// first, or behind everything where it stood nowhere. Nothing else moves.
pub open spec fn was_set(
    extra: Seq<(Seq<char>, Seq<char>)>,
    n: Seq<(Seq<char>, Seq<char>)>,
    name: Seq<char>,
    value: Seq<char>,
    p: int,
) -> bool {
    &&& 0 <= p <= extra.len()
    &&& forall|i: int| 0 <= i < p ==> (#[trigger] extra[i]).0 != name
    &&& p < extra.len() ==> extra[p].0 == name
    &&& n.len() == (if p < extra.len() {
        extra.len()
    } else {
        extra.len() + 1
    })
    &&& n[p] == (name, value)
    &&& forall|i: int| 0 <= i < extra.len() && i != p ==> (#[trigger] n[i]) == extra[i]
}

/// Setting an attribute sets it where it stands, or adds it, and leaves the
/// others as they were.
pub proof fn law_extra(
    extra: Seq<(Seq<char>, Seq<char>)>,
    name: Seq<char>,
    value: Seq<char>,
)
    ensures
        exists|p: int| #[trigger]
            was_set(extra, crate::block::with_extra(extra, name, value), name, value, p),
    decreases extra.len(),
{
    let n = crate::block::with_extra(extra, name, value);
    if extra.len() == 0 {
        assert(was_set(extra, n, name, value, 0));
    } else if extra[0].0 == name {
        assert(was_set(extra, n, name, value, 0));
    } else {
        let rest = extra.drop_first();
        law_extra(rest, name, value);
        let m = crate::block::with_extra(rest, name, value);
        let p = choose|p: int| #[trigger] was_set(rest, m, name, value, p);
        assert(n =~= seq![extra[0]] + m);
        assert forall|i: int| 0 <= i < p + 1 implies (#[trigger] extra[i]).0 != name by {
            if i > 0 {
                assert(rest[i - 1] == extra[i]);
            }
        }
        assert forall|i: int| 0 <= i < extra.len() && i != p + 1 implies (#[trigger] n[i])
            == extra[i] by {
            if i > 0 {
                assert(m[i - 1] == rest[i - 1]);
            }
        }
        assert(was_set(extra, n, name, value, p + 1));
    }
}

/// A type is what was registered first under its name, and the fallback where
/// nothing was.
pub proof fn law_registered<S: crate::block::BlockSpec>(
    registry: crate::block::BlockRegistry<S>,
    ty: Seq<char>,
    i: int,
)
    ensures
        0 <= i < registry.entries@.len() && registry.entries@[i].0@ == ty && (forall|j: int|
            0 <= j < i ==> (#[trigger] registry.entries@[j]).0@ != ty) ==> registry.spec_for(ty)
            == registry.entries@[i].1,
        (forall|j: int| 0 <= j < registry.entries@.len() ==> (#[trigger] registry.entries@[j]).0@
            != ty) ==> registry.spec_for(ty) == registry.fallback,
{
    if 0 <= i < registry.entries@.len() && registry.entries@[i].0@ == ty && (forall|j: int|
        0 <= j < i ==> (#[trigger] registry.entries@[j]).0@ != ty) {
        assert(registry.is_entry(ty, i));
        let k = choose|k: int| registry.is_entry(ty, k);
        assert(k == i);
    }
}

/// What a rule looks up by name is what the group of that name matched, and is
/// kept under that name; there is nothing where there is no such group.
pub proof fn law_captured(caps: crate::pattern::CapturesView, name: Seq<char>)
    ensures
        ({
            let attrs = crate::input_rules::captured_attrs(caps, name);
            &&& attrs.level == 0
            &&& attrs.start is None
            &&& !attrs.collapsed
            &&& attrs.language is None
            &&& match caps.named(name) {
                Some(span) => attrs.extra.len() == 1 && attrs.extra[0].0 == name
                    && attrs.extra[0].1 == crate::text::after(
                    crate::text::before(caps.text, span.1),
                    span.0,
                ),
                None => attrs.extra.len() == 0,
            }
        }),
{
}

/// An editor that is given blocks holds them in their order, each as it was
/// given, with its marks cut to its text and under an id of its own, counted up
/// from the first. Nothing is focused or selected.
pub proof fn law_loaded(
    reg: crate::block::RegistryView,
    contents: Seq<crate::block::ContentView>,
    i: int,
    k: crate::mark::KindView,
    o: int,
)
    requires
        0 <= i < contents.len(),
        contents.len() + 2 <= u64::MAX,
    ensures
        ({
            let e = crate::view::editor_with(reg, contents);
            let block = e.blocks[i];
            &&& e.blocks.len() == contents.len()
            &&& block.ty == contents[i].ty
            &&& block.attrs == contents[i].attrs
            &&& block.text == contents[i].text
            &&& block.indent == contents[i].indent
            &&& crate::mark::covers(block.marks, k, o) <==> crate::mark::covers(
                contents[i].marks,
                k,
                o,
            ) && o < crate::text::blen(contents[i].text)
            &&& block.id.0 == e.blocks[0].id.0 + i
            &&& e.next_id == e.blocks[0].id.0 + contents.len()
        }),
{
    let bare = EditorView { blocks: Seq::empty(), ..crate::view::new_editor(reg) };
    crate::view::lemma_insert_blocks(bare, contents);
    crate::mark::law_clamp(contents[i].marks, crate::text::blen(contents[i].text), k, o);
}

/// The kinds over a byte, and those that typing there goes on with, come in the
/// order in which the marks were put on, and a mark that is put on comes last.
pub proof fn law_marks_in_order(
    m: Seq<crate::mark::MarkView>,
    mark: crate::mark::MarkView,
    o: int,
)
    ensures
        crate::mark::kinds_at(Seq::empty(), o).len() == 0,
        crate::mark::kinds_at(m.push(mark), o) == (if mark.start <= o < mark.end {
            crate::mark::kinds_at(m, o).push(mark.kind)
        } else {
            crate::mark::kinds_at(m, o)
        }),
        crate::mark::active_kinds(Seq::empty(), o).len() == 0,
        crate::mark::active_kinds(m.push(mark), o) == (if mark.start < o <= mark.end {
            crate::mark::active_kinds(m, o).push(mark.kind)
        } else {
            crate::mark::active_kinds(m, o)
        }),
        mark.start < mark.end ==> ({
            let n = crate::mark::add_mark(m, mark.kind, mark.start, mark.end);
            n.len() > 0 && n[n.len() - 1] == mark
        }),
{
    assert(m.push(mark).drop_last() =~= m);
}

} // verus!
