//! What holds of the editor as a whole, whatever is done to it.

use vstd::prelude::*;

use crate::block::{BlockId, Selection};
use crate::input_rules::InputRuleMode;
use crate::view::{Caret, EditorView};

verus! {

/// Whether listeners were told between `before` and `after` that the document
/// changed.
pub open spec fn announced(before: EditorView, after: EditorView) -> bool {
    exists|i: int|
        before.effects.len() <= i < after.effects.len() && (#[trigger] after.effects[i])
            == crate::effect::EffectView::Document
}

/// A block that is put in is there, under an id that no block had, and the
/// others stand as they stood.
pub proof fn law_insert(e: EditorView, ix: int, content: crate::block::ContentView)
    requires
        e.wf(),
        e.next_id < u64::MAX,
        0 <= ix,
    ensures
        ({
            let n = e.insert_block(ix, content);
            let id = BlockId(e.next_id as u64);
            let at = if ix < e.blocks.len() {
                ix
            } else {
                e.blocks.len() as int
            };
            &&& !crate::view::known(e.blocks, id)
            &&& crate::view::find(n.blocks, id) == Some(at)
            &&& n.blocks.remove(at) == e.blocks
            &&& announced(e, n)
        }),
{
    let n = e.insert_block(ix, content);
    let id = BlockId(e.next_id as u64);
    let at = if ix < e.blocks.len() {
        ix
    } else {
        e.blocks.len() as int
    };
    assert(!crate::view::known(e.blocks, id));
    assert forall|j: int| 0 <= j < at implies (#[trigger] n.blocks[j]).id != id by {
        assert(n.blocks[j] == e.blocks[j]);
    }
    assert(crate::view::is_index(n.blocks, id, at));
    crate::view::lemma_find(n.blocks, id);
    assert(n.blocks.remove(at) =~= e.blocks);
    assert(n.effects[n.effects.len() - 2] == crate::effect::EffectView::Document);
}

/// A block that is taken out is gone: its cells, the caret in one of them, its
/// focus and its selection go with it, and the others stand as they stood.
pub proof fn law_remove(e: EditorView, id: BlockId)
    requires
        e.wf(),
        crate::view::known(e.blocks, id),
    ensures
        ({
            let n = e.remove_block(id);
            &&& !crate::view::known(n.blocks, id)
            &&& !n.grids.contains(id)
            &&& !n.selected.contains(id)
            &&& n.focused != Some(id)
            &&& n.focused_cell matches Some(cell) ==> cell.0 != id
            &&& crate::view::find(e.blocks, id) matches Some(ix) && n.blocks == e.blocks.remove(ix)
            &&& announced(e, n)
        }),
{
    let n = e.remove_block(id);
    crate::view::lemma_find(e.blocks, id);
    crate::view::lemma_without(e.grids, id);
    crate::view::lemma_without(e.selected, id);
    let ix = crate::view::find(e.blocks, id)->0;
    assert forall|j: int| 0 <= j < n.blocks.len() implies (#[trigger] n.blocks[j]).id != id by {
        if j < ix {
            assert(n.blocks[j] == e.blocks[j]);
        } else {
            assert(n.blocks[j] == e.blocks[j + 1]);
        }
    }
    assert(n.effects[n.effects.len() - 2] == crate::effect::EffectView::Document);
}

/// Taking out the block that was just put in gives the document back.
pub proof fn law_insert_remove(e: EditorView, ix: int, content: crate::block::ContentView)
    requires
        e.wf(),
        e.next_id < u64::MAX,
        0 <= ix,
    ensures
        e.insert_block(ix, content).remove_block(BlockId(e.next_id as u64)).blocks == e.blocks,
        e.insert_block(ix, content).remove_block(BlockId(e.next_id as u64)).focused == e.focused,
{
    law_insert(e, ix, content);
    assert(e.focused matches Some(id) ==> crate::view::known(e.blocks, id));
}

/// Changing a block's type keeps its text and its marks; no other block
/// changes. Doing it again does nothing.
pub proof fn law_set_type(
    e: EditorView,
    id: BlockId,
    ty: Seq<char>,
    attrs: crate::block::AttrsView,
)
    requires
        e.wf(),
        crate::view::known(e.blocks, id),
    ensures
        ({
            let n = e.set_block_type(id, ty, attrs);
            let ix = crate::view::find(e.blocks, id)->0;
            &&& n.blocks.len() == e.blocks.len()
            &&& forall|j: int|
                0 <= j < e.blocks.len() && j != ix ==> (#[trigger] n.blocks[j]) == e.blocks[j]
            &&& n.blocks[ix].ty == ty
            &&& n.blocks[ix].attrs == attrs
            &&& n.blocks[ix].text == e.blocks[ix].text
            &&& n.blocks[ix].id == id
            &&& n.blocks[ix].marks == e.blocks[ix].marks
            &&& n != e && !(e.reg.caps)(ty).grid ==> !n.grids.contains(id)
            &&& n != e ==> announced(e, n)
            &&& n.set_block_type(id, ty, attrs) == n
        }),
{
    let n = e.set_block_type(id, ty, attrs);
    crate::view::lemma_find(e.blocks, id);
    crate::view::lemma_without(e.grids, id);
    let ix = crate::view::find(e.blocks, id)->0;
    if e.blocks[ix].ty != ty || e.blocks[ix].attrs != attrs {
        crate::view::lemma_same_ids(e.blocks, n.blocks);
        assert(n.effects[n.effects.len() - 2] == crate::effect::EffectView::Document);
    }
}

/// An edit replaces the bytes it names and no others: the text before and
/// after them stays, the caret stands behind what replaced them, and no other
/// block changes.
pub proof fn law_edit(e: EditorView, ix: int, a: int, b: int, r: Seq<char>)
    requires
        0 <= ix < e.blocks.len(),
        crate::text::boundary(e.blocks[ix].text, a),
        crate::text::boundary(e.blocks[ix].text, b),
        a <= b,
        a + crate::text::blen(r) <= usize::MAX,
    ensures
        ({
            let n = e.edit_block_text(ix, a, b, r);
            let old_text = e.blocks[ix].text;
            let new_text = n.blocks[ix].text;
            let end = a + crate::text::blen(r);
            &&& crate::text::before(new_text, a) == crate::text::before(old_text, a)
            &&& crate::text::slice(new_text, a, end) == r
            &&& crate::text::after(new_text, end) == crate::text::after(old_text, b)
            &&& n.blocks[ix].input.cursor == end
            &&& n.blocks[ix].ty == e.blocks[ix].ty
            &&& forall|j: int|
                0 <= j < e.blocks.len() && j != ix ==> (#[trigger] n.blocks[j]) == e.blocks[j]
            &&& announced(e, n)
        }),
{
    crate::text::lemma_splice(e.blocks[ix].text, a, b, r);
    crate::text::lemma_split(e.blocks[ix].text, a);
    crate::text::lemma_ends(r);
    let n = e.edit_block_text(ix, a, b, r);
    assert(n.effects.last() == crate::effect::EffectView::Document);
}

/// Either a block holds the caret and nothing is selected as a node, or the
/// block was selected as a node and no block holds the caret.
pub proof fn law_focus(e: EditorView, id: BlockId, caret: Caret)
    requires
        e.wf(),
        crate::view::known(e.blocks, id),
    ensures
        ({
            let n = e.focus_block(id, caret);
            let ix = crate::view::find(e.blocks, id)->0;
            &&& e.caps_at(ix).textual ==> n.focused == Some(id) && n.selected.len() == 0
            &&& !e.caps_at(ix).textual ==> n.focused is None && n.selected == seq![id]
            &&& e.caps_at(ix).textual ==> n.active_id() == Some(id) && n.active_index() == Some(ix)
            &&& crate::view::contents_of(n.blocks) == crate::view::contents_of(e.blocks)
            &&& !announced(e, n)
        }),
{
    let n = e.focus_block(id, caret);
    crate::view::lemma_find(e.blocks, id);
    crate::focus::lemma_focus_wf(e, id, caret);
    crate::view::lemma_same_ids(e.blocks, n.blocks);
    assert(crate::view::contents_of(n.blocks) =~= crate::view::contents_of(e.blocks));
}

/// The focused block is the one that has the keyboard, unless the keyboard is
/// with no block and a popover that edits the focused one is open. Asked again
/// with the keyboard where it is, nothing happens.
pub proof fn law_refresh_settles(e: EditorView, keyboard: Seq<bool>)
    ensures
        ({
            let n = e.refresh_focus(keyboard);
            let held = e.keyboard_block(keyboard);
            &&& n.focused == held || (held is None && n.focused == e.focused && (
            e.link_editor is Some || e.comment_draft))
            &&& n.refresh_focus(keyboard) == n
            &&& n.blocks == e.blocks
        }),
{
}

/// Showing what is nested under a toggle after hiding it changes no block.
pub proof fn law_toggle_twice(e: EditorView, id: BlockId)
    ensures
        e.toggle_collapsed(id).toggle_collapsed(id).blocks == e.blocks,
{
    let n = e.toggle_collapsed(id);
    crate::view::lemma_find(e.blocks, id);
    if let Some(ix) = crate::view::find(e.blocks, id) {
        crate::view::lemma_same_ids(e.blocks, n.blocks);
        assert(n.toggle_collapsed(id).blocks[ix] == e.blocks[ix]);
        assert(n.toggle_collapsed(id).blocks =~= e.blocks);
    }
}

/// Collapsing or expanding a toggle is a change of the document, and it is
/// announced.
pub proof fn law_toggle_announced(e: EditorView, id: BlockId)
    ensures
        ({
            let n = e.toggle_collapsed(id);
            crate::view::contents_of(n.blocks) != crate::view::contents_of(e.blocks) ==> announced(
                e,
                n,
            )
        }),
{
    let n = e.toggle_collapsed(id);
    if crate::view::find(e.blocks, id) is Some {
        assert(n.effects[e.effects.len() as int] == crate::effect::EffectView::Document);
    }
}

/// What is nested under a hidden block is hidden too, and so is what is nested
/// under a collapsed one; a block at the top is always shown.
pub proof fn law_visible(blocks: Seq<crate::block::BlockView>, j: int, ix: int)
    requires
        0 <= ix < blocks.len(),
        forall|i: int| 0 <= i < blocks.len() ==> 0 <= (#[trigger] blocks[i]).indent,
    ensures
        crate::view::encloses(blocks, j, ix) && (blocks[j].attrs.collapsed || !crate::view::visible(
            blocks,
            j,
        )) ==> !crate::view::visible(blocks, ix),
        blocks[ix].indent == 0 ==> crate::view::visible(blocks, ix),
{
    if crate::view::encloses(blocks, j, ix) && !crate::view::visible(blocks, j) {
        let i = choose|i: int| #[trigger]
            crate::view::encloses(blocks, i, j) && blocks[i].attrs.collapsed;
        assert(crate::view::encloses(blocks, i, ix)) by {
            assert forall|k: int| i < k <= ix implies blocks[i].indent < (
            #[trigger] blocks[k]).indent by {
                if k > j {
                    assert(blocks[i].indent < blocks[j].indent);
                }
            }
        }
    }
    if blocks[ix].indent == 0 {
        assert forall|i: int| #[trigger] crate::view::encloses(blocks, i, ix) implies !blocks[i].attrs.collapsed by {
            assert(blocks[i].indent < blocks[ix].indent);
        }
    }
}

/// The items of a list count up: the first from one or where it starts, the
/// next from where the one above starts, or else by one from its number.
pub proof fn law_ordinal(blocks: Seq<crate::block::BlockView>, ix: int, j: int)
    requires
        0 <= ix < blocks.len(),
    ensures
        (forall|k: int| !crate::view::prev_item(blocks, ix, k)) ==> crate::view::ordinal(blocks, ix)
            == (match blocks[ix].attrs.start {
            Some(start) => start,
            None => 1,
        }),
        crate::view::prev_item(blocks, ix, j) && blocks[ix].attrs.start is None
            ==> crate::view::ordinal(blocks, ix) == 1 + (match blocks[j].attrs.start {
            Some(start) => start,
            None => crate::view::ordinal(blocks, j),
        }),
{
    if crate::view::prev_item(blocks, ix, j) {
        crate::view::lemma_counted(blocks, ix, j);
    }
}

/// Closing a menu leaves the typed text alone, and so does moving in it.
pub proof fn law_menu_keeps_text(e: EditorView, delta: int)
    ensures
        e.close_suggestion_menu().blocks == e.blocks,
        e.move_suggestion_selection(delta).blocks == e.blocks,
        e.sync_suggestion_menu().blocks == e.blocks,
{
    reveal(EditorView::sync_suggestion_menu);
}

/// A menu that was open stays open exactly while its trigger stands before the
/// caret and something matches what was typed after it.
pub proof fn law_menu_filters(e: EditorView)
    requires
        e.menu_source is BuiltIn,
        e.suggestion is Some,
        e.active_index() is Some,
    ensures
        ({
            let n = e.sync_suggestion_menu();
            let menu = e.suggestion->0;
            let block = e.blocks[e.active_index()->0];
            &&& n.suggestion is Some ==> {
                &&& crate::slash::trigger_stands(menu, block)
                &&& n.menu_items().len() > 0
                &&& n.suggestion->0.trigger == menu.trigger
                &&& n.suggestion->0.block == menu.block
                &&& n.suggestion->0.start == menu.start
                &&& n.suggestion->0.query == crate::text::slice(
                    block.text,
                    menu.start + 1,
                    block.input.cursor as int,
                )
            }
            &&& n.suggestion is None ==> !crate::slash::trigger_stands(menu, block) || EditorView {
                suggestion: Some(
                    crate::slash::MenuView {
                        query: crate::text::slice(
                            block.text,
                            menu.start + 1,
                            block.input.cursor as int,
                        ),
                        ..menu
                    },
                ),
                ..e
            }.menu_items().len() == 0
        }),
{
    reveal(EditorView::sync_suggestion_menu);
}

/// A closed menu opens exactly on a trigger just typed at a word boundary, in a
/// block whose type takes shortcuts. Nothing has been typed after it then, and
/// its first entry is selected.
pub proof fn law_menu_opens(e: EditorView)
    requires
        e.menu_source is BuiltIn,
        e.suggestion is None,
    ensures
        ({
            let n = e.sync_suggestion_menu();
            match e.active_index() {
                Some(ix) => {
                    &&& n.suggestion is Some <==> e.caps_at(ix).input_rules
                        && crate::slash::fresh_trigger(e.head(ix)) is Some
                    &&& n.suggestion matches Some(menu) ==> {
                        &&& Some(menu.trigger) == crate::slash::fresh_trigger(e.head(ix))
                        &&& menu.block == e.blocks[ix].id
                        &&& menu.start == e.blocks[ix].input.cursor - 1
                        &&& menu.query.len() == 0
                        &&& menu.selected == 0
                    }
                },
                None => n.suggestion is None,
            }
        }),
{
    reveal(EditorView::sync_suggestion_menu);
    reveal_strlit("");
}

/// An application that owns the menus is left alone: typing opens none of the
/// editor's own.
pub proof fn law_application_menu(e: EditorView)
    requires
        e.menu_source is Application,
    ensures
        e.sync_suggestion_menu() == e,
{
    reveal(EditorView::sync_suggestion_menu);
}

/// An application's menu stands in for the editor's own: it is open where the
/// application shows one, no `/` menu is, the document stays as it was, and
/// typing a trigger opens none. Setting an equal menu again changes nothing and
/// asks for nothing.
pub proof fn law_application_menu_set(e: EditorView, menu: Option<crate::slash::AppMenuView>)
    requires
        e.wf(),
    ensures
        ({
            let n = e.set_application_menu(menu);
            &&& n.menu_open() == (menu is Some)
            &&& n.suggestion is None
            &&& n.blocks == e.blocks
            &&& n.sync_suggestion_menu() == n
            &&& n.set_application_menu(menu) == n
        }),
{
    reveal(EditorView::sync_suggestion_menu);
}

/// Whether two editors show the same menu.
pub open spec fn same_menu(e: EditorView, n: EditorView) -> bool {
    n.menu_source == e.menu_source && n.suggestion == e.suggestion
}

proof fn lemma_node_rules_menu(e: EditorView, ix: int, i: int)
    ensures
        e.node_rules(ix, i) matches Some(n) ==> same_menu(e, n),
    decreases e.reg.rules.len() - i,
{
    if 0 <= i < e.reg.rules.len() {
        lemma_node_rules_menu(e, ix, i + 1);
    }
}

proof fn lemma_inline_rules_menu(e: EditorView, ix: int, i: int)
    ensures
        e.inline_rules(ix, i) matches Some(n) ==> same_menu(e, n),
    decreases crate::input_rules::INLINE_RULES - i,
{
    if 0 <= i < crate::input_rules::INLINE_RULES {
        lemma_inline_rules_menu(e, ix, i + 1);
    }
}

proof fn lemma_typography_rules_menu(e: EditorView, ix: int, i: int)
    ensures
        e.typography_rules(ix, i) matches Some(n) ==> same_menu(e, n),
    decreases crate::input_rules::TYPOGRAPHY_RULES - i,
{
    if 0 <= i < crate::input_rules::TYPOGRAPHY_RULES {
        lemma_typography_rules_menu(e, ix, i + 1);
    }
}

proof fn lemma_prefix_rules_menu(e: EditorView, ix: int, i: int)
    ensures
        e.prefix_rules(ix, i) matches Some(n) ==> same_menu(e, n),
    decreases e.reg.rules.len() - i,
{
    if 0 <= i < e.reg.rules.len() {
        lemma_prefix_rules_menu(e, ix, i + 1);
    }
}

proof fn lemma_markdown_menu(e: EditorView, id: BlockId)
    ensures
        same_menu(e, e.read_markdown(id)),
{
    reveal(EditorView::read_markdown);
    if let Some(ix) = crate::view::find(e.blocks, id) {
        lemma_prefix_rules_menu(e, ix, 0);
    }
}

proof fn lemma_lines_menu(e: EditorView, ix: int, rest: Seq<Seq<char>>)
    ensures
        same_menu(e, e.insert_lines(ix, rest)),
    decreases rest.len(),
{
    if rest.len() > 0 {
        let above = e.insert_lines(ix, rest.drop_last());
        lemma_lines_menu(e, ix, rest.drop_last());
        let put = above.insert_block(
            ix + rest.len(),
            crate::block::ContentView {
                ty: above.blocks[ix].ty,
                attrs: above.blocks[ix].attrs,
                text: rest.last(),
                marks: Seq::empty(),
                indent: above.blocks[ix].indent,
            },
        );
        lemma_markdown_menu(put, BlockId(above.next_id as u64));
    }
}

proof fn lemma_split_menu(e: EditorView, id: BlockId)
    ensures
        e.split_pasted_lines(id) matches Some(n) ==> same_menu(e, n),
{
    reveal(EditorView::split_pasted_lines);
    if let Some(ix) = crate::view::find(e.blocks, id) {
        let lines = crate::text::lines(e.blocks[ix].text);
        let first = e.set_block_text(ix, lines[0], crate::text::blen(lines[0]));
        lemma_markdown_menu(first, id);
        lemma_lines_menu(first.read_markdown(id), ix, lines.drop_first());
    }
}

proof fn lemma_rules_menu(e: EditorView, id: BlockId)
    ensures
        same_menu(e, e.run_input_rules(id)),
{
    reveal(EditorView::run_input_rules);
    if let Some(ix) = crate::view::find(e.blocks, id) {
        lemma_node_rules_menu(e, ix, 0);
        lemma_inline_rules_menu(e, ix, 0);
        lemma_typography_rules_menu(e, ix, 0);
    }
}

/// While an application owns the menus, a change of text opens none of the
/// editor's own.
pub proof fn law_application_typing(
    e: EditorView,
    id: BlockId,
    new_text: Seq<char>,
    input: Selection,
)
    requires
        e.wf(),
        e.menu_source is Application,
    ensures
        e.on_block_changed(id, new_text, input).suggestion is None,
        e.on_block_changed(id, new_text, input).menu_source == e.menu_source,
{
    if let Some(ix) = crate::view::find(e.blocks, id) {
        reveal(EditorView::take_text);
        reveal(EditorView::sync_suggestion_menu);
        let taken = e.take_text(id, ix, new_text, input);
        lemma_split_menu(taken, id);
        lemma_rules_menu(taken, id);
    }
}

/// A caret that moves is heard of once, and it is no edit: the document stays
/// as it was and nobody is told that it changed.
pub proof fn law_observed(
    e: EditorView,
    id: BlockId,
    next: Selection,
    focused: bool,
    value: Seq<char>,
    composing: bool,
)
    ensures
        ({
            let n = e.on_input_observed(id, next, focused, value, composing);
            &&& crate::view::contents_of(n.blocks) == crate::view::contents_of(e.blocks)
            &&& !announced(e, n)
            &&& n.on_input_observed(id, next, focused, value, composing).effects == n.effects
        }),
{
    let n = e.on_input_observed(id, next, focused, value, composing);
    crate::view::lemma_find(e.blocks, id);
    if let Some(ix) = crate::view::find(e.blocks, id) {
        crate::view::lemma_same_ids(e.blocks, n.blocks);
    }
    assert(crate::view::contents_of(n.blocks) =~= crate::view::contents_of(e.blocks));
}

/// Whether `after` holds all the requests of `before`, in their places.
pub open spec fn grows(before: EditorView, after: EditorView) -> bool {
    &&& before.effects.len() <= after.effects.len()
    &&& forall|i: int|
        0 <= i < before.effects.len() ==> (#[trigger] after.effects[i]) == before.effects[i]
}

proof fn lemma_steps_grow(
    e: EditorView,
    ix: int,
    block: crate::block::BlockView,
    content: crate::block::ContentView,
    id: BlockId,
    ty: Seq<char>,
    attrs: crate::block::AttrsView,
    caret: Caret,
)
    ensures
        grows(e, e.insert_block(ix, content)),
        grows(e, e.set_block_type(id, ty, attrs)),
        grows(e, e.retext(ix, block)),
        grows(e, e.focus_block(id, caret)),
        grows(e, e.apply_decorations(id)),
{
}

proof fn lemma_node_rules_grow(e: EditorView, ix: int, i: int)
    ensures
        e.node_rules(ix, i) matches Some(n) ==> grows(e, n),
    decreases e.reg.rules.len() - i,
{
    if 0 <= i < e.reg.rules.len() {
        let rule = e.reg.rules[i];
        let found = crate::pattern::match_of(rule.pattern, e.head(ix));
        lemma_node_match_grows(e, ix, rule, found);
        lemma_node_rules_grow(e, ix, i + 1);
    }
}

proof fn lemma_node_match_grows(
    e: EditorView,
    ix: int,
    rule: crate::block::RuleView,
    found: Option<crate::pattern::CapturesView>,
)
    ensures
        e.node_match(ix, rule, found) matches Some(n) ==> grows(e, n),
{
    if e.node_match(ix, rule, found) is Some {
        let caret = e.blocks[ix].input.cursor as int;
        let id = e.blocks[ix].id;
        let target = e.rule_target(ix, rule, found->0)->0;
        let edited = e.edit_block_text(ix, 0, caret, ""@);
        let turned = edited.set_block_type(id, target.0, target.1);
        let plain = crate::block::plain_content(crate::block::PARAGRAPH@, ""@);
        let block = crate::edit::edited_block(e.blocks[ix], 0, caret, ""@);
        lemma_steps_grow(e, ix, block, plain, id, target.0, target.1, Caret::Start);
        lemma_steps_grow(edited, ix, block, plain, id, target.0, target.1, Caret::Start);
        lemma_steps_grow(turned, ix + 1, block, plain, id, target.0, target.1, Caret::Start);
        let below = turned.ensure_paragraph_after(ix);
        lemma_steps_grow(
            below,
            ix,
            block,
            plain,
            turned.paragraph_after(ix),
            target.0,
            target.1,
            Caret::Start,
        );
    }
}

proof fn lemma_inline_rules_grow(e: EditorView, ix: int, i: int)
    ensures
        e.inline_rules(ix, i) matches Some(n) ==> grows(e, n),
    decreases crate::input_rules::INLINE_RULES - i,
{
    if 0 <= i < crate::input_rules::INLINE_RULES {
        lemma_inline_rules_grow(e, ix, i + 1);
    }
}

proof fn lemma_typography_rules_grow(e: EditorView, ix: int, i: int)
    ensures
        e.typography_rules(ix, i) matches Some(n) ==> grows(e, n),
    decreases crate::input_rules::TYPOGRAPHY_RULES - i,
{
    if 0 <= i < crate::input_rules::TYPOGRAPHY_RULES {
        lemma_typography_rules_grow(e, ix, i + 1);
    }
}

proof fn lemma_prefix_rules_grow(e: EditorView, ix: int, i: int)
    ensures
        e.prefix_rules(ix, i) matches Some(n) ==> grows(e, n),
    decreases e.reg.rules.len() - i,
{
    if 0 <= i < e.reg.rules.len() {
        lemma_prefix_rules_grow(e, ix, i + 1);
    }
}

proof fn lemma_read_markdown_grows(e: EditorView, id: BlockId)
    ensures
        grows(e, e.read_markdown(id)),
{
    reveal(EditorView::read_markdown);
    if let Some(ix) = crate::view::find(e.blocks, id) {
        lemma_prefix_rules_grow(e, ix, 0);
    }
}

proof fn lemma_run_rules_grows(e: EditorView, id: BlockId)
    ensures
        grows(e, e.run_input_rules(id)),
{
    reveal(EditorView::run_input_rules);
    if let Some(ix) = crate::view::find(e.blocks, id) {
        lemma_node_rules_grow(e, ix, 0);
        lemma_inline_rules_grow(e, ix, 0);
        lemma_typography_rules_grow(e, ix, 0);
    }
}

proof fn lemma_insert_lines_grow(e: EditorView, ix: int, rest: Seq<Seq<char>>)
    ensures
        grows(e, e.insert_lines(ix, rest)),
    decreases rest.len(),
{
    if rest.len() > 0 {
        lemma_insert_lines_grow(e, ix, rest.drop_last());
        let above = e.insert_lines(ix, rest.drop_last());
        let put = above.insert_block(
            ix + rest.len(),
            crate::block::ContentView {
                ty: above.blocks[ix].ty,
                attrs: above.blocks[ix].attrs,
                text: rest.last(),
                marks: Seq::empty(),
                indent: above.blocks[ix].indent,
            },
        );
        lemma_read_markdown_grows(put, BlockId(above.next_id as u64));
    }
}

/// A paste that falls apart loses no request, and is announced.
pub proof fn lemma_split_grows(e: EditorView, id: BlockId)
    ensures
        e.split_pasted_lines(id) matches Some(n) ==> grows(e, n) && n.effects.len()
            >= e.effects.len() + 2 && n.effects[n.effects.len() - 2]
            == crate::effect::EffectView::Document,
{
    reveal(EditorView::split_pasted_lines);
    if e.split_pasted_lines(id) is Some {
        let ix = crate::view::find(e.blocks, id)->0;
        let lines = crate::text::lines(e.blocks[ix].text);
        let set = e.set_block_text(ix, lines[0], crate::text::blen(lines[0]));
        lemma_read_markdown_grows(set, id);
        let head = set.read_markdown(id);
        lemma_insert_lines_grow(head, ix, lines.drop_first());
    }
}

/// Every change of a block's text is announced, and no request that was made
/// before it is lost.
pub proof fn law_change_announced(
    e: EditorView,
    id: BlockId,
    new_text: Seq<char>,
    input: Selection,
)
    requires
        crate::view::find(e.blocks, id) matches Some(ix) && e.blocks[ix].text != new_text,
    ensures
        grows(e, e.on_block_changed(id, new_text, input)),
        announced(e, e.on_block_changed(id, new_text, input)),
{
    reveal(EditorView::take_text);
    let ix = crate::view::find(e.blocks, id)->0;
    let taken = e.take_text(id, ix, new_text, input);
    let n = e.on_block_changed(id, new_text, input);
    assert(grows(e, taken));
    lemma_split_grows(taken, id);
    if !(taken.split_pasted_lines(id) is Some && crate::edit::pasted(
        e.blocks[ix].text,
        new_text,
    )) {
        let ruled = taken.run_input_rules(id);
        lemma_run_rules_grows(taken, id);
        assert(grows(ruled, ruled.sync_suggestion_menu())) by {
            reveal(EditorView::sync_suggestion_menu);
        }
    }
    assert(n.effects[n.effects.len() - 2] == crate::effect::EffectView::Document);
}

/// What is typed after an inline rule has fired is plain: with nothing armed
/// at the caret no mark is put on it.
pub proof fn law_plain_after_rule(
    block: crate::block::BlockView,
    new_text: Seq<char>,
    input: Selection,
)
    requires
        block.stored_marks == Some(Seq::<crate::mark::KindView>::empty()),
    ensures
        crate::edit::changed_block(block, new_text, input).marks == crate::mark::clamp_marks(
            crate::mark::remap_marks(
                block.marks,
                crate::mark::edit_between(block.text, new_text),
            ),
            crate::text::blen(new_text),
        ),
{
}

proof fn lemma_adds_marked(
    m: Seq<crate::mark::MarkView>,
    kinds: Seq<crate::mark::KindView>,
    s: int,
    e: int,
    k: crate::mark::KindView,
    o: int,
)
    requires
        kinds.contains(k),
        s <= o < e,
    ensures
        crate::mark::byte_marked(crate::mark::add_marks(m, kinds, s, e), k, o),
    decreases kinds.len(),
{
    let rest = kinds.drop_last();
    let last = kinds.last();
    let done = crate::mark::add_marks(m, rest, s, e);
    let all = crate::mark::add_marks(m, kinds, s, e);
    if last.tag() == k.tag() {
        assert(crate::mark::marked_at(all, k, o, all.len() - 1));
    } else {
        let i = choose|i: int| 0 <= i < kinds.len() && kinds[i] == k;
        assert(rest[i] == k);
        lemma_adds_marked(m, rest, s, e, k, o);
        let at = choose|at: int| crate::mark::marked_at(done, k, o, at);
        let q = done[at].kind;
        assert(crate::mark::covers(done, q, o));
        crate::mark::law_add(done, last, s, e, q, o);
        let n = choose|n: int|
            0 <= n < all.len() && (#[trigger] all[n]).kind == q && all[n].start <= o < all[n].end;
        assert(crate::mark::marked_at(all, k, o, n));
    }
}

/// What is typed is formatted as the marks armed at the caret say, otherwise
/// as the text it was typed into: every byte of it carries each of those
/// marks.
pub proof fn law_typed_marks(
    block: crate::block::BlockView,
    new_text: Seq<char>,
    input: Selection,
    k: crate::mark::KindView,
    o: int,
)
    requires
        block.wf(),
        crate::text::blen(new_text) <= usize::MAX,
        ({
            let edit = crate::mark::edit_between(block.text, new_text);
            &&& edit.start <= o < edit.start + edit.new_len
            &&& (match block.stored_marks {
                Some(kinds) => kinds.contains(k),
                None => crate::mark::inclusive_only(
                    crate::mark::active_kinds(block.marks, edit.start as int),
                ).contains(k),
            })
        }),
    ensures
        crate::mark::byte_marked(
            crate::edit::changed_block(block, new_text, input).marks,
            k,
            o,
        ),
{
    let edit = crate::mark::edit_between(block.text, new_text);
    let applied = match block.stored_marks {
        Some(kinds) => kinds,
        None => crate::mark::inclusive_only(
            crate::mark::active_kinds(block.marks, edit.start as int),
        ),
    };
    crate::mark::law_edit_between(block.text, new_text);
    crate::text::lemma_split(new_text, edit.start + edit.new_len);
    let moved = crate::mark::remap_marks(block.marks, edit);
    let len = crate::text::blen(new_text);
    let (s, e) = (edit.start as int, edit.start + edit.new_len);
    let marks = crate::mark::add_marks(moved, applied, s, e);
    lemma_adds_marked(moved, applied, s, e, k, o);
    crate::mark::lemma_remap_in_range(block.marks, edit, crate::text::blen(block.text));
    crate::mark::lemma_adds_in_range(moved, applied, s, e, len);
    crate::mark::lemma_clamp_noop(marks, len);
}

/// In a document whose application interprets what is typed, no rule of the
/// editor's own fires.
pub proof fn law_application_rules(e: EditorView, id: BlockId)
    requires
        e.input_rule_mode == InputRuleMode::Application,
    ensures
        e.input_rules(id) is None,
        e.run_input_rules(id) == e,
        e.read_markdown(id) == e,
{
    reveal(EditorView::run_input_rules);
    reveal(EditorView::read_markdown);
}

/// The texts of the blocks `from..to`.
pub open spec fn texts(blocks: Seq<crate::block::BlockView>, from: int, to: int) -> Seq<Seq<char>> {
    Seq::new((to - from) as nat, |i: int| blocks[from + i].text)
}

proof fn lemma_insert_lines_plain(e: EditorView, ix: int, rest: Seq<Seq<char>>)
    requires
        e.input_rule_mode == InputRuleMode::Application,
        0 <= ix < e.blocks.len(),
    ensures
        ({
            let n = e.insert_lines(ix, rest);
            let m = rest.len() as int;
            &&& n.input_rule_mode == InputRuleMode::Application
            &&& n.blocks.len() == e.blocks.len() + m
            &&& forall|j: int| 0 <= j <= ix ==> (#[trigger] n.blocks[j]) == e.blocks[j]
            &&& forall|j: int|
                ix < j <= ix + m ==> (#[trigger] n.blocks[j]).text == rest[j - ix - 1]
                    && n.blocks[j].ty == e.blocks[ix].ty && n.blocks[j].marks.len() == 0
            &&& forall|j: int|
                ix + m < j < n.blocks.len() ==> (#[trigger] n.blocks[j]) == e.blocks[j - m]
        }),
    decreases rest.len(),
{
    if rest.len() > 0 {
        let up = rest.drop_last();
        lemma_insert_lines_plain(e, ix, up);
        let above = e.insert_lines(ix, up);
        let n = e.insert_lines(ix, rest);
        let m = rest.len() as int;
        let content = crate::block::ContentView {
            ty: above.blocks[ix].ty,
            attrs: above.blocks[ix].attrs,
            text: rest.last(),
            marks: Seq::empty(),
            indent: above.blocks[ix].indent,
        };
        let put = above.insert_block(ix + m, content);
        law_application_rules(put, BlockId(above.next_id as u64));
        assert(n == put);
        let block = crate::view::fresh_block(BlockId(above.next_id as u64), content);
        assert(n.blocks == above.blocks.insert(ix + m, block));
        assert(block.marks.len() == 0);
        assert forall|j: int| ix < j <= ix + m implies (#[trigger] n.blocks[j]).text == rest[j - ix
            - 1] && n.blocks[j].ty == e.blocks[ix].ty && n.blocks[j].marks.len() == 0 by {
            if j < ix + m {
                assert(n.blocks[j] == above.blocks[j]);
                assert(up[j - ix - 1] == rest[j - ix - 1]);
            } else {
                assert(n.blocks[j] == block);
            }
        }
        assert forall|j: int| ix + m < j < n.blocks.len() implies (#[trigger] n.blocks[j])
            == e.blocks[j - m] by {
            assert(n.blocks[j] == above.blocks[j - 1]);
        }
    }
}

/// Moving the focus changes no content.
pub proof fn lemma_focus_contents(e: EditorView, id: BlockId, caret: Caret)
    ensures
        crate::view::contents_of(e.focus_block(id, caret).blocks) == crate::view::contents_of(
            e.blocks,
        ),
{
    crate::view::lemma_find(e.blocks, id);
    assert(crate::view::contents_of(e.focus_block(id, caret).blocks) =~= crate::view::contents_of(
        e.blocks,
    ));
}

/// Source that belongs to the application comes through typing and pasting as
/// it is: the text that was put in is the text of the block it was put into or,
/// one block for each line, of the blocks it became. They keep the type of that
/// block, and the blocks around them keep their content.
#[verifier::rlimit(40)]
pub proof fn law_application_source(
    e: EditorView,
    id: BlockId,
    new_text: Seq<char>,
    input: Selection,
)
    requires
        e.input_rule_mode == InputRuleMode::Application,
        crate::view::known(e.blocks, id),
    ensures
        ({
            let n = e.on_block_changed(id, new_text, input);
            let ix = crate::view::find(e.blocks, id)->0;
            let m = n.blocks.len() - e.blocks.len();
            &&& 0 <= m
            &&& crate::text::join_lines(texts(n.blocks, ix, ix + m + 1)) == new_text
            &&& forall|j: int|
                ix <= j <= ix + m ==> (#[trigger] n.blocks[j]).ty == e.blocks[ix].ty
            &&& forall|j: int|
                0 <= j < ix ==> (#[trigger] n.blocks[j]).content() == e.blocks[j].content()
            &&& forall|j: int|
                ix + m < j < n.blocks.len() ==> (#[trigger] n.blocks[j]).content() == e.blocks[j
                    - m].content()
        }),
{
    reveal(EditorView::take_text);
    reveal(EditorView::split_pasted_lines);
    crate::view::lemma_find(e.blocks, id);
    let ix = crate::view::find(e.blocks, id)->0;
    let n = e.on_block_changed(id, new_text, input);
    let m = n.blocks.len() - e.blocks.len();
    if e.blocks[ix].text == new_text {
        assert(texts(n.blocks, ix, ix + 1) =~= seq![new_text]);
        lemma_single_line(new_text);
    } else {
        let taken = e.take_text(id, ix, new_text, input);
        crate::view::lemma_same_ids(e.blocks, taken.blocks);
        let whole = taken.split_pasted_lines(id);
        if whole is Some && crate::edit::pasted(e.blocks[ix].text, new_text) {
            let lines = crate::text::lines(new_text);
            crate::text::lemma_lines_from(new_text, 0);
            assert(new_text.skip(0) =~= new_text);
            let set = taken.set_block_text(ix, lines[0], crate::text::blen(lines[0]));
            law_application_rules(set, id);
            let rest = lines.drop_first();
            lemma_insert_lines_plain(set, ix, rest);
            let put = set.insert_lines(ix, rest);
            let last = BlockId((set.next_id + rest.len() - 1) as u64);
            lemma_focus_contents(put, last, Caret::End);
            assert(n.blocks == put.focus_block(last, Caret::End).blocks);
            assert forall|j: int| 0 <= j < n.blocks.len() implies (#[trigger] n.blocks[j]).content()
                == put.blocks[j].content() by {
                assert(crate::view::contents_of(n.blocks)[j] == crate::view::contents_of(
                    put.blocks,
                )[j]);
            }
            assert forall|j: int| ix <= j <= ix + m implies (#[trigger] n.blocks[j]).ty
                == e.blocks[ix].ty by {
                assert(n.blocks[j].content() == put.blocks[j].content());
            }
            assert(texts(n.blocks, ix, ix + m + 1) =~= lines) by {
                assert forall|i: int| 0 <= i < lines.len() implies texts(
                    n.blocks,
                    ix,
                    ix + m + 1,
                )[i] == lines[i] by {
                    assert(n.blocks[ix + i].content() == put.blocks[ix + i].content());
                    if i > 0 {
                        assert(put.blocks[ix + i].text == rest[i - 1]);
                    }
                }
            }
        } else {
            law_application_rules(taken, id);
            law_menu_keeps_text(taken, 0);
            assert(n.blocks == taken.blocks);
            assert(texts(n.blocks, ix, ix + 1) =~= seq![new_text]);
            lemma_single_line(new_text);
        }
    }
}

proof fn lemma_single_line(line: Seq<char>)
    ensures
        crate::text::join_lines(seq![line]) == line,
{
}

/// Whether every block's id was given out.
pub open spec fn ids_given(e: EditorView) -> bool {
    forall|j: int| 0 <= j < e.blocks.len() ==> (#[trigger] e.blocks[j]).id.0 < e.next_id
}

/// Whether a block holds `line` as it is read in a block like `like`: with the
/// prefix of the rule that fired taken off, of the type which that rule makes,
/// or as it is. It carries no marks, and it is nested as `like` is unless the
/// rule made it of a type that is not nested.
pub open spec fn holds_line(
    e: EditorView,
    like: crate::block::BlockView,
    line: Seq<char>,
    block: crate::block::BlockView,
) -> bool {
    let read = e.read_line(like.ty, like.attrs, line);
    &&& block.ty == read.ty
    &&& block.attrs == read.attrs
    &&& block.text == read.text
    &&& block.marks.len() == 0
    &&& block.indent == (if (read.ty == like.ty && read.attrs == like.attrs) || (e.reg.caps)(
        read.ty,
    ).list {
        like.indent
    } else {
        0
    })
}

/// What the blocks of lines that are put in hold.
pub proof fn lemma_insert_lines_read(e: EditorView, ix: int, rest: Seq<Seq<char>>)
    requires
        ids_given(e),
        0 <= ix < e.blocks.len(),
        0 <= e.next_id,
        e.next_id + rest.len() <= u64::MAX,
    ensures
        ({
            let n = e.insert_lines(ix, rest);
            let m = rest.len() as int;
            &&& ids_given(n)
            &&& n.next_id == e.next_id + m
            &&& n.reg == e.reg
            &&& n.input_rule_mode == e.input_rule_mode
            &&& n.blocks.len() == e.blocks.len() + m
            &&& forall|j: int| 0 <= j <= ix ==> (#[trigger] n.blocks[j]) == e.blocks[j]
            &&& forall|j: int|
                ix < j <= ix + m ==> holds_line(
                    e,
                    e.blocks[ix],
                    rest[j - ix - 1],
                    #[trigger] n.blocks[j],
                )
            &&& forall|j: int|
                ix + m < j < n.blocks.len() ==> (#[trigger] n.blocks[j]) == e.blocks[j - m]
        }),
    decreases rest.len(),
{
    if rest.len() > 0 {
        let up = rest.drop_last();
        lemma_insert_lines_read(e, ix, up);
        let above = e.insert_lines(ix, up);
        let n = e.insert_lines(ix, rest);
        let m = rest.len() as int;
        let content = crate::block::ContentView {
            ty: above.blocks[ix].ty,
            attrs: above.blocks[ix].attrs,
            text: rest.last(),
            marks: Seq::empty(),
            indent: above.blocks[ix].indent,
        };
        let id = BlockId(above.next_id as u64);
        let put = above.insert_block(ix + m, content);
        let block = crate::view::fresh_block(id, content);
        assert(put.blocks == above.blocks.insert(ix + m, block));
        assert(forall|j: int| 0 <= j < ix + m ==> put.blocks[j] == above.blocks[j]);
        assert(forall|j: int|
            ix + m < j < put.blocks.len() ==> put.blocks[j] == above.blocks[j - 1]);
        assert(put.blocks[ix + m] == block);
        assert(crate::view::is_index(put.blocks, id, ix + m));
        crate::view::lemma_find(put.blocks, id);
        crate::edit::lemma_markdown_frame(put, id);
        assert(crate::edit::line_was_read(put, n, ix + m));
        assert(block.marks.len() == 0);
        assert forall|j: int| ix < j <= ix + m implies holds_line(
            e,
            e.blocks[ix],
            rest[j - ix - 1],
            #[trigger] n.blocks[j],
        ) by {
            if j < ix + m {
                assert(n.blocks[j] == above.blocks[j]);
                assert(up[j - ix - 1] == rest[j - ix - 1]);
            }
        }
        assert forall|j: int| ix + m < j < n.blocks.len() implies (#[trigger] n.blocks[j])
            == e.blocks[j - m] by {
            assert(n.blocks[j] == above.blocks[j - 1]);
        }
    }
}

/// The last line that is put in is found by the id it was given.
pub proof fn lemma_last_line(e: EditorView, ix: int, rest: Seq<Seq<char>>)
    requires
        ids_given(e),
        0 <= ix < e.blocks.len(),
        0 <= e.next_id,
        e.next_id + rest.len() <= u64::MAX,
        rest.len() > 0,
    ensures
        crate::view::find(
            e.insert_lines(ix, rest).blocks,
            BlockId((e.next_id + rest.len() - 1) as u64),
        ) == Some(ix + rest.len()),
        e.insert_lines(ix, rest).reg == e.reg,
{
    let up = rest.drop_last();
    lemma_insert_lines_read(e, ix, up);
    lemma_insert_lines_read(e, ix, rest);
    let above = e.insert_lines(ix, up);
    let n = e.insert_lines(ix, rest);
    let m = rest.len() as int;
    let id = BlockId(above.next_id as u64);
    let content = crate::block::ContentView {
        ty: above.blocks[ix].ty,
        attrs: above.blocks[ix].attrs,
        text: rest.last(),
        marks: Seq::empty(),
        indent: above.blocks[ix].indent,
    };
    let put = above.insert_block(ix + m, content);
    let block = crate::view::fresh_block(id, content);
    assert(put.blocks == above.blocks.insert(ix + m, block));
    assert(forall|j: int| 0 <= j < ix + m ==> put.blocks[j] == above.blocks[j]);
    assert(put.blocks[ix + m] == block);
    assert(crate::view::is_index(put.blocks, id, ix + m));
    crate::view::lemma_find(put.blocks, id);
    crate::edit::lemma_markdown_frame(put, id);
    assert(crate::edit::line_was_read(put, n, ix + m));
    assert(crate::view::is_index(n.blocks, id, ix + m));
    crate::view::lemma_find(n.blocks, id);
}

/// A paste becomes one block per line. Each holds its line, less the prefix of
/// the markdown rule that fired on it, and the blocks around them keep their
/// content. The lines behind the first are read in blocks like the one that the
/// first became.
pub proof fn law_paste(e: EditorView, id: BlockId)
    requires
        e.wf(),
        e.split_pasted_lines(id) is Some,
        crate::view::find(e.blocks, id) matches Some(ix) ==> e.next_id + crate::text::lines(
            e.blocks[ix].text,
        ).len() <= u64::MAX,
    ensures
        ({
            let n = e.split_pasted_lines(id)->0;
            let ix = crate::view::find(e.blocks, id)->0;
            let lines = crate::text::lines(e.blocks[ix].text);
            let first = e.read_line(e.blocks[ix].ty, e.blocks[ix].attrs, lines[0]);
            &&& lines.len() > 1
            &&& n.blocks.len() == e.blocks.len() + lines.len() - 1
            &&& n.blocks[ix].ty == first.ty
            &&& n.blocks[ix].attrs == first.attrs
            &&& n.blocks[ix].text == first.text
            &&& forall|k: int|
                1 <= k < lines.len() ==> holds_line(
                    e,
                    n.blocks[ix],
                    #[trigger] lines[k],
                    n.blocks[ix + k],
                )
            &&& forall|j: int|
                0 <= j < ix ==> (#[trigger] n.blocks[j]).content() == e.blocks[j].content()
            &&& forall|j: int|
                ix + lines.len() <= j < n.blocks.len() ==> (#[trigger] n.blocks[j]).content()
                    == e.blocks[j - lines.len() + 1].content()
        }),
{
    reveal(EditorView::split_pasted_lines);
    crate::view::lemma_find(e.blocks, id);
    let ix = crate::view::find(e.blocks, id)->0;
    let lines = crate::text::lines(e.blocks[ix].text);
    crate::text::lemma_lines_from(e.blocks[ix].text, 0);
    crate::text::lemma_many_lines(e.blocks[ix].text);
    let set = e.set_block_text(ix, lines[0], crate::text::blen(lines[0]));
    crate::view::lemma_same_ids(e.blocks, set.blocks);
    crate::edit::lemma_markdown_frame(set, id);
    let head = set.read_markdown(id);
    assert(ids_given(head)) by {
        assert forall|j: int| 0 <= j < head.blocks.len() implies (#[trigger] head.blocks[j]).id.0
            < head.next_id by {
            assert(set.blocks[j].id == e.blocks[j].id);
            assert(j != ix ==> head.blocks[j] == set.blocks[j]);
        }
    }
    let rest = lines.drop_first();
    lemma_insert_lines_read(head, ix, rest);
    let put = head.insert_lines(ix, rest);
    let last = BlockId((head.next_id + rest.len() - 1) as u64);
    let n = e.split_pasted_lines(id)->0;
    lemma_focus_contents(put, last, Caret::End);
    assert forall|j: int| 0 <= j < n.blocks.len() implies (#[trigger] n.blocks[j]).content()
        == put.blocks[j].content() by {
        assert(crate::view::contents_of(n.blocks)[j] == crate::view::contents_of(put.blocks)[j]);
    }
    assert(crate::view::contents_of(put.blocks).len() == put.blocks.len());
    assert(n.blocks[ix].content() == put.blocks[ix].content());
    assert forall|k: int| 1 <= k < lines.len() implies holds_line(
        e,
        n.blocks[ix],
        #[trigger] lines[k],
        n.blocks[ix + k],
    ) by {
        assert(n.blocks[ix + k].content() == put.blocks[ix + k].content());
        assert(rest[k - 1] == lines[k]);
        assert(holds_line(head, head.blocks[ix], rest[k - 1], put.blocks[ix + k]));
    }
    assert forall|j: int| 0 <= j < ix implies (#[trigger] n.blocks[j]).content()
        == e.blocks[j].content() by {
        assert(put.blocks[j] == head.blocks[j]);
        assert(head.blocks[j] == set.blocks[j]);
    }
    assert forall|j: int| ix + lines.len() <= j < n.blocks.len() implies (
    #[trigger] n.blocks[j]).content() == e.blocks[j - lines.len() + 1].content() by {
        let was = j - lines.len() + 1;
        assert(put.blocks[j] == head.blocks[was]);
        assert(head.blocks[was] == set.blocks[was]);
    }
}

/// Marking what was typed marks all of it, takes no text away, and leaves
/// nothing armed for what follows.
pub proof fn law_mark_typed(
    e: EditorView,
    ix: int,
    kind: crate::mark::KindView,
    start: int,
    end: int,
    o: int,
)
    requires
        0 <= ix < e.blocks.len(),
        start <= o < end,
    ensures
        ({
            let n = e.mark_typed(ix, kind, start, end);
            &&& crate::mark::covers(n.blocks[ix].marks, kind, o)
            &&& n.blocks[ix].text == e.blocks[ix].text
            &&& n.blocks[ix].stored_marks == Some(Seq::<crate::mark::KindView>::empty())
        }),
{
    crate::mark::law_add(e.blocks[ix].marks, kind, start, end, kind, o);
}

/// An inline rule keeps the body and drops what was around it, and every byte
/// of the body carries the mark.
pub proof fn law_inline_rule(
    e: EditorView,
    ix: int,
    kind: crate::mark::KindView,
    caps: crate::pattern::CapturesView,
    o: int,
)
    requires
        0 <= ix < e.blocks.len(),
        e.inline_match(ix, kind, Some(caps)) is Some,
    ensures
        ({
            let n = e.inline_match(ix, kind, Some(caps))->0;
            let whole = caps.group(1)->0;
            let span = caps.named("body"@)->0;
            let body = crate::text::slice(caps.text, span.0, span.1);
            &&& n.blocks[ix].text == crate::text::splice(
                e.blocks[ix].text,
                whole.0,
                whole.1,
                body,
            )
            &&& whole.0 <= o < whole.0 + crate::text::blen(body) ==> crate::mark::covers(
                n.blocks[ix].marks,
                kind,
                o,
            )
            &&& !crate::text::blank(body)
        }),
{
    let whole = caps.group(1)->0;
    let span = caps.named("body"@)->0;
    let body = crate::text::slice(caps.text, span.0, span.1);
    let end = whole.0 + crate::text::blen(body);
    if whole.0 <= o < end {
        law_mark_typed(
            e.edit_block_text(ix, whole.0, whole.1, body),
            ix,
            kind,
            whole.0,
            end,
            o,
        );
    }
}

/// Choosing a person puts the name in place of what was typed, and all of it
/// but the space behind it carries a mark with the person's id.
pub proof fn law_mention(
    e: EditorView,
    ix: int,
    menu: crate::slash::MenuView,
    mention: crate::suggestion::MentionView,
    o: int,
)
    requires
        0 <= ix < e.blocks.len(),
    ensures
        ({
            let n = e.choose_item(ix, menu, crate::slash::ItemView::Mention(mention));
            let typed = crate::slash::mention_text(mention.name);
            &&& n.blocks[ix].text == crate::text::splice(
                e.blocks[ix].text,
                menu.start,
                e.typed_end(ix, menu),
                typed,
            )
            &&& menu.start <= o < menu.start + crate::text::blen(crate::text::trim_end(typed))
                ==> crate::mark::covers(
                n.blocks[ix].marks,
                crate::mark::KindView::Mention(mention.id),
                o,
            )
        }),
{
    let typed = crate::slash::mention_text(mention.name);
    let end = menu.start + crate::text::blen(crate::text::trim_end(typed));
    if menu.start <= o < end {
        law_mark_typed(
            e.edit_block_text(ix, menu.start, e.typed_end(ix, menu), typed),
            ix,
            crate::mark::KindView::Mention(mention.id),
            menu.start,
            end,
            o,
        );
    }
}

/// The link editor puts a link to the normalized address on all of its text, or
/// takes every link off it where the address is blank.
pub proof fn law_link(
    e: EditorView,
    ix: int,
    start: int,
    end: int,
    href: Seq<char>,
    o: int,
    other: Seq<char>,
)
    requires
        0 <= ix < e.blocks.len(),
        start <= o < end,
    ensures
        ({
            let marks = e.linked(ix, start, end, href);
            let link = crate::mark::KindView::Link(crate::toolbar::normalized(href));
            &&& !crate::text::blank(href) ==> crate::mark::covers(marks, link, o)
            &&& crate::text::blank(href) ==> !crate::mark::covers(
                marks,
                crate::mark::KindView::Link(other),
                o,
            )
        }),
{
    let m = e.blocks[ix].marks;
    let link = crate::mark::KindView::Link(crate::toolbar::normalized(href));
    let none = crate::mark::KindView::Link(""@);
    crate::mark::law_cut(m, none, start, end, crate::mark::KindView::Link(other), o);
    crate::mark::law_add(m, link, start, end, link, o);
}

/// Moving on goes to the nearest block that can hold the caret: it is text, in
/// sight, and none on the way to it is both.
pub proof fn law_sibling(e: EditorView, at: int, forward: bool)
    requires
        0 <= at < e.blocks.len(),
    ensures
        ({
            let delta: int = if forward {
                1
            } else {
                -1
            };
            match e.sibling(at, delta) {
                Some(k) => {
                    &&& 0 <= k < e.blocks.len()
                    &&& e.caps_at(k).textual && crate::view::visible(e.blocks, k)
                    &&& forward ==> at <= k
                    &&& !forward ==> k <= at
                    &&& forall|i: int|
                        (at <= i < k || k < i <= at) ==> !((#[trigger] e.caps_at(i)).textual
                            && crate::view::visible(e.blocks, i))
                },
                None => forall|i: int|
                    (if forward {
                        at <= i < e.blocks.len()
                    } else {
                        0 <= i <= at
                    }) ==> !((#[trigger] e.caps_at(i)).textual && crate::view::visible(
                        e.blocks,
                        i,
                    )),
            }
        }),
    decreases (if forward { e.blocks.len() - at } else { at + 1 }),
{
    let delta: int = if forward {
        1
    } else {
        -1
    };
    if !(e.caps_at(at).textual && crate::view::visible(e.blocks, at)) {
        if 0 <= at + delta < e.blocks.len() {
            law_sibling(e, at + delta, forward);
        }
    }
}

/// Two surfaces over one range is one too many: while the toolbar shows, no
/// menu, link editor, comment box, drag or press is under way.
pub proof fn law_one_surface(e: EditorView)
    requires
        e.selection_toolbar_visible(),
    ensures
        !e.menu_open(),
        e.link_editor is None,
        !e.comment_draft,
        e.drop_target is None,
        e.mouse_anchor is None,
{
}

/// Marks that differ from those a block had are announced.
proof fn lemma_remark_announced(e: EditorView, ix: int, marks: Seq<crate::mark::MarkView>)
    requires
        0 <= ix < e.blocks.len(),
    ensures
        ({
            let n = e.remark(ix, marks);
            &&& crate::view::contents_of(n.blocks) != crate::view::contents_of(e.blocks)
                ==> announced(e, n)
            &&& n.effects.len() >= e.effects.len()
            &&& n.link_editor == e.link_editor
        }),
{
    let n = e.remark(ix, marks);
    if marks == e.blocks[ix].marks {
        assert(n.blocks =~= e.blocks);
    } else {
        assert(n.effects[n.effects.len() - 1] == crate::effect::EffectView::Document);
    }
}

/// Moving the focus takes back no announcement.
proof fn lemma_focus_announced(e: EditorView, m: EditorView, id: BlockId, caret: Caret)
    requires
        announced(e, m),
    ensures
        announced(e, m.focus_block(id, caret).emit(crate::effect::EffectView::Notify)),
{
    let n = m.focus_block(id, caret).emit(crate::effect::EffectView::Notify);
    let i = choose|i: int|
        e.effects.len() <= i < m.effects.len() && (#[trigger] m.effects[i])
            == crate::effect::EffectView::Document;
    assert(n.effects[i] == crate::effect::EffectView::Document);
}

/// Putting a link on text, or taking it off, is a change of the document, and
/// it is announced.
pub proof fn law_link_announced(e: EditorView, href: Seq<char>)
    ensures
        ({
            let n = e.apply_link_editor(href);
            crate::view::contents_of(n.blocks) != crate::view::contents_of(e.blocks) ==> announced(
                e,
                n,
            )
        }),
        ({
            let n = e.remove_link();
            crate::view::contents_of(n.blocks) != crate::view::contents_of(e.blocks) ==> announced(
                e,
                n,
            )
        }),
{
    if let Some(editor) = e.link_editor {
        crate::view::lemma_find(e.blocks, editor.block);
        let closed = EditorView { link_editor: None, ..e };
        let caret = Caret::At(editor.end);
        if let Some(ix) = crate::view::find(e.blocks, editor.block) {
            let on = e.linked(ix, editor.start as int, editor.end as int, href);
            let put = closed.remark(ix, on);
            lemma_remark_announced(closed, ix, on);
            lemma_focus_contents(put, editor.block, caret);
            if announced(e, put) {
                lemma_focus_announced(e, put, editor.block, caret);
            }
            let off = e.linked(ix, editor.start as int, editor.end as int, ""@);
            let cut = e.remark(ix, off);
            let bare = EditorView { link_editor: None, ..cut };
            lemma_remark_announced(e, ix, off);
            lemma_focus_contents(bare, editor.block, caret);
            if announced(e, cut) {
                assert(announced(e, bare));
                lemma_focus_announced(e, bare, editor.block, caret);
            }
        } else {
            lemma_focus_contents(closed, editor.block, caret);
        }
    }
}

/// Closing the link editor returns the caret to the end of the text it was
/// opened from.
pub proof fn law_link_returns_focus(e: EditorView)
    requires
        e.wf(),
        e.link_editor matches Some(editor) && crate::view::find(
            e.blocks,
            editor.block,
        ) matches Some(ix) && e.caps_at(ix).textual && crate::text::boundary(
            e.blocks[ix].text,
            editor.end as int,
        ),
    ensures
        ({
            let n = e.close_link_editor();
            let editor = e.link_editor->0;
            let ix = crate::view::find(e.blocks, editor.block)->0;
            &&& n.link_editor is None
            &&& n.focused == Some(editor.block)
            &&& n.blocks[ix].input == Selection::at(editor.end as int)
        }),
{
    let editor = e.link_editor->0;
    let ix = crate::view::find(e.blocks, editor.block)->0;
    crate::view::lemma_find(e.blocks, editor.block);
    crate::text::lemma_split(e.blocks[ix].text, editor.end as int);
    crate::text::lemma_snap(e.blocks[ix].text, editor.end as int);
}

/// The people offered are those of the list whose name matches what was typed.
pub proof fn law_people_offered(
    people: Seq<crate::suggestion::MentionView>,
    query: Seq<char>,
    person: crate::suggestion::MentionView,
)
    ensures
        crate::slash::mention_items(people, query).contains(
            crate::slash::ItemView::Mention(person),
        ) <==> people.contains(person) && crate::suggestion::query_matches(
            query,
            person.name,
            Seq::empty(),
        ),
    decreases people.len(),
{
    let all = crate::slash::mention_items(people, query);
    let item = crate::slash::ItemView::Mention(person);
    if people.len() > 0 {
        let rest = people.drop_last();
        let up = crate::slash::mention_items(rest, query);
        law_people_offered(rest, query, person);
        let last = people.last();
        assert(people.contains(person) <==> rest.contains(person) || last == person) by {
            assert(people =~= rest.push(last));
            if rest.contains(person) {
                let i = choose|i: int| 0 <= i < rest.len() && rest[i] == person;
                assert(people[i] == person);
            }
            if last == person {
                assert(people[people.len() - 1] == person);
            }
        }
        assert(all.contains(item) <==> up.contains(item) || (all.len() > up.len() && last
            == person)) by {
            if up.contains(item) {
                let i = choose|i: int| 0 <= i < up.len() && up[i] == item;
                assert(all[i] == item);
            }
            if all.len() > up.len() {
                assert(all[all.len() - 1] == crate::slash::ItemView::Mention(last));
            }
            if all.contains(item) {
                let i = choose|i: int| 0 <= i < all.len() && all[i] == item;
                if i < up.len() {
                    assert(up[i] == item);
                }
            }
        }
    }
}

/// Whether `item` is what `entry` offers, where it matches what was typed.
pub open spec fn offers(
    entry: crate::suggestion::SlashView,
    query: Seq<char>,
    item: crate::slash::ItemView,
) -> bool {
    &&& crate::suggestion::query_matches(query, entry.title, entry.keywords)
    &&& item == crate::slash::ItemView::Block {
        title: entry.title,
        group: entry.group,
        icon: entry.icon,
        run: entry.run,
    }
}

/// The entries offered by the `/` menu are those whose title or keywords match
/// what was typed.
pub proof fn law_blocks_offered(
    entries: Seq<crate::suggestion::SlashView>,
    query: Seq<char>,
    item: crate::slash::ItemView,
)
    ensures
        crate::slash::block_items(entries, query).contains(item) <==> exists|i: int|
            0 <= i < entries.len() && offers(#[trigger] entries[i], query, item),
    decreases entries.len(),
{
    let all = crate::slash::block_items(entries, query);
    if entries.len() > 0 {
        let rest = entries.drop_last();
        let last = entries.last();
        let up = crate::slash::block_items(rest, query);
        law_blocks_offered(rest, query, item);
        if all.contains(item) {
            let i = choose|i: int| 0 <= i < all.len() && all[i] == item;
            if i < up.len() {
                assert(up[i] == item);
                let k = choose|k: int|
                    0 <= k < rest.len() && offers(#[trigger] rest[k], query, item);
                assert(offers(entries[k], query, item));
            } else {
                assert(offers(entries[entries.len() - 1], query, item));
            }
        }
        if exists|i: int| 0 <= i < entries.len() && offers(#[trigger] entries[i], query, item) {
            let i = choose|i: int|
                0 <= i < entries.len() && offers(#[trigger] entries[i], query, item);
            if i < rest.len() {
                assert(offers(rest[i], query, item));
                let k = choose|k: int| 0 <= k < up.len() && up[k] == item;
                assert(all[k] == item);
            } else {
                assert(all[all.len() - 1] == item);
            }
        }
    }
}

/// What is typed is what the document holds: where no rule fires on it and it
/// did not come as a paste, the block has the text of its input, and no other
/// block changes.
pub proof fn law_typed_text(e: EditorView, id: BlockId, new_text: Seq<char>, input: Selection)
    requires
        crate::view::find(e.blocks, id) matches Some(ix) && {
            &&& !crate::edit::pasted(e.blocks[ix].text, new_text)
            &&& e.take_text(id, ix, new_text, input).input_rules(id) is None
        },
    ensures
        ({
            let n = e.on_block_changed(id, new_text, input);
            let ix = crate::view::find(e.blocks, id)->0;
            &&& n.blocks.len() == e.blocks.len()
            &&& n.blocks[ix].text == new_text
            &&& n.blocks[ix].input == input
            &&& n.blocks[ix].ty == e.blocks[ix].ty
            &&& forall|j: int|
                0 <= j < e.blocks.len() && j != ix ==> (#[trigger] n.blocks[j]) == e.blocks[j]
        }),
{
    let ix = crate::view::find(e.blocks, id)->0;
    crate::view::lemma_find(e.blocks, id);
    reveal(EditorView::take_text);
    reveal(EditorView::run_input_rules);
    let taken = e.take_text(id, ix, new_text, input);
    law_menu_keeps_text(taken, 0);
}

/// A node rule that fires turns the block into what its match asks for, and
/// takes away exactly what was typed for it. It settles: the same match asks
/// for nothing more.
pub proof fn law_node_rule(
    e: EditorView,
    ix: int,
    rule: crate::block::RuleView,
    caps: crate::pattern::CapturesView,
)
    requires
        e.wf(),
        0 <= ix < e.blocks.len(),
        e.node_match(ix, rule, Some(caps)) is Some,
    ensures
        ({
            let n = e.node_match(ix, rule, Some(caps))->0;
            let target = e.rule_target(ix, rule, caps)->0;
            let caret = e.blocks[ix].input.cursor as int;
            &&& n.blocks[ix].id == e.blocks[ix].id
            &&& n.blocks[ix].ty == target.0
            &&& n.blocks[ix].attrs == target.1
            &&& n.blocks[ix].text == crate::text::after(e.blocks[ix].text, caret)
            &&& n.rule_target(ix, rule, caps) is None
        }),
{
    let id = e.blocks[ix].id;
    let caret = e.blocks[ix].input.cursor as int;
    let target = e.rule_target(ix, rule, caps)->0;
    let edited = e.edit_block_text(ix, 0, caret, ""@);
    let turned = edited.set_block_type(id, target.0, target.1);
    crate::view::lemma_same_ids(e.blocks, edited.blocks);
    assert(crate::view::is_index(e.blocks, id, ix));
    crate::view::lemma_find(e.blocks, id);
    reveal_strlit("");
    crate::text::lemma_ends(e.blocks[ix].text);
    assert(edited.blocks[ix].text =~= crate::text::after(e.blocks[ix].text, caret));
    assert(turned.blocks[ix].ty == target.0);
    let below = turned.ensure_paragraph_after(ix);
    assert(below.blocks[ix] == turned.blocks[ix]);
    lemma_focus_contents(turned, id, Caret::Start);
    lemma_focus_contents(below, turned.paragraph_after(ix), Caret::Start);
    let n = e.node_match(ix, rule, Some(caps))->0;
    assert(crate::view::contents_of(n.blocks)[ix] == turned.blocks[ix].content());
    assert(n.blocks[ix].content() == turned.blocks[ix].content());
    lemma_focus_ids(turned, id, Caret::Start);
    lemma_focus_ids(below, turned.paragraph_after(ix), Caret::Start);
}

/// Moving the focus changes no id.
pub proof fn lemma_focus_ids(e: EditorView, id: BlockId, caret: Caret)
    ensures
        forall|i: int|
            0 <= i < e.blocks.len() ==> (#[trigger] e.focus_block(id, caret).blocks[i]).id
                == e.blocks[i].id,
{
    crate::view::lemma_find(e.blocks, id);
}

} // verus!
