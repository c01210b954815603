//! What the suggestion menus do: when they open and close, what they offer, and
//! what a choice leaves in the document.

use vstd::prelude::*;

use crate::block::{BlockId, Selection};
use crate::slash::{ItemView, MenuActionView, MenuView, RowView, SourceView};
use crate::suggestion::{SlashRun, Trigger};
use crate::view::EditorView;

verus! {

/// Whether an entry of the editor's own menu can be chosen: its trigger stands
/// at `menu.start` in block `ix`, and entry `menu.selected` is `item`.
pub open spec fn chooses(e: EditorView, ix: int, menu: MenuView, item: ItemView) -> bool {
    &&& e.wf()
    &&& e.menu_source is BuiltIn
    &&& e.suggestion == Some(menu)
    &&& 0 <= menu.selected < e.menu_items().len()
    &&& e.menu_items()[menu.selected] == item
    &&& crate::view::find(e.blocks, menu.block) == Some(ix)
    &&& crate::text::boundary(e.blocks[ix].text, menu.start)
}

/// Where what was typed for a menu ends: at the caret, or at the trigger where
/// the caret stands before it.
pub open spec fn query_end(e: EditorView, ix: int, menu: MenuView) -> int {
    if e.blocks[ix].input.cursor > menu.start {
        e.blocks[ix].input.cursor as int
    } else {
        menu.start
    }
}

proof fn lemma_query_end(e: EditorView, ix: int, menu: MenuView, item: ItemView)
    requires
        chooses(e, ix, menu, item),
    ensures
        0 <= ix < e.blocks.len(),
        0 <= menu.start <= query_end(e, ix, menu) <= crate::text::blen(e.blocks[ix].text),
        crate::text::boundary(e.blocks[ix].text, query_end(e, ix, menu)),
        crate::text::blen(e.blocks[ix].text) <= usize::MAX,
        e.typed_end(ix, menu) == query_end(e, ix, menu),
{
    crate::view::lemma_find(e.blocks, menu.block);
    crate::text::lemma_split(e.blocks[ix].text, menu.start);
    crate::text::lemma_split(e.blocks[ix].text, e.blocks[ix].input.cursor as int);
}

/// Choosing a block entry takes away exactly what was typed for it, from the
/// trigger to the caret: every other byte stays, marked as it was, and no other
/// block changes. The menu closes and the entry's command is asked for, once.
pub proof fn law_command_chosen(
    e: EditorView,
    ix: int,
    menu: MenuView,
    item: ItemView,
    k: crate::mark::KindView,
    o: int,
)
    requires
        chooses(e, ix, menu, item),
        item is Block,
        item->run is Command,
    ensures
        ({
            let n = e.confirm_suggestion();
            let end = query_end(e, ix, menu);
            let command = crate::effect::EffectView::RunCommand(item->run->Command_0 as int);
            &&& n.blocks[ix].text == crate::text::before(e.blocks[ix].text, menu.start)
                + crate::text::after(e.blocks[ix].text, end)
            &&& crate::typing_laws::was_replaced(
                e,
                n,
                ix,
                menu.start,
                end,
                Seq::<char>::empty(),
                k,
                o,
            )
            &&& n.suggestion is None
            &&& n.effects[n.effects.len() - 2] == command
            &&& forall|i: int|
                e.effects.len() <= i < n.effects.len() && i != n.effects.len() - 2 ==> !((
                #[trigger] n.effects[i]) is RunCommand)
            &&& crate::laws::announced(e, n)
        }),
{
    lemma_query_end(e, ix, menu, item);
    let end = query_end(e, ix, menu);
    let closed = EditorView { suggestion: None, ..e };
    reveal_strlit("");
    assert(""@ =~= Seq::<char>::empty());
    crate::text::lemma_ends(""@);
    crate::typing_laws::law_edit_marks(closed, ix, menu.start, end, ""@, k, o);
    let n = e.confirm_suggestion();
    assert(n.blocks[ix].text =~= crate::text::before(e.blocks[ix].text, menu.start)
        + crate::text::after(e.blocks[ix].text, end));
    assert(n.effects[e.effects.len() as int + 3] == crate::effect::EffectView::Document);
}

/// Choosing an emoji puts it in place of what was typed for it, and nothing else
/// changes.
pub proof fn law_emoji_chosen(
    e: EditorView,
    ix: int,
    menu: MenuView,
    item: ItemView,
    k: crate::mark::KindView,
    o: int,
)
    requires
        chooses(e, ix, menu, item),
        item is Emoji,
        menu.start + crate::text::blen(item->character) <= usize::MAX,
    ensures
        ({
            let n = e.confirm_suggestion();
            &&& crate::typing_laws::was_replaced(
                e,
                n,
                ix,
                menu.start,
                query_end(e, ix, menu),
                item->character,
                k,
                o,
            )
            &&& n.suggestion is None
            &&& crate::laws::announced(e, n)
        }),
{
    lemma_query_end(e, ix, menu, item);
    let end = query_end(e, ix, menu);
    let closed = EditorView { suggestion: None, ..e };
    crate::typing_laws::law_edit_marks(closed, ix, menu.start, end, item->character, k, o);
    let n = e.confirm_suggestion();
    assert(n.effects[e.effects.len() as int + 3] == crate::effect::EffectView::Document);
}

/// Choosing a person puts `@`, the name and a space in place of what was typed.
/// The name carries a mark with the person's id, the space does not, every byte
/// outside is marked as it was, and what follows is plain.
pub proof fn law_person_chosen(
    e: EditorView,
    ix: int,
    menu: MenuView,
    person: crate::suggestion::MentionView,
    k: crate::mark::KindView,
    o: int,
)
    requires
        chooses(e, ix, menu, ItemView::Mention(person)),
        menu.start + crate::text::blen(seq!['@'] + person.name + seq![' ']) <= usize::MAX,
    ensures
        ({
            let n = e.confirm_suggestion();
            let end = query_end(e, ix, menu);
            let (was, now) = (e.blocks[ix], n.blocks[ix]);
            let typed = seq!['@'] + person.name + seq![' '];
            let len = crate::text::blen(typed);
            let marked = menu.start + crate::text::blen(crate::text::trim_end(typed));
            let mark = crate::mark::KindView::Mention(person.id);
            &&& now.text == crate::text::before(was.text, menu.start) + typed + crate::text::after(
                was.text,
                end,
            )
            &&& now.input == Selection::at(menu.start + len)
            &&& crate::typing_laws::kept_outside(was.marks, now.marks, menu.start, end, len, k, o)
            &&& menu.start < marked < menu.start + len
            &&& menu.start <= o < marked ==> (crate::mark::covers(now.marks, k, o) <==> k == mark
                || (!(k is Mention) && crate::typing_laws::reaches_over(
                was.marks,
                menu.start,
                end,
                k,
            )))
            &&& marked <= o < menu.start + len ==> (crate::mark::covers(now.marks, k, o)
                <==> crate::typing_laws::reaches_over(was.marks, menu.start, end, k))
            &&& now.stored_marks == Some(Seq::<crate::mark::KindView>::empty())
            &&& n.suggestion is None
            &&& n.blocks.len() == e.blocks.len()
            &&& forall|j: int|
                0 <= j < e.blocks.len() && j != ix ==> (#[trigger] n.blocks[j]) == e.blocks[j]
            &&& crate::laws::announced(e, n)
            &&& n.effects[n.effects.len() - 1] == crate::effect::EffectView::Notify
        }),
{
    let item = ItemView::Mention(person);
    lemma_query_end(e, ix, menu, item);
    let end = query_end(e, ix, menu);
    let closed = EditorView { suggestion: None, ..e };
    let typed = crate::slash::mention_text(person.name);
    reveal_strlit("@");
    reveal_strlit(" ");
    assert(typed =~= seq!['@'] + person.name + seq![' ']);
    let edited = closed.edit_block_text(ix, menu.start, end, typed);
    crate::typing_laws::law_edit_marks(closed, ix, menu.start, end, typed, k, o);
    let marked = menu.start + crate::text::blen(crate::text::trim_end(typed));
    lemma_name_marked(person.name);
    crate::mark::law_add(
        edited.blocks[ix].marks,
        crate::mark::KindView::Mention(person.id),
        menu.start,
        marked,
        k,
        o,
    );
    let n = e.confirm_suggestion();
    assert(n.effects[e.effects.len() as int + 3] == crate::effect::EffectView::Document);
}

proof fn lemma_name_marked(name: Seq<char>)
    ensures
        ({
            let typed = seq!['@'] + name + seq![' '];
            0 < crate::text::blen(crate::text::trim_end(typed)) < crate::text::blen(typed)
        }),
{
    let typed = seq!['@'] + name + seq![' '];
    let kept = crate::text::trim_end(typed);
    lemma_trim_end_prefix(typed, 0);
    let rest = typed.skip(kept.len() as int);
    assert(kept + rest =~= typed);
    crate::text::lemma_join(kept, rest);
    crate::text::lemma_ends(kept);
    crate::text::lemma_ends(rest);
    assert(typed[typed.len() - 1] == ' ');
    if kept.len() == typed.len() {
        assert(kept =~= typed);
    }
}

/// What is left of a text without the white space at its end: it reaches at
/// least to the last character that is none.
pub proof fn lemma_trim_end_prefix(s: Seq<char>, i: int)
    ensures
        ({
            let kept = crate::text::trim_end(s);
            &&& kept.len() <= s.len()
            &&& kept == s.take(kept.len() as int)
            &&& kept.len() > 0 ==> !crate::text::is_white(kept[kept.len() - 1])
            &&& 0 <= i < s.len() && !crate::text::is_white(s[i]) ==> i < kept.len()
        }),
    decreases s.len(),
{
    let kept = crate::text::trim_end(s);
    if s.len() > 0 && crate::text::is_white(s.last()) {
        lemma_trim_end_prefix(s.drop_last(), i);
        assert(kept =~= s.take(kept.len() as int));
        if 0 <= i < s.len() && !crate::text::is_white(s[i]) {
            assert(s.drop_last()[i] == s[i]);
        }
    } else {
        assert(kept =~= s.take(kept.len() as int));
    }
}

/// Choosing where there is nothing to choose leaves the document alone and
/// closes the menu.
pub proof fn law_nothing_chosen(e: EditorView)
    requires
        e.menu_source is BuiltIn,
        e.suggestion matches Some(menu) && (menu.selected >= e.menu_items().len()
            || !crate::view::known(e.blocks, menu.block)),
    ensures
        e.confirm_suggestion().blocks == e.blocks,
        e.confirm_suggestion().suggestion is None,
        !crate::laws::announced(e, e.confirm_suggestion()),
{
    crate::view::lemma_find(e.blocks, e.suggestion->0.block);
}

/// A click on a row selects that row and nothing else: what is then chosen is
/// the entry of that number.
pub proof fn law_row_clicked(e: EditorView, index: usize)
    requires
        e.menu_source is BuiltIn,
        e.suggestion is Some,
    ensures
        ({
            let n = e.select_item(index);
            let menu = e.suggestion->0;
            &&& n.blocks == e.blocks
            &&& n.effects == e.effects
            &&& n.menu_source == e.menu_source
            &&& n.menu_items() == e.menu_items()
            &&& n.suggestion is Some
            &&& n.suggestion->0.selected == index
            &&& n.suggestion->0.block == menu.block
            &&& n.suggestion->0.start == menu.start
        }),
{
}

/// The character that opens each menu, and no other character opens one.
pub proof fn law_trigger_chars(c: char)
    ensures
        Trigger::Slash.char() == '/',
        Trigger::Emoji.char() == ':',
        Trigger::Mention.char() == '@',
        Trigger::of_char(c) == Some(Trigger::Slash) <==> c == '/',
        Trigger::of_char(c) == Some(Trigger::Emoji) <==> c == ':',
        Trigger::of_char(c) == Some(Trigger::Mention) <==> c == '@',
        Trigger::of_char(c) is None <==> c != '/' && c != ':' && c != '@',
{
}

/// A trigger was just typed exactly where its character is the last before the
/// caret, at the start of the text or behind white space.
pub proof fn law_fresh_trigger(head: Seq<char>, trigger: Trigger)
    ensures
        crate::slash::fresh_trigger(head) == Some(trigger) <==> {
            &&& head.len() > 0
            &&& head[head.len() - 1] == trigger.char()
            &&& head.len() > 1 ==> crate::text::is_white(head[head.len() - 2])
        },
{
}

/// What is typed to open a menu behind `head`: nothing where the trigger stands
/// there already, else the trigger, with a space in front of it unless the text
/// begins there or white space is there.
pub open spec fn lead(trigger: Trigger, head: Seq<char>) -> Seq<char> {
    if head.len() > 0 && head[head.len() - 1] == trigger.char() {
        Seq::empty()
    } else if head.len() > 0 && !crate::text::is_white(head[head.len() - 1]) {
        seq![' ', trigger.char()]
    } else {
        seq![trigger.char()]
    }
}

/// Opening a menu types its trigger at the caret where it is not there yet, and
/// nothing else: every other byte stays, marked as it was. The menu hangs on
/// the trigger, with nothing typed after it and its first entry selected. In a
/// block whose type takes no shortcuts nothing opens.
pub proof fn law_menu_opened(
    e: EditorView,
    trigger: Trigger,
    k: crate::mark::KindView,
    o: int,
)
    requires
        e.wf(),
        e.menu_source is BuiltIn,
        e.active_index() matches Some(ix) ==> crate::text::blen(e.blocks[ix].text) + 2
            <= usize::MAX,
    ensures
        ({
            let n = e.open_suggestion(trigger);
            match e.active_index() {
                Some(ix) if (e.reg.caps)(e.blocks[ix].ty).input_rules => {
                    let caret = e.blocks[ix].input.cursor as int;
                    let head = crate::text::before(e.blocks[ix].text, caret);
                    let typed = lead(trigger, head);
                    let len = crate::text::blen(typed);
                    let menu = n.suggestion->0;
                    &&& n.blocks[ix].text == head + typed + crate::text::after(
                        e.blocks[ix].text,
                        caret,
                    )
                    &&& n.blocks[ix].input.cursor == caret + len
                    &&& crate::typing_laws::kept_outside(
                        e.blocks[ix].marks,
                        n.blocks[ix].marks,
                        caret,
                        caret,
                        len,
                        k,
                        o,
                    )
                    &&& n.blocks.len() == e.blocks.len()
                    &&& forall|j: int|
                        0 <= j < e.blocks.len() && j != ix ==> (#[trigger] n.blocks[j])
                            == e.blocks[j]
                    &&& n.suggestion is Some
                    &&& menu.trigger == trigger
                    &&& menu.block == e.blocks[ix].id
                    &&& menu.query.len() == 0
                    &&& menu.selected == 0
                    &&& menu.start + 1 == n.blocks[ix].input.cursor
                },
                _ => n == e,
            }
        }),
{
    if let Some(ix) = e.active_index() {
        crate::view::lemma_find(e.blocks, e.active_id()->0);
        let block = e.blocks[ix];
        let caret = block.input.cursor as int;
        let head = crate::text::before(block.text, caret);
        crate::text::lemma_split(block.text, caret);
        reveal_strlit("");
        let typed = lead(trigger, head);
        lemma_lead(trigger, head);
        if head.len() > 0 && head[head.len() - 1] == trigger.char() {
            assert(head + typed + crate::text::after(block.text, caret) =~= block.text);
            crate::text::lemma_ends(head);
        } else {
            crate::typing_laws::law_edit_marks(e, ix, caret, caret, typed, k, o);
        }
    }
}

proof fn lemma_lead(trigger: Trigger, head: Seq<char>)
    ensures
        0 <= crate::text::blen(lead(trigger, head)) <= 2,
        lead(trigger, head).len() == crate::text::blen(lead(trigger, head)),
{
    crate::text::lemma_ascii(trigger.char());
    crate::text::lemma_ascii(' ');
    crate::text::lemma_join(seq![' '], seq![trigger.char()]);
    assert(seq![' '] + seq![trigger.char()] =~= seq![' ', trigger.char()]);
    crate::text::lemma_ends(Seq::<char>::empty());
}

/// Choosing an entry that opens another menu takes away what was typed for it
/// and opens that menu in its place.
#[verifier::spinoff_prover]
#[verifier::rlimit(30)]
pub proof fn law_menu_chosen(
    e: EditorView,
    ix: int,
    menu: MenuView,
    item: ItemView,
    k: crate::mark::KindView,
    o: int,
)
    requires
        chooses(e, ix, menu, item),
        item is Block,
        item->run is Open,
        e.active_index() == Some(ix),
        (e.reg.caps)(e.blocks[ix].ty).input_rules,
        crate::text::blen(e.blocks[ix].text) + 2 <= usize::MAX,
    ensures
        ({
            let n = e.confirm_suggestion();
            let trigger = item->run->Open_0;
            let end = query_end(e, ix, menu);
            let head = crate::text::before(e.blocks[ix].text, menu.start);
            &&& n.blocks[ix].text == head + lead(trigger, head) + crate::text::after(
                e.blocks[ix].text,
                end,
            )
            &&& n.suggestion is Some
            &&& n.suggestion->0.trigger == trigger
            &&& n.suggestion->0.block == e.blocks[ix].id
            &&& n.suggestion->0.query.len() == 0
            &&& n.suggestion->0.start + 1 == n.blocks[ix].input.cursor
            &&& n.blocks.len() == e.blocks.len()
            &&& forall|j: int|
                0 <= j < e.blocks.len() && j != ix ==> (#[trigger] n.blocks[j]) == e.blocks[j]
        }),
{
    lemma_query_end(e, ix, menu, item);
    let end = query_end(e, ix, menu);
    let trigger = item->run->Open_0;
    let closed = EditorView { suggestion: None, ..e };
    let text = e.blocks[ix].text;
    reveal_strlit("");
    assert(""@ =~= Seq::<char>::empty());
    crate::text::lemma_ends(""@);
    crate::typing_laws::law_edit_marks(closed, ix, menu.start, end, ""@, k, o);
    let cleared = closed.edit_block_text(ix, menu.start, end, ""@);
    crate::text::lemma_splice(text, menu.start, end, ""@);
    let head = crate::text::before(text, menu.start);
    assert(crate::text::before(cleared.blocks[ix].text, menu.start) == head);
    crate::view::lemma_find(e.blocks, e.active_id()->0);
    crate::view::lemma_same_ids(e.blocks, cleared.blocks);
    crate::view::lemma_find(cleared.blocks, e.active_id()->0);
    assert(cleared.active_index() == Some(ix));
    crate::text::lemma_split(text, menu.start);
    crate::text::lemma_split(text, end);
    let typed = lead(trigger, head);
    lemma_lead(trigger, head);
    let at = cleared.blocks[ix];
    assert(at.input.cursor == menu.start);
    crate::text::lemma_split(at.text, menu.start);
    if head.len() > 0 && head[head.len() - 1] == trigger.char() {
        assert(head + typed + crate::text::after(text, end) =~= at.text);
        crate::text::lemma_ends(head);
    } else {
        crate::typing_laws::law_edit_marks(cleared, ix, menu.start, menu.start, typed, k, o);
    }
}

/// An open menu follows the text: it stays open exactly while its trigger stands
/// where it was typed, before the caret of the block that is written in, and
/// something matches what follows it. What is selected stays selected while
/// the query stays the same, and the first entry is selected otherwise. No text
/// changes.
pub proof fn law_menu_follows(e: EditorView)
    requires
        e.menu_source is BuiltIn,
        e.suggestion is Some,
    ensures
        ({
            let n = e.sync_suggestion_menu();
            let menu = e.suggestion->0;
            &&& n == (EditorView { suggestion: n.suggestion, effects: n.effects, ..e })
            &&& match e.active_index() {
                Some(ix) => {
                    let block = e.blocks[ix];
                    let caret = block.input.cursor as int;
                    let tail = crate::text::after(block.text, menu.start);
                    let stands = menu.block == block.id && menu.start < caret
                        && crate::text::boundary(block.text, menu.start) && tail.len() > 0
                        && tail[0] == menu.trigger.char();
                    let query = crate::text::after(
                        crate::text::before(block.text, caret),
                        menu.start + 1,
                    );
                    let read = EditorView {
                        suggestion: Some(MenuView { query, ..menu }),
                        ..e
                    };
                    &&& n.suggestion is Some <==> stands && read.menu_items().len() > 0
                    &&& n.suggestion matches Some(now) ==> {
                        &&& now.trigger == menu.trigger
                        &&& now.block == menu.block
                        &&& now.start == menu.start
                        &&& now.query == query
                        &&& now.selected == (if query == menu.query {
                            menu.selected
                        } else {
                            0
                        })
                    }
                },
                None => n.suggestion is None,
            }
        }),
{
    reveal(EditorView::sync_suggestion_menu);
    if let Some(ix) = e.active_index() {
        let block = e.blocks[ix];
        let menu = e.suggestion->0;
        let query = crate::text::slice(block.text, menu.start + 1, block.input.cursor as int);
        let read = EditorView { suggestion: Some(MenuView { query, ..menu }), ..e };
        let reset = EditorView {
            suggestion: Some(MenuView { query, selected: 0, ..menu }),
            ..e
        };
        assert(read.menu_items() == reset.menu_items());
    }
}

/// Closing the menu closes the editor's own, and tells an application to
/// dismiss its own where it shows one; nothing else changes.
pub proof fn law_menu_closed(e: EditorView)
    ensures
        ({
            let n = e.close_suggestion_menu();
            &&& n.blocks == e.blocks
            &&& n.menu_source == e.menu_source
            &&& n.focused == e.focused
            &&& e.menu_source is BuiltIn ==> n.suggestion is None && !n.menu_open()
            &&& e.menu_source is BuiltIn && e.suggestion is None ==> n == e
            &&& e.menu_source is BuiltIn && e.suggestion is Some ==> n.effects == e.effects.push(
                crate::effect::EffectView::Notify,
            )
            &&& e.menu_source is Application ==> n.effects == (if e.menu_open() {
                e.effects.push(crate::effect::EffectView::Menu(MenuActionView::Dismiss))
            } else {
                e.effects
            })
        }),
{
}

/// One step down from the last entry of the editor's own menu is the first, and
/// one step up from the first is the last; in between a step is one entry. In
/// an application's menu the selection stops at the ends, and the application
/// is told where it stands. Nothing else moves.
pub proof fn law_selection_moves(e: EditorView, delta: int)
    ensures
        ({
            let n = e.move_suggestion_selection(delta);
            &&& n.blocks == e.blocks
            &&& match e.menu_source {
                SourceView::BuiltIn => match e.suggestion {
                    Some(menu) => {
                        let count = e.menu_items().len() as int;
                        let now = n.suggestion->0;
                        &&& n.suggestion is Some
                        &&& now == (MenuView { selected: now.selected, ..menu })
                        &&& count > 0 ==> 0 <= now.selected < count
                        &&& count == 0 ==> n == e
                        &&& 0 <= menu.selected + delta < count ==> now.selected == menu.selected
                            + delta
                        &&& delta == 1 && menu.selected == count - 1 && count > 0 ==> now.selected
                            == 0
                        &&& delta == -1 && menu.selected == 0 && count > 0 ==> now.selected
                            == count - 1
                        &&& count > 0 ==> n.effects == e.effects.push(
                            crate::effect::EffectView::Notify,
                        )
                    },
                    None => n == e,
                },
                SourceView::Application(Some(menu)) => if menu.items.len() > 0 {
                    let at = menu.selected + delta;
                    let selected = if at < 0 {
                        0
                    } else if at >= menu.items.len() {
                        menu.items.len() - 1
                    } else {
                        at
                    };
                    &&& n.menu_source == SourceView::Application(
                        Some(crate::slash::AppMenuView { selected, ..menu }),
                    )
                    &&& n.effects == e.effects.push(
                        crate::effect::EffectView::Menu(MenuActionView::Select(selected)),
                    ).push(crate::effect::EffectView::Notify)
                    &&& n.suggestion == e.suggestion
                } else {
                    n == e
                },
                SourceView::Application(None) => n == e,
            }
        }),
{
    if e.menu_source is BuiltIn {
        if let Some(menu) = e.suggestion {
            let count = e.menu_items().len() as int;
            if count > 0 {
                let at = menu.selected + delta;
                vstd::arithmetic::div_mod::lemma_mod_bound(at, count);
                if 0 <= at < count {
                    vstd::arithmetic::div_mod::lemma_small_mod(at as nat, count as nat);
                }
                if at == count {
                    vstd::arithmetic::div_mod::lemma_mod_self_0(count);
                }
                if at == -1 {
                    vstd::arithmetic::div_mod::lemma_fundamental_div_mod_converse(
                        -1,
                        count,
                        -1,
                        count - 1,
                    );
                }
            }
        }
    }
}

/// Choosing from an application's menu tells it the tag of the entry that is
/// selected, and touches nothing.
pub proof fn law_application_confirmed(e: EditorView)
    requires
        e.menu_source is Application,
    ensures
        ({
            let n = e.confirm_suggestion();
            &&& n == (EditorView { effects: n.effects, ..e })
            &&& match e.menu_source {
                SourceView::Application(Some(menu)) if menu.selected < menu.items.len() => {
                    n.effects == e.effects.push(
                        crate::effect::EffectView::Menu(
                            MenuActionView::Pick(menu.items[menu.selected].tag),
                        ),
                    )
                },
                _ => n.effects == e.effects,
            }
        }),
{
}

/// Where an application's menu hangs: from the block that is written in, or
/// from the block of the number it names, where there is one.
pub proof fn law_application_place(e: EditorView)
    requires
        e.blocks.len() <= usize::MAX,
    ensures
        match e.application_menu_place() {
            Some(crate::slash::MenuPlace::Caret(ix)) => {
                &&& ix < e.blocks.len()
                &&& Some(e.blocks[ix as int].id) == e.active_id()
                &&& e.menu_source matches SourceView::Application(Some(menu)) && menu.items.len()
                    > 0 && menu.anchor is Caret
            },
            Some(crate::slash::MenuPlace::Block(id)) => {
                e.menu_source matches SourceView::Application(Some(menu)) && menu.items.len() > 0
                    && (menu.anchor matches crate::slash::ApplicationMenuAnchor::Block(index)
                    && index < e.blocks.len() && id == e.blocks[index as int].id)
            },
            None => {
                e.menu_source matches SourceView::Application(Some(menu)) ==> {
                    ||| menu.items.len() == 0
                    ||| menu.anchor is Caret && e.active_index() is None
                    ||| (menu.anchor matches crate::slash::ApplicationMenuAnchor::Block(index)
                        && index >= e.blocks.len())
                }
            },
        },
{
    if let Some(id) = e.active_id() {
        crate::view::lemma_find(e.blocks, id);
    }
}

/// Whether two characters are the same, the case of ASCII letters aside.
pub open spec fn same_letter(a: char, b: char) -> bool {
    ||| a == b
    ||| 'A' <= a <= 'Z' && b as int == a as int + 32
    ||| 'A' <= b <= 'Z' && a as int == b as int + 32
}

/// Whether `query` stands at the position `i` of `word`, the case of ASCII
/// letters aside.
pub open spec fn stands_at(word: Seq<char>, query: Seq<char>, i: int) -> bool {
    &&& 0 <= i
    &&& i + query.len() <= word.len()
    &&& forall|j: int| 0 <= j < query.len() ==> same_letter(#[trigger] word[i + j], query[j])
}

proof fn lemma_same_letter(a: char, b: char)
    ensures
        same_letter(a, b) <==> crate::text::lower(a) == crate::text::lower(b),
{
}

proof fn lemma_stands(word: Seq<char>, query: Seq<char>)
    ensures
        crate::text::contains(crate::text::lowered(word), crate::text::lowered(query))
            <==> exists|i: int| #[trigger] stands_at(word, query, i),
{
    let w = crate::text::lowered(word);
    let q = crate::text::lowered(query);
    assert forall|i: int| crate::text::occurs_at(w, q, i) <==> #[trigger] stands_at(
        word,
        query,
        i,
    ) by {
        if crate::text::occurs_at(w, q, i) {
            assert forall|j: int| 0 <= j < query.len() implies same_letter(
                #[trigger] word[i + j],
                query[j],
            ) by {
                assert(w.subrange(i, i + q.len())[j] == q[j]);
                assert(w[i + j] == crate::text::lower(word[i + j]));
                assert(q[j] == crate::text::lower(query[j]));
                lemma_same_letter(word[i + j], query[j]);
            }
        }
        if stands_at(word, query, i) {
            assert forall|j: int| 0 <= j < q.len() implies w.subrange(i, i + q.len())[j]
                == q[j] by {
                assert(same_letter(word[i + j], query[j]));
                lemma_same_letter(word[i + j], query[j]);
            }
            assert(w.subrange(i, i + q.len()) =~= q);
        }
    }
    if crate::text::contains(w, q) {
        let i = choose|i: int| crate::text::occurs_at(w, q, i);
        assert(stands_at(word, query, i));
    }
    if exists|i: int| #[trigger] stands_at(word, query, i) {
        let i = choose|i: int| #[trigger] stands_at(word, query, i);
        assert(crate::text::occurs_at(w, q, i));
    }
}

/// A query matches where it stands somewhere in the title or in a keyword,
/// letter by letter, the case of ASCII letters aside. An empty one matches
/// everything.
pub proof fn law_query_matches(query: Seq<char>, title: Seq<char>, keywords: Seq<Seq<char>>)
    ensures
        crate::suggestion::query_matches(query, title, keywords) <==> (exists|i: int| #[trigger]
            stands_at(title, query, i)) || (exists|w: int, i: int|
            0 <= w < keywords.len() && #[trigger] stands_at(keywords[w], query, i)),
        query.len() == 0 ==> crate::suggestion::query_matches(query, title, keywords),
{
    lemma_stands(title, query);
    if crate::suggestion::any_matches(query, keywords) {
        let w = choose|w: int|
            0 <= w < keywords.len() && crate::text::contains(
                crate::text::lowered(#[trigger] keywords[w]),
                crate::text::lowered(query),
            );
        lemma_stands(keywords[w], query);
        let i = choose|i: int| #[trigger] stands_at(keywords[w], query, i);
        assert(stands_at(keywords[w], query, i));
    }
    if exists|w: int, i: int| 0 <= w < keywords.len() && #[trigger] stands_at(keywords[w], query, i) {
        let (w, i) = choose|w: int, i: int|
            0 <= w < keywords.len() && #[trigger] stands_at(keywords[w], query, i);
        lemma_stands(keywords[w], query);
    }
    if query.len() == 0 {
        assert(stands_at(title, query, 0));
    }
}

/// The entries, the emoji and the people on offer are those that match, in the
/// order in which they were given: each list is filtered one by one.
pub proof fn law_offers_in_order(
    entries: Seq<crate::suggestion::SlashView>,
    entry: crate::suggestion::SlashView,
    emoji: Seq<crate::suggestion::EmojiView>,
    one: crate::suggestion::EmojiView,
    people: Seq<crate::suggestion::MentionView>,
    person: crate::suggestion::MentionView,
    query: Seq<char>,
)
    ensures
        crate::slash::block_items(entries.push(entry), query) == (if crate::suggestion::query_matches(
            query,
            entry.title,
            entry.keywords,
        ) {
            crate::slash::block_items(entries, query).push(
                ItemView::Block {
                    title: entry.title,
                    group: entry.group,
                    icon: entry.icon,
                    run: entry.run,
                },
            )
        } else {
            crate::slash::block_items(entries, query)
        }),
        crate::slash::emoji_items(emoji.push(one), query) == (if crate::suggestion::query_matches(
            query,
            one.name,
            one.keywords,
        ) {
            crate::slash::emoji_items(emoji, query).push(
                ItemView::Emoji { name: one.name, character: one.character },
            )
        } else {
            crate::slash::emoji_items(emoji, query)
        }),
        crate::slash::mention_items(people.push(person), query) == (
        if crate::suggestion::query_matches(query, person.name, Seq::empty()) {
            crate::slash::mention_items(people, query).push(ItemView::Mention(person))
        } else {
            crate::slash::mention_items(people, query)
        }),
        crate::slash::block_items(Seq::empty(), query).len() == 0,
        crate::slash::emoji_items(Seq::empty(), query).len() == 0,
        crate::slash::mention_items(Seq::empty(), query).len() == 0,
{
    assert(entries.push(entry).drop_last() =~= entries);
    assert(emoji.push(one).drop_last() =~= emoji);
    assert(people.push(person).drop_last() =~= people);
}

/// What an open menu offers: `/` the registered entries and one for each of the
/// other menus, `:` the emoji once something was typed, `@` the people.
pub proof fn law_menu_offers(e: EditorView)
    ensures
        match e.suggestion {
            Some(menu) => match menu.trigger {
                Trigger::Slash => e.menu_items().to_multiset() == crate::slash::block_items(
                    e.reg.slash + crate::slash::trigger_items(),
                    menu.query,
                ).to_multiset(),
                Trigger::Emoji => if menu.query.len() == 0 {
                    e.menu_items().len() == 0
                } else {
                    e.menu_items() == crate::slash::emoji_items(e.emoji, menu.query)
                },
                Trigger::Mention => e.menu_items() == crate::slash::mention_items(
                    e.mentions,
                    menu.query,
                ),
            },
            None => e.menu_items().len() == 0,
        },
        crate::slash::trigger_items().len() == 2,
        crate::slash::trigger_items()[0].run == SlashRun::Open(Trigger::Mention),
        crate::slash::trigger_items()[1].run == SlashRun::Open(Trigger::Emoji),
        crate::slash::trigger_items()[0].title == "Mention"@,
        crate::slash::trigger_items()[1].title == "Emoji"@,
        crate::slash::trigger_items()[0].group == "Insert"@,
        crate::slash::trigger_items()[1].group == "Insert"@,
{
    if let Some(menu) = e.suggestion {
        if menu.trigger == Trigger::Slash {
            crate::slash::law_grouped(
                crate::slash::block_items(
                    e.reg.slash + crate::slash::trigger_items(),
                    menu.query,
                ),
                0,
            );
        }
    }
}

/// The groups of a menu stand in this order, and any other behind them.
pub proof fn law_group_order(group: Seq<char>)
    ensures
        crate::slash::rank("AI"@) < crate::slash::rank("Style"@) < crate::slash::rank("Insert"@)
            < crate::slash::rank("Upload"@) < crate::slash::rank("Emoji"@) < crate::slash::rank(
            "People"@,
        ),
        group != "AI"@ && group != "Style"@ && group != "Insert"@ && group != "Upload"@ && group
            != "Emoji"@ && group != "People"@ ==> crate::slash::rank("People"@)
            < crate::slash::rank(group),
{
    reveal_strlit("AI");
    reveal_strlit("Style");
    reveal_strlit("Insert");
    reveal_strlit("Upload");
    reveal_strlit("Emoji");
    reveal_strlit("People");
    assert("AI"@.len() == 2 && "Style"@.len() == 5 && "Emoji"@.len() == 5);
    assert("Insert"@.len() == 6 && "Upload"@.len() == 6 && "People"@.len() == 6);
    assert("Insert"@[0] != "Upload"@[0] && "Insert"@[0] != "People"@[0] && "Upload"@[0]
        != "People"@[0]);
    assert("Style"@[0] != "Emoji"@[0]);
}

/// Whether `rows` show `items` in order, entry `i` at row `at[i]`: under the name
/// of its group where a new one begins, with a line above that name unless it is
/// the first, and right below the entry before it otherwise.
pub open spec fn lays_out(
    items: Seq<ItemView>,
    selected: int,
    rows: Seq<RowView>,
    at: Seq<int>,
) -> bool {
    &&& at.len() == items.len()
    &&& rows.len() == (if at.len() > 0 {
        at[at.len() - 1] + 1
    } else {
        0
    })
    &&& forall|i: int| 0 <= i < items.len() ==> entry_at(items, selected, rows, at, i)
}

/// Whether entry `i` of a menu stands where it should.
pub open spec fn entry_at(
    items: Seq<ItemView>,
    selected: int,
    rows: Seq<RowView>,
    at: Seq<int>,
    i: int,
) -> bool {
    let above: int = if i > 0 {
        at[i - 1]
    } else {
        -1
    };
    let group = items[i].group();
    let first = i == 0 || items[i - 1].group().len() == 0;
    let same = if i > 0 {
        items[i - 1].group() == group
    } else {
        group.len() == 0
    };
    &&& 0 <= at[i] < rows.len()
    &&& rows[at[i]] == RowView::Entry {
        index: i,
        selected: i == selected,
        leading: crate::slash::leading_of(items[i]),
        title: items[i].title(),
    }
    &&& same ==> at[i] == above + 1
    &&& !same && first ==> at[i] == above + 2 && rows[at[i] - 1] == RowView::Heading(group)
    &&& !same && !first ==> at[i] == above + 3 && rows[at[i] - 1] == RowView::Heading(group)
        && rows[at[i] - 2] == RowView::Separator
}

proof fn lemma_rows_grow(items: Seq<ItemView>, selected: int, m: int, n: int)
    requires
        0 <= m <= n,
    ensures
        ({
            let a = crate::slash::menu_rows(items, selected, m);
            let b = crate::slash::menu_rows(items, selected, n);
            &&& a.len() <= b.len()
            &&& forall|j: int| 0 <= j < a.len() ==> (#[trigger] b[j]) == a[j]
        }),
    decreases n,
{
    if m < n {
        lemma_rows_grow(items, selected, m, n - 1);
    }
}

/// The rows of a menu show its entries in order, each once, under the names of
/// their groups, and the one of the selected number as selected.
pub proof fn law_menu_rows(items: Seq<ItemView>, selected: int)
    ensures
        exists|at: Seq<int>| #[trigger]
            lays_out(
                items,
                selected,
                crate::slash::menu_rows(items, selected, items.len() as int),
                at,
            ),
{
    let n = items.len() as int;
    let rows = crate::slash::menu_rows(items, selected, n);
    let at = Seq::new(
        items.len(),
        |i: int| crate::slash::menu_rows(items, selected, i + 1).len() as int - 1,
    );
    assert forall|i: int| 0 <= i < n implies entry_at(items, selected, rows, at, i) by {
        let a = crate::slash::menu_rows(items, selected, i);
        let b = crate::slash::menu_rows(items, selected, i + 1);
        let added = crate::slash::rows_for(items, i, selected);
        lemma_rows_grow(items, selected, i + 1, n);
        assert(b == a + added);
        assert(added.len() >= 1);
        assert(rows[at[i]] == b[at[i]]);
        assert(at[i] == a.len() + added.len() - 1);
        let above: int = if i > 0 {
            at[i - 1]
        } else {
            -1
        };
        assert(above == a.len() - 1);
        if added.len() >= 2 {
            assert(rows[at[i] - 1] == b[at[i] - 1]);
        }
        if added.len() >= 3 {
            assert(rows[at[i] - 2] == b[at[i] - 2]);
        }
        let group = items[i].group();
        assert(group.len() == 0 ==> group =~= Seq::<char>::empty());
    }
    assert(lays_out(items, selected, rows, at));
}

/// The editor's own menu is on screen exactly while it is open, its block is in
/// the document and it has something to offer; an application's menu keeps it
/// off.
pub proof fn law_menu_on_screen(e: EditorView)
    ensures
        e.suggestion_rows() is Some <==> e.menu_source is BuiltIn && (e.suggestion matches Some(
            menu,
        ) && crate::view::known(e.blocks, menu.block)) && e.menu_items().len() > 0,
        e.suggestion_rows() matches Some(rows) ==> rows == crate::slash::menu_rows(
            e.menu_items(),
            e.suggestion->0.selected,
            e.menu_items().len() as int,
        ),
{
}

/// What an entry is called, the group it stands in and what stands in front of
/// it: a block's own title, group and icon, an emoji by its name, and a person
/// by name and initial.
pub proof fn law_entry_names(
    title: Seq<char>,
    group: Seq<char>,
    icon: Seq<char>,
    run: SlashRun,
    person: crate::suggestion::MentionView,
)
    ensures
        ({
            let block = ItemView::Block { title, group, icon, run };
            let emoji = ItemView::Emoji { name: title, character: icon };
            let mention = ItemView::Mention(person);
            &&& block.title() == title
            &&& block.group() == group
            &&& crate::slash::leading_of(block) == crate::slash::LeadingView::Icon(icon)
            &&& emoji.title() == title
            &&& emoji.group() == "Emoji"@
            &&& crate::slash::leading_of(emoji) == crate::slash::LeadingView::Text(icon)
            &&& mention.title() == person.name
            &&& mention.group() == "People"@
            &&& crate::slash::leading_of(mention) == crate::slash::LeadingView::Text(
                person.name.take(
                    if person.name.len() > 0 {
                        1
                    } else {
                        0
                    },
                ),
            )
        }),
{
    reveal_strlit("");
    if person.name.len() > 0 {
        assert(person.name.take(1) =~= seq![person.name[0]]);
    } else {
        assert(person.name.take(0) =~= ""@);
    }
}

/// The id in a mention's mark is that of the person, and no other mark holds
/// one.
pub proof fn law_mentioned(kind: crate::mark::KindView, id: Seq<char>)
    ensures
        crate::slash::mentioned(kind) == Some(id) <==> kind == crate::mark::KindView::Mention(id),
{
}

/// An application's menu is what it was set to be, and asks to be shown where it
/// is another than before. The editor's own menu is gone then, and nothing else
/// changes.
pub proof fn law_application_owns(e: EditorView, menu: Option<crate::slash::AppMenuView>)
    ensures
        ({
            let n = e.set_application_menu(menu);
            let same = e.menu_source == SourceView::Application(menu);
            &&& n.menu_source == SourceView::Application(menu)
            &&& same ==> n == e
            &&& !same ==> n == (EditorView {
                menu_source: SourceView::Application(menu),
                suggestion: None,
                effects: e.effects.push(crate::effect::EffectView::Notify),
                ..e
            })
        }),
{
}

/// The rows of an application's menu are its items, each once and in order,
/// labelled as they are, and the one of the selected number is selected.
pub proof fn law_application_rows(
    menu: crate::slash::AppMenuView,
    rows: Seq<crate::slash::ApplicationRow>,
    i: int,
)
    requires
        crate::slash::are_application_rows(menu, rows),
    ensures
        rows.len() == menu.items.len(),
        0 <= i < rows.len() ==> rows[i].index == i && rows[i].label@ == menu.items[i].label && (
        rows[i].selected <==> i == menu.selected),
{
}

/// An entry can be chosen exactly where the trigger of the editor's own menu lies
/// between characters of its block.
pub proof fn law_menu_fits_exactly(e: EditorView)
    ensures
        e.menu_fits() <==> e.menu_source is Application || e.suggestion is None || ({
            let menu = e.suggestion->0;
            !crate::view::known(e.blocks, menu.block) || crate::text::boundary(
                e.blocks[crate::view::find(e.blocks, menu.block)->0].text,
                menu.start,
            )
        }),
{
    if let Some(menu) = e.suggestion {
        crate::view::lemma_find(e.blocks, menu.block);
    }
}

} // verus!
