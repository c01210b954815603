//! What the selection toolbar shows and when, and what the link editor does to
//! the text it was opened from.

use vstd::prelude::*;

use crate::block::Selection;
use crate::toolbar::{ActiveMarks, LinkEditor, PartView, ToolbarPlace};
use crate::view::{Caret, EditorView};

verus! {

/// Whether the editor holds a selection that the toolbar can act on: whole
/// blocks, or a stretch of the focused block's text, wherever in the block it
/// begins, where that block is on screen and its type carries marks.
pub open spec fn something_selected(e: EditorView) -> bool {
    ||| e.selected.len() > 0
    ||| exists|ix: int| #[trigger] text_selected_in(e, ix)
}

/// Whether a stretch of the text of block `ix` is selected, and that block is
/// focused, on screen and of a type that carries marks.
pub open spec fn text_selected_in(e: EditorView, ix: int) -> bool {
    &&& 0 <= ix < e.blocks.len()
    &&& e.focused == Some(e.blocks[ix].id)
    &&& forall|j: int| 0 <= j < ix ==> (#[trigger] e.blocks[j]).id != e.blocks[ix].id
    &&& e.blocks[ix].input.start < e.blocks[ix].input.end
    &&& crate::view::visible(e.blocks, ix)
    &&& (e.reg.caps)(e.blocks[ix].ty).marks
}

/// Whether something else is going on over the selection: a menu, a drag, a
/// comment, the link editor or a press.
pub open spec fn is_busy(e: EditorView) -> bool {
    ||| (match e.menu_source {
        crate::slash::SourceView::BuiltIn => e.suggestion is Some,
        crate::slash::SourceView::Application(menu) => menu is Some,
    })
    ||| e.drop_target is Some
    ||| e.comment_draft
    ||| e.link_editor is Some
    ||| e.mouse_anchor is Some
}

/// The toolbar shows exactly where something is selected and nothing else is
/// going on over it, unless the application's toolbar is empty.
pub proof fn law_toolbar_shows(e: EditorView)
    ensures
        e.selection_toolbar_visible() <==> something_selected(e) && !is_busy(e) && (
        e.toolbar matches Some(items) ==> items.len() > 0),
{
    if let Some(id) = e.focused {
        crate::view::lemma_find(e.blocks, id);
        if let Some(ix) = crate::view::find(e.blocks, id) {
            if e.text_selected() {
                assert(text_selected_in(e, ix));
            }
        }
        if exists|ix: int| #[trigger] text_selected_in(e, ix) {
            let ix = choose|ix: int| #[trigger] text_selected_in(e, ix);
            assert(crate::view::is_index(e.blocks, id, ix));
        }
    }
}

/// The toolbar has parts exactly where it shows, and it hangs over the first of
/// the selected blocks, or over the very stretch of text that is selected.
pub proof fn law_toolbar_place(e: EditorView, active: ActiveMarks)
    requires
        e.blocks.len() <= usize::MAX,
    ensures
        e.toolbar_parts(active) is Some <==> e.selection_toolbar_visible(),
        e.selected.len() > 0 ==> e.toolbar_place() == Some(ToolbarPlace::Block(e.selected[0])),
        e.selected.len() == 0 ==> forall|ix: int| #[trigger]
            text_selected_in(e, ix) ==> e.toolbar_place() == Some(
                ToolbarPlace::Range {
                    ix: ix as usize,
                    start: e.blocks[ix].input.start,
                    end: e.blocks[ix].input.end,
                },
            ),
        e.selection_toolbar_visible() ==> e.toolbar_place() is Some,
{
    assert forall|ix: int| e.selected.len() == 0 && #[trigger] text_selected_in(
        e,
        ix,
    ) implies e.toolbar_place() == Some(
        ToolbarPlace::Range {
            ix: ix as usize,
            start: e.blocks[ix].input.start,
            end: e.blocks[ix].input.end,
        },
    ) by {
        assert(crate::view::is_index(e.blocks, e.blocks[ix].id, ix));
        crate::view::lemma_find(e.blocks, e.blocks[ix].id);
    }
}

/// Whether part `i` of a toolbar is a button for a mark.
pub open spec fn is_button(
    parts: Seq<PartView>,
    i: int,
    icon: Seq<char>,
    tooltip: Seq<char>,
    kind: crate::mark::KindView,
    active: bool,
) -> bool {
    parts[i] == (PartView::Mark { icon, tooltip, kind, active })
}

/// The editor's own toolbar: the menu of block types under the name of the
/// active one, a button for each of five marks that shows whether the selection
/// carries that mark, then comment, link and color, and the rarer marks unless
/// the selection is code.
pub proof fn law_standard_toolbar(e: EditorView, active: ActiveMarks)
    requires
        e.selection_toolbar_visible(),
        e.toolbar is None,
    ensures
        ({
            let parts = e.toolbar_parts(active)->0;
            let label = match e.active_index() {
                Some(ix) => (e.reg.label)(e.blocks[ix].ty, e.blocks[ix].attrs),
                None => "Text"@,
            };
            &&& e.toolbar_parts(active) is Some
            &&& parts.len() == (if active.code {
                11int
            } else {
                13int
            })
            &&& parts[0] == PartView::TurnInto(label)
            &&& parts[1] is Separator
            &&& is_button(
                parts,
                2,
                "bold"@,
                "Bold"@,
                crate::mark::KindView::Bold,
                active.bold,
            )
            &&& is_button(
                parts,
                3,
                "italic"@,
                "Italic"@,
                crate::mark::KindView::Italic,
                active.italic,
            )
            &&& is_button(
                parts,
                4,
                "underline"@,
                "Underline"@,
                crate::mark::KindView::Underline,
                active.underline,
            )
            &&& is_button(
                parts,
                5,
                "strikethrough"@,
                "Strikethrough"@,
                crate::mark::KindView::Strike,
                active.strike,
            )
            &&& is_button(
                parts,
                6,
                "code"@,
                "Code"@,
                crate::mark::KindView::Code,
                active.code,
            )
            &&& parts[7] is Separator
            &&& parts[8] is Comment
            &&& parts[9] == (PartView::Link { active: active.link })
            &&& parts[10] is Color
            &&& !active.code ==> parts[11] is Separator && parts[12] is More
        }),
{
}

/// Setting the toolbar puts the given items in it and asks for a repaint where
/// they are others than before; nothing else changes.
pub proof fn law_toolbar_set(
    e: EditorView,
    items: Option<Seq<crate::toolbar::ToolbarItemView>>,
)
    ensures
        ({
            let n = e.set_toolbar(items);
            &&& n.toolbar == items
            &&& n == (EditorView { toolbar: items, effects: n.effects, ..e })
            &&& n.effects == (if e.toolbar == items {
                e.effects
            } else {
                e.effects.push(crate::effect::EffectView::Notify)
            })
        }),
{
}

/// A tag is told to the application exactly where an item of its toolbar
/// carries it.
pub proof fn law_tag_declared(e: EditorView, tag: Seq<char>)
    ensures
        ({
            let n = e.choose_toolbar_action(tag);
            let declared = e.toolbar matches Some(items) && exists|i: int|
                0 <= i < items.len() && (#[trigger] items[i]).tag == tag;
            n.effects == (if declared {
                e.effects.push(crate::effect::EffectView::Toolbar(tag))
            } else {
                e.effects
            })
        }),
{
}

/// The link editor opens over the link that is there, or over exactly the
/// stretch that is selected in the active block, and asks for an input that
/// holds the address there is. Where there is nothing to link it stays shut. No
/// block changes.
pub proof fn law_link_editor_opens(
    e: EditorView,
    ix: int,
    existing: Option<(usize, usize, Seq<char>)>,
)
    requires
        e.active_index() == Some(ix),
    ensures
        ({
            let n = e.open_link_editor(existing);
            let block = e.blocks[ix];
            let (start, end) = match existing {
                Some(link) => (link.0, link.1),
                None => (block.input.start, block.input.end),
            };
            &&& n.blocks == e.blocks
            &&& start < end ==> n.link_editor == Some(LinkEditor { block: block.id, start, end })
            &&& start >= end ==> n == e
            &&& start < end ==> n.effects.len() == e.effects.len() + 2
                && n.effects[e.effects.len() as int] == crate::effect::EffectView::OpenLinkInput(
                match existing {
                    Some(link) => link.2,
                    None => Seq::empty(),
                },
            )
            &&& n.focused == e.focused
            &&& n.selected == e.selected
        }),
{
    reveal_strlit("");
    assert(""@ =~= Seq::<char>::empty());
}

/// Whether the link editor's range of block `ix` has become a link to `href`, or
/// none where that is `None`, and nothing else has changed: every byte outside
/// the range carries the links it carried, every byte the other marks it
/// carried, the text stays, and so do the other blocks.
pub open spec fn was_linked(
    e: EditorView,
    n: EditorView,
    ix: int,
    start: int,
    end: int,
    href: Option<Seq<char>>,
    k: crate::mark::KindView,
    o: int,
) -> bool {
    let (was, now) = (e.blocks[ix], n.blocks[ix]);
    &&& now.text == was.text
    &&& now.ty == was.ty
    &&& now.attrs == was.attrs
    &&& now.id == was.id
    &&& !(k is Link) || !(start <= o < end) ==> (crate::mark::covers(now.marks, k, o)
        <==> crate::mark::covers(was.marks, k, o))
    &&& k is Link && start <= o < end ==> (crate::mark::covers(now.marks, k, o) <==> href is Some
        && k == crate::mark::KindView::Link(href->0))
    &&& n.blocks.len() == e.blocks.len()
    &&& forall|j: int|
        0 <= j < e.blocks.len() && j != ix ==> (#[trigger] n.blocks[j]).content()
            == e.blocks[j].content()
}

/// The address that a link to what was written leads to: what was written, less
/// the white space around it, with `https://` in front unless it says how to
/// reach it itself or stays on the page. There is none where only white space
/// was written.
pub open spec fn address(written: Seq<char>) -> Option<Seq<char>> {
    let bare = crate::text::trim(written);
    if forall|i: int| 0 <= i < written.len() ==> crate::text::is_white(#[trigger] written[i]) {
        None
    } else if (exists|i: int| 0 <= i && i + 3 <= bare.len() && #[trigger] bare.subrange(i, i + 3)
        == seq![':', '/', '/']) || (bare.len() >= 7 && bare.take(7) == seq![
        'm',
        'a',
        'i',
        'l',
        't',
        'o',
        ':',
    ]) || (bare.len() >= 1 && bare[0] == '#') {
        Some(bare)
    } else {
        Some(seq!['h', 't', 't', 'p', 's', ':', '/', '/'] + bare)
    }
}

proof fn lemma_address(written: Seq<char>)
    ensures
        crate::text::blank(written) <==> address(written) is None,
        address(written) matches Some(full) ==> full == crate::toolbar::normalized(written),
{
    let bare = crate::text::trim(written);
    reveal_strlit("://");
    reveal_strlit("mailto:");
    reveal_strlit("#");
    reveal_strlit("https://");
    assert("://"@ =~= seq![':', '/', '/']);
    assert("mailto:"@ =~= seq!['m', 'a', 'i', 'l', 't', 'o', ':']);
    assert("#"@ =~= seq!['#']);
    assert("https://"@ =~= seq!['h', 't', 't', 'p', 's', ':', '/', '/']);
    if crate::text::contains(bare, "://"@) {
        let i = choose|i: int| crate::text::occurs_at(bare, "://"@, i);
        assert(bare.subrange(i, i + 3) == seq![':', '/', '/']);
    }
    if exists|i: int|
        0 <= i && i + 3 <= bare.len() && #[trigger] bare.subrange(i, i + 3) == seq![
            ':',
            '/',
            '/',
        ] {
        let i = choose|i: int|
            0 <= i && i + 3 <= bare.len() && #[trigger] bare.subrange(i, i + 3) == seq![
                ':',
                '/',
                '/',
            ];
        assert(crate::text::occurs_at(bare, "://"@, i));
    }
    if bare.len() >= 7 {
        assert(bare.take(7) =~= bare.subrange(0, 7));
    }
    if bare.len() >= 1 {
        assert(bare.subrange(0, 1) =~= seq![bare[0]]);
        assert(seq![bare[0]][0] == bare[0] && seq!['#'][0] == '#');
        if bare[0] == '#' {
            assert(bare.subrange(0, 1) =~= "#"@);
        }
    }
}

/// The address that a link leads to is what was written, less the white space
/// around it and with a scheme where it had none.
pub proof fn law_address(written: Seq<char>)
    ensures
        address(written) matches Some(full) ==> full == crate::toolbar::normalized(written),
{
    lemma_address(written);
}

/// Applying the link editor puts a link to the address on the stretch it was
/// opened over, or takes the links off it where the address is blank, and leaves
/// everything else as it was. The link editor closes, and the caret stands
/// behind that stretch.
pub proof fn law_link_applied(
    e: EditorView,
    ix: int,
    href: Seq<char>,
    k: crate::mark::KindView,
    o: int,
)
    requires
        e.wf(),
        e.link_editor matches Some(editor) && crate::view::find(e.blocks, editor.block) == Some(ix),
    ensures
        ({
            let n = e.apply_link_editor(href);
            let editor = e.link_editor->0;
            &&& was_linked(
                e,
                n,
                ix,
                editor.start as int,
                editor.end as int,
                address(href),
                k,
                o,
            )
            &&& n.link_editor is None
            &&& (e.reg.caps)(e.blocks[ix].ty).textual ==> n.focused == Some(editor.block)
            &&& (e.reg.caps)(e.blocks[ix].ty).textual && crate::text::boundary(
                e.blocks[ix].text,
                editor.end as int,
            ) ==> n.blocks[ix].input == Selection::at(editor.end as int)
        }),
{
    let editor = e.link_editor->0;
    let closed = EditorView { link_editor: None, ..e };
    lemma_address(href);
    let (s, t) = (editor.start as int, editor.end as int);
    let m = e.blocks[ix].marks;
    let link = crate::mark::KindView::Link(crate::toolbar::normalized(href));
    crate::mark::law_cut(m, crate::mark::KindView::Link(""@), s, t, k, o);
    crate::mark::law_add(m, link, s, t, k, o);
    lemma_linked(e, closed, ix, e.linked(ix, s, t, href), editor);
}

/// Removing the link takes every link off the stretch that the link editor was
/// opened over, and leaves everything else as it was.
pub proof fn law_link_removed(e: EditorView, ix: int, k: crate::mark::KindView, o: int)
    requires
        e.wf(),
        e.link_editor matches Some(editor) && crate::view::find(e.blocks, editor.block) == Some(ix),
    ensures
        ({
            let n = e.remove_link();
            let editor = e.link_editor->0;
            &&& was_linked(e, n, ix, editor.start as int, editor.end as int, None, k, o)
            &&& n.link_editor is None
            &&& (e.reg.caps)(e.blocks[ix].ty).textual ==> n.focused == Some(editor.block)
        }),
{
    let editor = e.link_editor->0;
    let (s, t) = (editor.start as int, editor.end as int);
    let m = e.blocks[ix].marks;
    reveal_strlit("");
    assert(crate::text::blank(""@));
    crate::mark::law_cut(m, crate::mark::KindView::Link(""@), s, t, k, o);
    let marks = e.linked(ix, s, t, ""@);
    let closed = EditorView { link_editor: None, ..e };
    lemma_linked(e, closed, ix, marks, editor);
    let cut = e.remark(ix, marks);
    assert(EditorView { link_editor: None, ..cut } == closed.remark(ix, marks));
}

proof fn lemma_linked(
    e: EditorView,
    closed: EditorView,
    ix: int,
    marks: Seq<crate::mark::MarkView>,
    editor: LinkEditor,
)
    requires
        e.wf(),
        closed == (EditorView { link_editor: None, ..e }),
        crate::view::find(e.blocks, editor.block) == Some(ix),
    ensures
        ({
            let n = closed.remark(ix, marks).focus_block(editor.block, Caret::At(editor.end));
            &&& n.link_editor is None
            &&& n.blocks.len() == e.blocks.len()
            &&& n.blocks[ix].text == e.blocks[ix].text
            &&& n.blocks[ix].ty == e.blocks[ix].ty
            &&& n.blocks[ix].attrs == e.blocks[ix].attrs
            &&& n.blocks[ix].id == e.blocks[ix].id
            &&& n.blocks[ix].marks == marks
            &&& forall|j: int|
                0 <= j < e.blocks.len() && j != ix ==> (#[trigger] n.blocks[j]).content()
                    == e.blocks[j].content()
            &&& (e.reg.caps)(e.blocks[ix].ty).textual ==> n.focused == Some(editor.block)
            &&& (e.reg.caps)(e.blocks[ix].ty).textual && crate::text::boundary(
                e.blocks[ix].text,
                editor.end as int,
            ) ==> n.blocks[ix].input == Selection::at(editor.end as int)
        }),
{
    crate::view::lemma_find(e.blocks, editor.block);
    let put = closed.remark(ix, marks);
    crate::view::lemma_same_ids(e.blocks, put.blocks);
    let text = e.blocks[ix].text;
    crate::text::lemma_snap(text, editor.end as int);
    if crate::text::boundary(text, editor.end as int) {
        crate::text::lemma_split(text, editor.end as int);
    }
}

/// A link goes exactly where the selection was: opened over a selection and
/// applied, the link editor leaves every byte of the block outside it linked as
/// it was.
pub proof fn law_selection_linked(
    e: EditorView,
    ix: int,
    href: Seq<char>,
    k: crate::mark::KindView,
    o: int,
)
    requires
        e.wf(),
        e.active_index() == Some(ix),
        e.blocks[ix].input.start < e.blocks[ix].input.end,
    ensures
        was_linked(
            e,
            e.open_link_editor(None).apply_link_editor(href),
            ix,
            e.blocks[ix].input.start as int,
            e.blocks[ix].input.end as int,
            address(href),
            k,
            o,
        ),
{
    let n = e.open_link_editor(None);
    law_link_editor_opens(e, ix, None);
    crate::view::lemma_find(e.blocks, e.active_id()->0);
    crate::view::lemma_find(e.blocks, e.blocks[ix].id);
    law_link_applied(n, ix, href, k, o);
}

/// The link editor is on screen over the stretch it was opened over, while its
/// block is in the document, and can be applied once something is written in
/// it.
pub proof fn law_link_card(e: EditorView, value: Seq<char>)
    requires
        e.blocks.len() <= usize::MAX,
    ensures
        match e.link_card(value) {
            Some(card) => {
                &&& e.link_editor is Some
                &&& card.ix < e.blocks.len()
                &&& e.blocks[card.ix as int].id == e.link_editor->0.block
                &&& card.start == e.link_editor->0.start
                &&& card.end == e.link_editor->0.end
                &&& card.can_apply <==> value.len() > 0
            },
            None => e.link_editor matches Some(editor) ==> !crate::view::known(
                e.blocks,
                editor.block,
            ),
        },
{
    if let Some(editor) = e.link_editor {
        crate::view::lemma_find(e.blocks, editor.block);
    }
}

/// The color menu names the colors of text, then the colors of highlights, each
/// list in its order and every color once, and a line stands between the two.
/// Choosing a color applies that color, and its swatch is filled with it.
pub proof fn law_color_menu(
    texts: Seq<(crate::mark::TextColor, String)>,
    highlights: Seq<(crate::mark::HighlightColor, String)>,
    i: int,
)
    ensures
        ({
            let rows = crate::toolbar::color_rows(texts, highlights);
            let below = texts.len() as int + 3;
            &&& rows.len() == texts.len() + highlights.len() + 3
            &&& rows[0] == crate::toolbar::ColorRowView::Label("Text color"@)
            &&& rows[below - 2] is Separator
            &&& rows[below - 1] == crate::toolbar::ColorRowView::Label("Highlight color"@)
            &&& 0 <= i < texts.len() ==> rows[1 + i] == (
            crate::toolbar::ColorRowView::Swatch {
                action: crate::toolbar::ApplyColor::Text(texts[i].0),
                label: texts[i].1@,
                fill: crate::style::Tint::Text(texts[i].0),
            })
            &&& 0 <= i < highlights.len() ==> rows[below + i] == (
            crate::toolbar::ColorRowView::Swatch {
                action: crate::toolbar::ApplyColor::Highlight(highlights[i].0),
                label: highlights[i].1@,
                fill: crate::style::Tint::Highlight(Some(highlights[i].0)),
            })
        }),
{
}

/// The link editor tells listeners of a change exactly where the links of the
/// document are others than before.
pub proof fn law_link_told(e: EditorView, ix: int, href: Seq<char>)
    requires
        e.link_editor matches Some(editor) && crate::view::find(e.blocks, editor.block) == Some(ix),
    ensures
        ({
            let n = e.apply_link_editor(href);
            crate::laws::announced(e, n) <==> n.blocks[ix].marks != e.blocks[ix].marks
        }),
        ({
            let n = e.remove_link();
            crate::laws::announced(e, n) <==> n.blocks[ix].marks != e.blocks[ix].marks
        }),
{
    let editor = e.link_editor->0;
    crate::view::lemma_find(e.blocks, editor.block);
    let (s, t) = (editor.start as int, editor.end as int);
    lemma_told(e, ix, e.linked(ix, s, t, href), editor);
    lemma_told(e, ix, e.linked(ix, s, t, ""@), editor);
    let cut = e.remark(ix, e.linked(ix, s, t, ""@));
    let closed = EditorView { link_editor: None, ..e };
    assert(EditorView { link_editor: None, ..cut } == closed.remark(
        ix,
        e.linked(ix, s, t, ""@),
    ));
}

proof fn lemma_told(
    e: EditorView,
    ix: int,
    marks: Seq<crate::mark::MarkView>,
    editor: LinkEditor,
)
    requires
        crate::view::find(e.blocks, editor.block) == Some(ix),
    ensures
        ({
            let closed = EditorView { link_editor: None, ..e };
            let n = closed.remark(ix, marks).focus_block(
                editor.block,
                Caret::At(editor.end),
            ).emit(crate::effect::EffectView::Notify);
            &&& n.blocks[ix].marks == marks
            &&& crate::laws::announced(e, n) <==> marks != e.blocks[ix].marks
        }),
{
    let closed = EditorView { link_editor: None, ..e };
    crate::view::lemma_find(e.blocks, editor.block);
    let put = closed.remark(ix, marks);
    crate::view::lemma_same_ids(e.blocks, put.blocks);
    let n = put.focus_block(editor.block, Caret::At(editor.end)).emit(
        crate::effect::EffectView::Notify,
    );
    let from = e.effects.len() as int;
    assert(e.blocks[ix].id == editor.block);
    assert(n.effects[from] is Decorate);
    if marks != e.blocks[ix].marks {
        assert(n.effects[from + 1] == crate::effect::EffectView::Document);
    } else {
        assert(put.effects.len() == from + 1);
        assert forall|i: int| from <= i < n.effects.len() implies (#[trigger] n.effects[i])
            != crate::effect::EffectView::Document by {}
    }
}

/// The range of the link editor lies in the text of its block exactly where it
/// ends no later than that text does.
pub proof fn law_link_fits(e: EditorView)
    ensures
        e.link_fits() <==> e.link_editor is None || ({
            let editor = e.link_editor->0;
            !crate::view::known(e.blocks, editor.block) || editor.end <= crate::text::blen(
                e.blocks[crate::view::find(e.blocks, editor.block)->0].text,
            )
        }),
{
    if let Some(editor) = e.link_editor {
        crate::view::lemma_find(e.blocks, editor.block);
    }
}

} // verus!
