//! The floating toolbar shown over a text selection, and the link editor it
//! opens.

use vstd::prelude::*;

use crate::block::{BlockId, BlockSpec};
use crate::effect::Effect;
use crate::mark::{HighlightColor, MarkKind, TextColor};
use crate::style::Tint;
use crate::text;
use crate::view::{Caret, DocumentChanged, EditorView, NotionEditor};

verus! {

/// A toolbar item owned by an embedding application's interaction model.
#[derive(Clone, Debug, PartialEq, Eq)]
pub struct ToolbarItem {
    pub tag: String,
    pub label: String,
}

/// A [`ToolbarItem`] as the contracts see it.
pub struct ToolbarItemView {
    pub tag: Seq<char>,
    pub label: Seq<char>,
}

impl View for ToolbarItem {
    type V = ToolbarItemView;

    open spec fn view(&self) -> ToolbarItemView {
        ToolbarItemView { tag: self.tag@, label: self.label@ }
    }
}

/// The views of a list of items.
pub open spec fn item_views(items: Seq<ToolbarItem>) -> Seq<ToolbarItemView> {
    items.map_values(|item: ToolbarItem| item@)
}

/// The view of a list of items that may be absent.
pub open spec fn opt_item_views(items: Option<Vec<ToolbarItem>>) -> Option<Seq<ToolbarItemView>> {
    match items {
        Some(items) => Some(item_views(items@)),
        None => None,
    }
}

/// The host returns a selected tag without applying an editing policy.
#[derive(Debug)]
pub struct ToolbarAction {
    pub tag: String,
}

/// The link editor opened from the toolbar: the bytes `start..end` of a block.
#[derive(Clone, Copy, Debug, PartialEq, Eq, Structural)]
pub struct LinkEditor {
    pub block: BlockId,
    pub start: usize,
    pub end: usize,
}

impl ToolbarItem {
    /// Whether two items are the same.
    pub fn same(&self, other: &ToolbarItem) -> (same: bool)
        ensures
            same == (self@ == other@),
    {
        text::text_eq(&self.tag, &other.tag) && text::text_eq(&self.label, &other.label)
    }
}

/// Whether two lists hold the same items.
pub fn same_items(a: &Vec<ToolbarItem>, b: &Vec<ToolbarItem>) -> (same: bool)
    ensures
        same == (item_views(a@) == item_views(b@)),
{
    if a.len() != b.len() {
        assert(item_views(a@).len() != item_views(b@).len());
        return false;
    }
    let mut i: usize = 0;
    while i < a.len()
        invariant
            i <= a@.len(),
            a@.len() == b@.len(),
            forall|j: int| 0 <= j < i ==> item_views(a@)[j] == item_views(b@)[j],
        decreases a@.len() - i,
    {
        if !a[i].same(&b[i]) {
            assert(item_views(a@)[i as int] != item_views(b@)[i as int]);
            return false;
        }
        i = i + 1;
    }
    assert(item_views(a@) =~= item_views(b@));
    true
}

/// Whether one of `items` has this tag.
pub open spec fn tagged(items: Seq<ToolbarItemView>, tag: Seq<char>) -> bool {
    exists|i: int| 0 <= i < items.len() && (#[trigger] items[i]).tag == tag
}

fn has_tag(items: &Vec<ToolbarItem>, tag: &str) -> (found: bool)
    ensures
        found == tagged(item_views(items@), tag@),
{
    let mut i: usize = 0;
    while i < items.len()
        invariant
            i <= items@.len(),
            forall|j: int| 0 <= j < i ==> (#[trigger] item_views(items@)[j]).tag != tag@,
        decreases items@.len() - i,
    {
        assert(item_views(items@)[i as int] == items@[i as int]@);
        if text::text_eq(&items[i].tag, tag) {
            return true;
        }
        i = i + 1;
    }
    false
}

/// An address with a scheme: a bare host name is given one.
pub open spec fn normalized(href: Seq<char>) -> Seq<char> {
    let href = crate::text::trim(href);
    if has_scheme(href) {
        href
    } else {
        "https://"@ + href
    }
}

/// Whether an address says how to reach it, or stays on the page.
pub open spec fn has_scheme(href: Seq<char>) -> bool {
    crate::text::contains(href, "://"@) || crate::text::starts_with(href, "mailto:"@)
        || crate::text::starts_with(href, "#"@)
}

/// Give a bare host name a scheme.
pub fn normalize_href(href: &str) -> (full: String)
    ensures
        full@ == normalized(href@),
{
    let href = text::text_trim(href);
    if text::text_contains(href, "://") || text::text_starts_with(href, "mailto:")
        || text::text_starts_with(href, "#") {
        return href.to_owned();
    }
    let mut full = "https://".to_owned();
    full.append(href);
    full
}

/// A normalized address has a scheme, and normalizing it again changes
/// nothing.
pub proof fn law_normalized(href: Seq<char>)
    ensures
        has_scheme(normalized(href)),
        normalized(normalized(href)) == normalized(href),
{
    let bare = crate::text::trim(href);
    let full = normalized(href);
    crate::text::lemma_trim_edges(href);
    if !has_scheme(bare) {
        reveal_strlit("https://");
        reveal_strlit("://");
        assert(full.subrange(5, 8) =~= "://"@);
        assert(crate::text::occurs_at(full, "://"@, 5));
        assert(full[0] == 'h');
        if bare.len() == 0 {
            assert(full.last() == '/');
        } else {
            assert(full.last() == bare.last());
        }
    }
    crate::text::lemma_trim_noop(full);
}

impl EditorView {
    /// The editor with its toolbar replaced.
    pub open spec fn set_toolbar(self, items: Option<Seq<ToolbarItemView>>) -> EditorView {
        if self.toolbar == items {
            self
        } else {
            EditorView { toolbar: items, ..self }.emit(crate::effect::EffectView::Notify)
        }
    }

    /// Whether the application's toolbar declares `tag`.
    pub open spec fn declares(self, tag: Seq<char>) -> bool {
        match self.toolbar {
            Some(items) => tagged(items, tag),
            None => false,
        }
    }

    /// The editor once `tag` was chosen from the toolbar.
    pub open spec fn choose_toolbar_action(self, tag: Seq<char>) -> EditorView {
        if self.declares(tag) {
            self.emit(crate::effect::EffectView::Toolbar(tag))
        } else {
            self
        }
    }

    /// The editor once item `index` of the application's toolbar was clicked:
    /// its tag is chosen.
    pub open spec fn choose_toolbar_item(self, index: int) -> EditorView {
        match self.toolbar {
            Some(items) if 0 <= index < items.len() => self.choose_toolbar_action(
                items[index].tag,
            ),
            _ => self,
        }
    }

    /// Whether text is selected in the block that holds the caret, on screen
    /// and of a type that carries marks.
    pub open spec fn text_selected(self) -> bool {
        &&& self.focused is Some
        &&& self.active_index() matches Some(ix) && {
            &&& self.blocks[ix].input.start < self.blocks[ix].input.end
            &&& crate::view::visible(self.blocks, ix)
            &&& self.caps_at(ix).marks
        }
    }

    /// Whether the selection toolbar should be on screen: something is
    /// selected, and nothing else is going on over the selection.
    pub open spec fn selection_toolbar_visible(self) -> bool {
        &&& !(self.toolbar matches Some(items) && items.len() == 0)
        &&& !self.menu_open()
        &&& self.drop_target is None
        &&& !self.comment_draft
        &&& self.link_editor is None
        &&& self.mouse_anchor is None
        &&& self.selected.len() > 0 || self.text_selected()
    }

    /// What the type of the active block is called.
    pub open spec fn active_block_label(self) -> Seq<char> {
        match self.active_index() {
            Some(ix) => (self.reg.label)(self.blocks[ix].ty, self.blocks[ix].attrs),
            None => "Text"@,
        }
    }
}

/// Choosing from the toolbar never touches the document: an action is
/// dispatched exactly when the toolbar declares it.
pub proof fn law_toolbar_dispatch(e: EditorView, tag: Seq<char>)
    ensures
        ({
            let n = e.choose_toolbar_action(tag);
            &&& n == (EditorView { effects: n.effects, ..e })
            &&& e.declares(tag) ==> n.effects == e.effects.push(
                crate::effect::EffectView::Toolbar(tag),
            )
            &&& !e.declares(tag) ==> n.effects == e.effects
        }),
{
}

fn same_toolbars(a: &Option<Vec<ToolbarItem>>, b: &Option<Vec<ToolbarItem>>) -> (same: bool)
    ensures
        same == (opt_item_views(*a) == opt_item_views(*b)),
{
    match (a, b) {
        (Some(a), Some(b)) => same_items(a, b),
        (None, None) => true,
        _ => false,
    }
}

impl<S: BlockSpec> NotionEditor<S> {
    /// Replace the toolbar. None selects the standalone editor's toolbar.
    pub fn set_toolbar(&mut self, items: Option<Vec<ToolbarItem>>)
        ensures
            final(self)@ == old(self)@.set_toolbar(opt_item_views(items)),
            final(self).types() == old(self).types(),
            old(self)@.wf() ==> final(self)@.wf(),
    {
        if same_toolbars(&self.toolbar, &items) {
            return;
        }
        self.toolbar = items;
        self.emit(Effect::Notify);
    }

    /// Tell the application which of its tags was chosen. One that its toolbar
    /// does not declare is ignored.
    pub fn choose_toolbar_action(&mut self, tag: &str)
        ensures
            final(self)@ == old(self)@.choose_toolbar_action(tag@),
            final(self).types() == old(self).types(),
            old(self)@.wf() ==> final(self)@.wf(),
    {
        let declared = match &self.toolbar {
            Some(items) => has_tag(items, tag),
            None => false,
        };
        if declared {
            self.emit(Effect::Toolbar(ToolbarAction { tag: tag.to_owned() }));
        }
    }

    /// Tell the application that item `index` of its toolbar was clicked. One
    /// that is not there is ignored.
    pub fn choose_toolbar_item(&mut self, index: usize)
        ensures
            final(self)@ == old(self)@.choose_toolbar_item(index as int),
            final(self).types() == old(self).types(),
            old(self)@.wf() ==> final(self)@.wf(),
    {
        let tag = match &self.toolbar {
            Some(items) => {
                if index >= items.len() {
                    return;
                }
                assert(item_views(items@)[index as int] == items@[index as int]@);
                items[index].tag.clone()
            },
            None => {
                return;
            },
        };
        self.choose_toolbar_action(&tag);
    }

    /// Whether the selection toolbar should be on screen.
    ///
    /// A comment box or a link card owns the selection while it is open; two
    /// surfaces over one range is one too many. While the button is still down
    /// the selection is still being made. A selection belongs to the block that
    /// holds the caret; with the caret elsewhere there is nothing for the
    /// toolbar to act on.
    pub fn selection_toolbar_visible(&self) -> (shown: bool)
        ensures
            shown == self@.selection_toolbar_visible(),
    {
        if let Some(items) = &self.toolbar {
            assert(item_views(items@).len() == items@.len());
            if items.len() == 0 {
                return false;
            }
        }
        if self.suggestion_is_open() || self.drop_target.is_some() {
            return false;
        }
        if self.comment_draft || self.link_editor.is_some() || self.mouse_anchor.is_some() {
            return false;
        }
        if self.selected.len() > 0 {
            return true;
        }
        if self.focused.is_none() {
            return false;
        }
        match self.active_index() {
            Some(ix) => {
                assert(self@.blocks[ix as int] == self.blocks@[ix as int]@);
                let input = self.blocks[ix].input;
                input.start < input.end && self.is_visible(ix) && self.caps_at(ix).marks
            },
            None => false,
        }
    }

    /// Label of the active block's type, for the turn-into menu.
    pub fn active_block_label(&self) -> (label: String)
        ensures
            label@ == self@.active_block_label(),
    {
        match self.active_index() {
            Some(ix) => {
                assert(self@.blocks[ix as int] == self.blocks@[ix as int]@);
                let block = &self.blocks[ix];
                self.registry.get(&block.ty).label(&block.attrs)
            },
            None => "Text".to_owned(),
        }
    }
}

/// Which marks the selection carries.
#[derive(Clone, Copy, Debug, PartialEq, Eq, Structural)]
pub struct ActiveMarks {
    pub bold: bool,
    pub italic: bool,
    pub underline: bool,
    pub strike: bool,
    pub code: bool,
    pub link: bool,
}

/// What a toolbar shows.
#[derive(Debug)]
pub enum ToolbarPart {
    /// An item of the application's toolbar: its place there, what it is tagged
    /// and what its button says.
    Item { index: usize, tag: String, label: String },
    /// The menu that turns a block into another type, called by its type.
    TurnInto(String),
    /// A line between two groups.
    Separator,
    /// A button that toggles a mark.
    Mark { icon: &'static str, tooltip: &'static str, kind: MarkKind, active: bool },
    /// The button that opens a comment.
    Comment,
    /// The button that opens the link editor.
    Link { active: bool },
    /// The color menu.
    Color,
    /// The menu of the rarer marks.
    More,
}

/// A [`ToolbarPart`] as the contracts see it.
pub enum PartView {
    Item { index: int, tag: Seq<char>, label: Seq<char> },
    TurnInto(Seq<char>),
    Separator,
    Mark { icon: Seq<char>, tooltip: Seq<char>, kind: crate::mark::KindView, active: bool },
    Comment,
    Link { active: bool },
    Color,
    More,
}

impl View for ToolbarPart {
    type V = PartView;

    open spec fn view(&self) -> PartView {
        match *self {
            ToolbarPart::Item { index, tag, label } => PartView::Item {
                index: index as int,
                tag: tag@,
                label: label@,
            },
            ToolbarPart::TurnInto(label) => PartView::TurnInto(label@),
            ToolbarPart::Separator => PartView::Separator,
            ToolbarPart::Mark { icon, tooltip, kind, active } => PartView::Mark {
                icon: icon@,
                tooltip: tooltip@,
                kind: kind@,
                active,
            },
            ToolbarPart::Comment => PartView::Comment,
            ToolbarPart::Link { active } => PartView::Link { active },
            ToolbarPart::Color => PartView::Color,
            ToolbarPart::More => PartView::More,
        }
    }
}

/// The views of a list of parts.
pub open spec fn part_views(parts: Seq<ToolbarPart>) -> Seq<PartView> {
    parts.map_values(|part: ToolbarPart| part@)
}

/// The views of a list of parts that may be absent.
pub open spec fn opt_part_views(parts: Option<Vec<ToolbarPart>>) -> Option<Seq<PartView>> {
    match parts {
        Some(parts) => Some(part_views(parts@)),
        None => None,
    }
}

/// The standalone editor's toolbar. Code carries none of the rarer marks.
pub open spec fn standard_toolbar(label: Seq<char>, active: ActiveMarks) -> Seq<PartView> {
    let marks = seq![
        PartView::TurnInto(label),
        PartView::Separator,
        PartView::Mark {
            icon: "bold"@,
            tooltip: "Bold"@,
            kind: crate::mark::KindView::Bold,
            active: active.bold,
        },
        PartView::Mark {
            icon: "italic"@,
            tooltip: "Italic"@,
            kind: crate::mark::KindView::Italic,
            active: active.italic,
        },
        PartView::Mark {
            icon: "underline"@,
            tooltip: "Underline"@,
            kind: crate::mark::KindView::Underline,
            active: active.underline,
        },
        PartView::Mark {
            icon: "strikethrough"@,
            tooltip: "Strikethrough"@,
            kind: crate::mark::KindView::Strike,
            active: active.strike,
        },
        PartView::Mark {
            icon: "code"@,
            tooltip: "Code"@,
            kind: crate::mark::KindView::Code,
            active: active.code,
        },
        PartView::Separator,
        PartView::Comment,
        PartView::Link { active: active.link },
        PartView::Color,
    ];
    if active.code {
        marks
    } else {
        marks + seq![PartView::Separator, PartView::More]
    }
}

impl EditorView {
    /// What the selection toolbar shows, where it is on screen: the
    /// application's items, or the standalone editor's.
    pub open spec fn toolbar_parts(self, active: ActiveMarks) -> Option<Seq<PartView>> {
        if self.selection_toolbar_visible() {
            Some(
                match self.toolbar {
                    Some(items) => Seq::new(
                        items.len(),
                        |i: int|
                            PartView::Item {
                                index: i,
                                tag: items[i].tag,
                                label: items[i].label,
                            },
                    ),
                    None => standard_toolbar(self.active_block_label(), active),
                },
            )
        } else {
            None
        }
    }
}

/// An application's toolbar shows one button for each of its items, in order,
/// labelled as the item is, and none of the editor's own. A click on one tells
/// the application that item's tag and touches nothing else.
pub proof fn law_toolbar_items(e: EditorView, active: ActiveMarks, i: int)
    requires
        e.toolbar is Some,
        e.selection_toolbar_visible(),
        0 <= i < e.toolbar->0.len(),
    ensures
        ({
            let items = e.toolbar->0;
            let parts = e.toolbar_parts(active)->0;
            &&& e.toolbar_parts(active) is Some
            &&& parts.len() == items.len()
            &&& parts[i] == (PartView::Item { index: i, tag: items[i].tag, label: items[i].label })
            &&& e.choose_toolbar_item(i) == e.choose_toolbar_action(items[i].tag)
            &&& e.choose_toolbar_item(i) == e.emit(
                crate::effect::EffectView::Toolbar(items[i].tag),
            )
        }),
{
    assert(tagged(e.toolbar->0, e.toolbar->0[i].tag));
}

fn mark_part(icon: &'static str, tooltip: &'static str, kind: MarkKind, active: bool) -> (part:
    ToolbarPart)
    ensures
        part@ == (PartView::Mark { icon: icon@, tooltip: tooltip@, kind: kind@, active }),
{
    ToolbarPart::Mark { icon, tooltip, kind, active }
}

fn standard_parts(label: String, active: ActiveMarks) -> (parts: Vec<ToolbarPart>)
    ensures
        part_views(parts@) == standard_toolbar(label@, active),
{
    let mut parts: Vec<ToolbarPart> = Vec::new();
    parts.push(ToolbarPart::TurnInto(label));
    parts.push(ToolbarPart::Separator);
    parts.push(mark_part("bold", "Bold", MarkKind::Bold, active.bold));
    parts.push(mark_part("italic", "Italic", MarkKind::Italic, active.italic));
    parts.push(mark_part("underline", "Underline", MarkKind::Underline, active.underline));
    parts.push(mark_part("strikethrough", "Strikethrough", MarkKind::Strike, active.strike));
    parts.push(mark_part("code", "Code", MarkKind::Code, active.code));
    parts.push(ToolbarPart::Separator);
    parts.push(ToolbarPart::Comment);
    parts.push(ToolbarPart::Link { active: active.link });
    parts.push(ToolbarPart::Color);
    if !active.code {
        parts.push(ToolbarPart::Separator);
        parts.push(ToolbarPart::More);
    }
    assert(part_views(parts@) =~= standard_toolbar(label@, active));
    parts
}

/// Where the toolbar hangs.
#[derive(Clone, Copy, Debug, PartialEq, Eq, Structural)]
pub enum ToolbarPlace {
    /// Over the text of a block that is selected as a node.
    Block(BlockId),
    /// Over a stretch of the text of a block.
    Range { ix: usize, start: usize, end: usize },
}

impl EditorView {
    /// Where the toolbar hangs: over the first block when whole blocks are
    /// selected, else over the selected text.
    pub open spec fn toolbar_place(self) -> Option<ToolbarPlace> {
        if self.selected.len() > 0 {
            Some(ToolbarPlace::Block(self.selected[0]))
        } else {
            match self.active_index() {
                Some(ix) => Some(
                    ToolbarPlace::Range {
                        ix: ix as usize,
                        start: self.blocks[ix].input.start,
                        end: self.blocks[ix].input.end,
                    },
                ),
                None => None,
            }
        }
    }
}

impl<S: BlockSpec> NotionEditor<S> {
    /// What the selection toolbar shows, given which marks the selection
    /// carries.
    pub fn toolbar_parts(&self, active: ActiveMarks) -> (parts: Option<Vec<ToolbarPart>>)
        ensures
            opt_part_views(parts) == self@.toolbar_parts(active),
    {
        if !self.selection_toolbar_visible() {
            return None;
        }
        let items = match &self.toolbar {
            Some(items) => items,
            None => {
                return Some(standard_parts(self.active_block_label(), active));
            },
        };
        let ghost views = item_views(items@);
        let mut parts: Vec<ToolbarPart> = Vec::new();
        let mut i: usize = 0;
        while i < items.len()
            invariant
                views == item_views(items@),
                i <= items@.len(),
                parts@.len() == i,
                forall|j: int|
                    0 <= j < i ==> (#[trigger] parts@[j])@ == (PartView::Item {
                        index: j,
                        tag: views[j].tag,
                        label: views[j].label,
                    }),
            decreases items@.len() - i,
        {
            parts.push(
                ToolbarPart::Item {
                    index: i,
                    tag: items[i].tag.clone(),
                    label: items[i].label.clone(),
                },
            );
            i = i + 1;
        }
        assert(part_views(parts@) =~= Seq::new(
            views.len(),
            |i: int| PartView::Item { index: i, tag: views[i].tag, label: views[i].label },
        ));
        Some(parts)
    }

    /// Where the toolbar hangs.
    pub fn toolbar_place(&self) -> (place: Option<ToolbarPlace>)
        ensures
            place == self@.toolbar_place(),
    {
        if self.selected.len() > 0 {
            return Some(ToolbarPlace::Block(self.selected[0]));
        }
        match self.active_index() {
            Some(ix) => {
                assert(self@.blocks[ix as int] == self.blocks@[ix as int]@);
                let input = self.blocks[ix].input;
                Some(ToolbarPlace::Range { ix, start: input.start, end: input.end })
            },
            None => None,
        }
    }
}

/// A link that is there already: the bytes `start..end`, and where it leads.
#[derive(Debug)]
pub struct ExistingLink {
    pub start: usize,
    pub end: usize,
    pub href: String,
}

/// An [`ExistingLink`] that may be absent, as the contracts see it.
pub open spec fn opt_link_view(link: Option<ExistingLink>) -> Option<(usize, usize, Seq<char>)> {
    match link {
        Some(link) => Some((link.start, link.end, link.href@)),
        None => None,
    }
}

impl EditorView {
    /// The editor with the link editor open over the selection, or over the
    /// link that is there already. Nothing to link, nothing to open.
    pub open spec fn open_link_editor(self, existing: Option<(usize, usize, Seq<char>)>) -> EditorView {
        match self.active_index() {
            Some(ix) => {
                let block = self.blocks[ix];
                let (start, end, href) = match existing {
                    Some(link) => link,
                    None => (block.input.start, block.input.end, ""@),
                };
                if start < end {
                    EditorView {
                        link_editor: Some(LinkEditor { block: block.id, start, end }),
                        ..self
                    }.emit(crate::effect::EffectView::OpenLinkInput(href)).emit(
                        crate::effect::EffectView::Notify,
                    )
                } else {
                    self
                }
            },
            None => self,
        }
    }

    /// The editor with the link editor closed, and the caret behind the text
    /// it was opened from.
    pub open spec fn close_link_editor(self) -> EditorView {
        match self.link_editor {
            Some(editor) => EditorView { link_editor: None, ..self }.focus_block(
                editor.block,
                Caret::At(editor.end),
            ).emit(crate::effect::EffectView::Notify),
            None => self,
        }
    }

    /// The editor with other marks on block `ix`, painted again. Where they
    /// are not the marks it had, the document has changed.
    pub open spec fn remark(self, ix: int, marks: Seq<crate::mark::MarkView>) -> EditorView {
        let painted = self.with_block(
            ix,
            crate::block::BlockView { marks, ..self.blocks[ix] },
        ).apply_decorations(self.blocks[ix].id);
        if marks == self.blocks[ix].marks {
            painted
        } else {
            painted.emit(crate::effect::EffectView::Document)
        }
    }

    /// The marks of block `ix` with a link to `href` on the bytes `start..end`.
    /// A blank address takes the link off.
    pub open spec fn linked(self, ix: int, start: int, end: int, href: Seq<char>) -> Seq<
        crate::mark::MarkView,
    > {
        if crate::text::blank(href) {
            crate::mark::cut_marks(
                self.blocks[ix].marks,
                crate::mark::KindView::Link(""@),
                start,
                end,
            )
        } else {
            crate::mark::add_mark(
                self.blocks[ix].marks,
                crate::mark::KindView::Link(normalized(href)),
                start,
                end,
            )
        }
    }

    /// The editor with what the link editor holds put on the text it was
    /// opened from.
    pub open spec fn apply_link_editor(self, href: Seq<char>) -> EditorView {
        match self.link_editor {
            Some(editor) => {
                let closed = EditorView { link_editor: None, ..self };
                match crate::view::find(self.blocks, editor.block) {
                    Some(ix) => closed.remark(
                        ix,
                        self.linked(ix, editor.start as int, editor.end as int, href),
                    ).focus_block(editor.block, Caret::At(editor.end)).emit(
                        crate::effect::EffectView::Notify,
                    ),
                    None => closed,
                }
            },
            None => self,
        }
    }

    /// The editor with the link taken off the text the link editor was opened
    /// from, and the link editor closed.
    pub open spec fn remove_link(self) -> EditorView {
        match self.link_editor {
            Some(editor) => match crate::view::find(self.blocks, editor.block) {
                Some(ix) => self.remark(
                    ix,
                    self.linked(ix, editor.start as int, editor.end as int, ""@),
                ).close_link_editor(),
                None => self.close_link_editor(),
            },
            None => self,
        }
    }

    /// Whether the link editor's range lies in the text of its block.
    pub open spec fn link_fits(self) -> bool {
        self.link_editor matches Some(editor) ==> (crate::view::find(
            self.blocks,
            editor.block,
        ) matches Some(ix) ==> editor.end <= crate::text::blen(self.blocks[ix].text))
    }
}

impl<S: BlockSpec> NotionEditor<S> {
    /// Whether the link editor is open.
    pub fn link_editor_is_open(&self) -> (open: bool)
        ensures
            open == (self@.link_editor is Some),
    {
        self.link_editor.is_some()
    }

    /// Open the link editor over the selection, or over the link at the caret,
    /// seeded with where it leads.
    pub fn open_link_editor(&mut self, existing: Option<ExistingLink>)
        ensures
            final(self)@ == old(self)@.open_link_editor(opt_link_view(existing)),
            final(self).types() == old(self).types(),
            old(self)@.wf() ==> final(self)@.wf(),
    {
        let ix: usize = match self.active_index() {
            Some(ix) => ix,
            None => {
                return;
            },
        };
        assert(self@.blocks[ix as int] == self.blocks@[ix as int]@);
        let block = self.blocks[ix].id;
        let input = self.blocks[ix].input;
        let (start, end, href) = match existing {
            Some(link) => (link.start, link.end, link.href),
            None => (input.start, input.end, "".to_owned()),
        };
        if start >= end {
            return;
        }
        self.link_editor = Some(LinkEditor { block, start, end });
        self.emit(Effect::OpenLinkInput(href));
        self.emit(Effect::Notify);
    }

    /// Close the link editor and return focus to the text it was opened from.
    pub fn close_link_editor(&mut self)
        ensures
            final(self)@ == old(self)@.close_link_editor(),
            final(self).types() == old(self).types(),
            old(self)@.wf() ==> final(self)@.wf(),
    {
        let editor = match self.link_editor {
            Some(editor) => editor,
            None => {
                return;
            },
        };
        self.link_editor = None;
        assert(self@ =~= EditorView { link_editor: None, ..old(self)@ });
        self.focus_block(editor.block, Caret::At(editor.end));
        self.emit(Effect::Notify);
    }

    /// Put a link to `href` on the bytes `start..end` of block `ix`, or take
    /// it off where `href` is blank.
    fn link_text(&mut self, ix: usize, start: usize, end: usize, href: &str)
        requires
            ix < old(self)@.blocks.len(),
        ensures
            final(self)@ == old(self)@.remark(
                ix as int,
                old(self)@.linked(ix as int, start as int, end as int, href@),
            ),
            final(self).types() == old(self).types(),
            old(self)@.wf() && (end <= crate::text::blen(old(self)@.blocks[ix as int].text)
                || crate::text::blank(href@)) ==> final(self)@.wf(),
    {
        let ghost view = self@;
        let ghost was = self.blocks@;
        assert(view.blocks[ix as int] == was[ix as int]@);
        let id = self.blocks[ix].id;
        let ghost marks = view.blocks[ix as int].marks;
        proof {
            crate::text::lemma_blank_trim(href@);
        }
        let blank = text::text_trim(href).is_empty();
        let before = self.blocks[ix].marks.copy();
        let block = &mut self.blocks[ix];
        if blank {
            block.marks.remove(&MarkKind::Link("".to_owned()), start, end);
        } else {
            block.marks.add(MarkKind::Link(normalize_href(href)), start, end);
        }
        assert(crate::view::block_views(self.blocks@) =~= crate::view::block_views(was).update(
            ix as int,
            self.blocks@[ix as int]@,
        ));
        assert(self@ =~= view.with_block(ix as int, self@.blocks[ix as int]));
        proof {
            if view.wf() {
                let len = crate::text::blen(view.blocks[ix as int].text);
                if crate::text::blank(href@) {
                    crate::mark::lemma_cut_in_range(
                        marks,
                        crate::mark::KindView::Link(""@),
                        start as int,
                        end as int,
                        len,
                    );
                    crate::view::lemma_with_block_wf(view, ix as int, self@.blocks[ix as int]);
                } else if end <= len {
                    crate::mark::lemma_add_in_range(
                        marks,
                        crate::mark::KindView::Link(normalized(href@)),
                        start as int,
                        end as int,
                        len,
                    );
                    crate::view::lemma_with_block_wf(view, ix as int, self@.blocks[ix as int]);
                }
            }
        }
        let changed = !self.blocks[ix].marks.same(&before);
        self.apply_decorations(id);
        if changed {
            self.emit(Effect::Document(DocumentChanged));
        }
    }

    /// Put the address that was written into the link editor on the text it
    /// was opened from. A blank one takes the link off.
    pub fn apply_link_editor(&mut self, href: &str)
        ensures
            final(self)@ == old(self)@.apply_link_editor(href@),
            final(self).types() == old(self).types(),
            old(self)@.wf() && old(self)@.link_fits() ==> final(self)@.wf(),
    {
        let editor = match self.link_editor {
            Some(editor) => editor,
            None => {
                return;
            },
        };
        self.link_editor = None;
        assert(self@ =~= EditorView { link_editor: None, ..old(self)@ });
        let ix: usize = match self.index_of(editor.block) {
            Some(ix) => ix,
            None => {
                return;
            },
        };
        self.link_text(ix, editor.start, editor.end, href);
        self.focus_block(editor.block, Caret::At(editor.end));
        self.emit(Effect::Notify);
    }

    /// Take the link off the text the link editor was opened from, and close
    /// it.
    pub fn remove_link(&mut self)
        ensures
            final(self)@ == old(self)@.remove_link(),
            final(self).types() == old(self).types(),
            old(self)@.wf() ==> final(self)@.wf(),
    {
        let editor = match self.link_editor {
            Some(editor) => editor,
            None => {
                return;
            },
        };
        proof {
            reveal_strlit("");
            assert(crate::text::blank(""@));
        }
        if let Some(ix) = self.index_of(editor.block) {
            self.link_text(ix, editor.start, editor.end, "");
        }
        self.close_link_editor();
    }
}

/// The link editor on screen: the text it hangs over, and whether what it holds
/// can be applied.
#[derive(Clone, Copy, Debug, PartialEq, Eq, Structural)]
pub struct LinkCard {
    pub ix: usize,
    pub start: usize,
    pub end: usize,
    pub can_apply: bool,
}

impl EditorView {
    /// The link editor on screen, its input holding `value`.
    pub open spec fn link_card(self, value: Seq<char>) -> Option<LinkCard> {
        match self.link_editor {
            Some(editor) => match crate::view::find(self.blocks, editor.block) {
                Some(ix) => Some(
                    LinkCard {
                        ix: ix as usize,
                        start: editor.start,
                        end: editor.end,
                        can_apply: value.len() > 0,
                    },
                ),
                None => None,
            },
            None => None,
        }
    }
}

impl<S: BlockSpec> NotionEditor<S> {
    /// The link editor on screen, its input holding `value`. There is nothing
    /// to apply while the input is empty.
    pub fn link_card(&self, value: &str) -> (card: Option<LinkCard>)
        ensures
            card == self@.link_card(value@),
    {
        match self.link_editor {
            Some(editor) => match self.index_of(editor.block) {
                Some(ix) => Some(
                    LinkCard {
                        ix,
                        start: editor.start,
                        end: editor.end,
                        can_apply: !value.is_empty(),
                    },
                ),
                None => None,
            },
            None => None,
        }
    }
}

/// What choosing a color does to the selection.
#[derive(Clone, Copy, Debug, PartialEq, Eq, Structural)]
pub enum ApplyColor {
    Text(TextColor),
    Highlight(HighlightColor),
}

/// A row of the color menu.
#[derive(Debug)]
pub enum ColorRow {
    /// The name of a group.
    Label(&'static str),
    /// A line between two groups.
    Separator,
    /// A color to choose: its name, and what its swatch is filled with.
    Swatch { action: ApplyColor, label: String, fill: Tint },
}

/// A [`ColorRow`] as the contracts see it.
pub enum ColorRowView {
    Label(Seq<char>),
    Separator,
    Swatch { action: ApplyColor, label: Seq<char>, fill: Tint },
}

impl View for ColorRow {
    type V = ColorRowView;

    open spec fn view(&self) -> ColorRowView {
        match *self {
            ColorRow::Label(label) => ColorRowView::Label(label@),
            ColorRow::Separator => ColorRowView::Separator,
            ColorRow::Swatch { action, label, fill } => ColorRowView::Swatch {
                action,
                label: label@,
                fill,
            },
        }
    }
}

/// The views of a list of rows.
pub open spec fn color_row_views(rows: Seq<ColorRow>) -> Seq<ColorRowView> {
    rows.map_values(|row: ColorRow| row@)
}

/// The rows of colors of text, each filled with itself.
pub open spec fn text_swatches(colors: Seq<(TextColor, String)>) -> Seq<ColorRowView> {
    colors.map_values(
        |color: (TextColor, String)|
            ColorRowView::Swatch {
                action: ApplyColor::Text(color.0),
                label: color.1@,
                fill: Tint::Text(color.0),
            },
    )
}

/// The rows of colors of highlights, each filled with itself.
pub open spec fn highlight_swatches(colors: Seq<(HighlightColor, String)>) -> Seq<ColorRowView> {
    colors.map_values(
        |color: (HighlightColor, String)|
            ColorRowView::Swatch {
                action: ApplyColor::Highlight(color.0),
                label: color.1@,
                fill: Tint::Highlight(Some(color.0)),
            },
    )
}

/// The rows of the color menu: the colors of text under their name, a line,
/// and the colors of highlights under theirs.
pub open spec fn color_rows(
    texts: Seq<(TextColor, String)>,
    highlights: Seq<(HighlightColor, String)>,
) -> Seq<ColorRowView> {
    seq![ColorRowView::Label("Text color"@)] + text_swatches(texts) + seq![
        ColorRowView::Separator,
        ColorRowView::Label("Highlight color"@),
    ] + highlight_swatches(highlights)
}

/// The color menu over two palettes, each color with its name.
pub fn color_menu(
    texts: &Vec<(TextColor, String)>,
    highlights: &Vec<(HighlightColor, String)>,
) -> (rows: Vec<ColorRow>)
    ensures
        color_row_views(rows@) == color_rows(texts@, highlights@),
{
    let ghost all = color_rows(texts@, highlights@);
    let mut rows: Vec<ColorRow> = Vec::new();
    rows.push(ColorRow::Label("Text color"));
    let mut i: usize = 0;
    while i < texts.len()
        invariant
            i <= texts@.len(),
            all == color_rows(texts@, highlights@),
            rows@.len() == 1 + i,
            forall|j: int| 0 <= j < rows@.len() ==> (#[trigger] rows@[j])@ == all[j],
        decreases texts@.len() - i,
    {
        let color = texts[i].0;
        rows.push(
            ColorRow::Swatch {
                action: ApplyColor::Text(color),
                label: texts[i].1.clone(),
                fill: Tint::Text(color),
            },
        );
        i = i + 1;
    }
    rows.push(ColorRow::Separator);
    rows.push(ColorRow::Label("Highlight color"));
    let mut k: usize = 0;
    while k < highlights.len()
        invariant
            k <= highlights@.len(),
            all == color_rows(texts@, highlights@),
            rows@.len() == texts@.len() + 3 + k,
            forall|j: int| 0 <= j < rows@.len() ==> (#[trigger] rows@[j])@ == all[j],
        decreases highlights@.len() - k,
    {
        let color = highlights[k].0;
        rows.push(
            ColorRow::Swatch {
                action: ApplyColor::Highlight(color),
                label: highlights[k].1.clone(),
                fill: Tint::Highlight(Some(color)),
            },
        );
        k = k + 1;
    }
    assert(color_row_views(rows@) =~= all);
    rows
}

/// What an entry of one of the toolbar's menus does.
#[derive(Clone, Copy, Debug, PartialEq, Eq, Structural)]
pub enum ToolbarCommand {
    SetParagraph,
    SetHeading1,
    SetHeading2,
    SetHeading3,
    ToggleBulletList,
    ToggleOrderedList,
    ToggleTaskList,
    ToggleBlockquote,
    ToggleCodeBlock,
    ToggleSuperscript,
    ToggleSubscript,
    ClearMarks,
}

/// A row of one of the toolbar's menus.
#[derive(Clone, Copy, Debug)]
pub enum CommandRow {
    /// A line between two groups.
    Separator,
    /// An entry: its name, and what it does.
    Entry { label: &'static str, command: ToolbarCommand },
}

/// A [`CommandRow`] as the contracts see it.
pub enum CommandRowView {
    Separator,
    Entry { label: Seq<char>, command: ToolbarCommand },
}

impl View for CommandRow {
    type V = CommandRowView;

    open spec fn view(&self) -> CommandRowView {
        match *self {
            CommandRow::Separator => CommandRowView::Separator,
            CommandRow::Entry { label, command } => CommandRowView::Entry {
                label: label@,
                command,
            },
        }
    }
}

/// The views of a list of rows.
pub open spec fn command_row_views(rows: Seq<CommandRow>) -> Seq<CommandRowView> {
    rows.map_values(|row: CommandRow| row@)
}

/// An entry of a menu.
pub open spec fn entry(label: Seq<char>, command: ToolbarCommand) -> CommandRowView {
    CommandRowView::Entry { label, command }
}

/// The menu that turns a block into another type.
pub fn turn_into_items() -> (rows: Vec<CommandRow>)
    ensures
        command_row_views(rows@) == seq![
            entry("Text"@, ToolbarCommand::SetParagraph),
            entry("Heading 1"@, ToolbarCommand::SetHeading1),
            entry("Heading 2"@, ToolbarCommand::SetHeading2),
            entry("Heading 3"@, ToolbarCommand::SetHeading3),
            entry("Bulleted list"@, ToolbarCommand::ToggleBulletList),
            entry("Numbered list"@, ToolbarCommand::ToggleOrderedList),
            entry("To-do list"@, ToolbarCommand::ToggleTaskList),
            entry("Blockquote"@, ToolbarCommand::ToggleBlockquote),
            entry("Code block"@, ToolbarCommand::ToggleCodeBlock),
        ],
{
    let mut rows: Vec<CommandRow> = Vec::new();
    push_entry(&mut rows, "Text", ToolbarCommand::SetParagraph);
    push_entry(&mut rows, "Heading 1", ToolbarCommand::SetHeading1);
    push_entry(&mut rows, "Heading 2", ToolbarCommand::SetHeading2);
    push_entry(&mut rows, "Heading 3", ToolbarCommand::SetHeading3);
    push_entry(&mut rows, "Bulleted list", ToolbarCommand::ToggleBulletList);
    push_entry(&mut rows, "Numbered list", ToolbarCommand::ToggleOrderedList);
    push_entry(&mut rows, "To-do list", ToolbarCommand::ToggleTaskList);
    push_entry(&mut rows, "Blockquote", ToolbarCommand::ToggleBlockquote);
    push_entry(&mut rows, "Code block", ToolbarCommand::ToggleCodeBlock);
    rows
}

/// The menu of the rarer marks.
pub fn more_items() -> (rows: Vec<CommandRow>)
    ensures
        command_row_views(rows@) == seq![
            entry("Superscript"@, ToolbarCommand::ToggleSuperscript),
            entry("Subscript"@, ToolbarCommand::ToggleSubscript),
            CommandRowView::Separator,
            entry("Reset formatting"@, ToolbarCommand::ClearMarks),
        ],
{
    let mut rows: Vec<CommandRow> = Vec::new();
    push_entry(&mut rows, "Superscript", ToolbarCommand::ToggleSuperscript);
    push_entry(&mut rows, "Subscript", ToolbarCommand::ToggleSubscript);
    let ghost above = rows@;
    rows.push(CommandRow::Separator);
    assert(command_row_views(rows@) =~= command_row_views(above).push(CommandRowView::Separator));
    push_entry(&mut rows, "Reset formatting", ToolbarCommand::ClearMarks);
    rows
}

fn push_entry(rows: &mut Vec<CommandRow>, label: &'static str, command: ToolbarCommand)
    ensures
        final(rows)@.len() == old(rows)@.len() + 1,
        command_row_views(final(rows)@) == command_row_views(old(rows)@).push(
            entry(label@, command),
        ),
{
    rows.push(CommandRow::Entry { label, command });
}

} // verus!
