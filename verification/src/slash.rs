//! The suggestion menus: `/` for blocks, `:` for emoji, `@` for mentions.
//!
//! One menu state serves all three. A trigger character typed at a word
//! boundary opens it, the characters after it filter, Enter commits and
//! Escape closes, leaving the typed text alone.

use vstd::prelude::*;

use crate::block::{BlockId, BlockSpec};
use crate::effect::Effect;
use crate::mark::MarkKind;
use crate::suggestion::{default_mentions, Emoji, Mention, SlashItem, SlashRun, Trigger};
use crate::text;
use crate::toolbar::{same_items, ToolbarItem};
use crate::view::{EditorView, NotionEditor};

verus! {

/// Where an application's menu hangs.
#[derive(Clone, Copy, Debug, PartialEq, Eq, Structural)]
pub enum ApplicationMenuAnchor {
    Caret,
    Block(usize),
}

/// Suggestions supplied by an embedding application. Labels and tags are
/// opaque; choosing a row never edits the document.
#[derive(Clone, Debug, PartialEq, Eq)]
pub struct ApplicationMenu {
    pub anchor: ApplicationMenuAnchor,
    pub items: Vec<ToolbarItem>,
    pub selected: usize,
}

/// An [`ApplicationMenu`] as the contracts see it.
pub struct AppMenuView {
    pub anchor: ApplicationMenuAnchor,
    pub items: Seq<crate::toolbar::ToolbarItemView>,
    pub selected: int,
}

impl View for ApplicationMenu {
    type V = AppMenuView;

    open spec fn view(&self) -> AppMenuView {
        AppMenuView {
            anchor: self.anchor,
            items: crate::toolbar::item_views(self.items@),
            selected: self.selected as int,
        }
    }
}

/// The view of a menu that may be absent.
pub open spec fn opt_menu_view(menu: Option<ApplicationMenu>) -> Option<AppMenuView> {
    match menu {
        Some(menu) => Some(menu@),
        None => None,
    }
}

/// Who supplies the menus.
#[derive(Debug)]
pub enum MenuSource {
    BuiltIn,
    Application(Option<ApplicationMenu>),
}

/// A [`MenuSource`] as the contracts see it.
pub enum SourceView {
    BuiltIn,
    Application(Option<AppMenuView>),
}

impl View for MenuSource {
    type V = SourceView;

    open spec fn view(&self) -> SourceView {
        match *self {
            MenuSource::BuiltIn => SourceView::BuiltIn,
            MenuSource::Application(menu) => SourceView::Application(opt_menu_view(menu)),
        }
    }
}

/// What happened in an application's menu.
#[derive(Clone, Debug, PartialEq, Eq)]
pub enum MenuAction {
    Select(usize),
    Pick(String),
    Dismiss,
    Open(char),
}

/// A [`MenuAction`] as the contracts see it.
pub enum MenuActionView {
    Select(int),
    Pick(Seq<char>),
    Dismiss,
    Open(char),
}

impl View for MenuAction {
    type V = MenuActionView;

    open spec fn view(&self) -> MenuActionView {
        match *self {
            MenuAction::Select(index) => MenuActionView::Select(index as int),
            MenuAction::Pick(tag) => MenuActionView::Pick(tag@),
            MenuAction::Dismiss => MenuActionView::Dismiss,
            MenuAction::Open(c) => MenuActionView::Open(c),
        }
    }
}

/// An open suggestion menu.
#[derive(Debug)]
pub struct SuggestionMenu {
    pub trigger: Trigger,
    /// Block the query lives in.
    pub block: BlockId,
    /// Byte offset of the trigger character.
    pub start: usize,
    pub query: String,
    pub selected: usize,
}

/// A [`SuggestionMenu`] as the contracts see it.
pub struct MenuView {
    pub trigger: Trigger,
    pub block: BlockId,
    pub start: int,
    pub query: Seq<char>,
    pub selected: int,
}

impl View for SuggestionMenu {
    type V = MenuView;

    open spec fn view(&self) -> MenuView {
        MenuView {
            trigger: self.trigger,
            block: self.block,
            start: self.start as int,
            query: self.query@,
            selected: self.selected as int,
        }
    }
}

/// One entry of a menu, whatever opened it.
#[derive(Debug)]
pub enum SuggestionItem {
    Block { title: &'static str, group: &'static str, icon: &'static str, run: SlashRun },
    Emoji { name: &'static str, character: &'static str },
    Mention(Mention),
}

/// A [`SuggestionItem`] as the contracts see it.
pub enum ItemView {
    Block { title: Seq<char>, group: Seq<char>, icon: Seq<char>, run: SlashRun },
    Emoji { name: Seq<char>, character: Seq<char> },
    Mention(crate::suggestion::MentionView),
}

impl View for SuggestionItem {
    type V = ItemView;

    open spec fn view(&self) -> ItemView {
        match *self {
            SuggestionItem::Block { title, group, icon, run } => ItemView::Block {
                title: title@,
                group: group@,
                icon: icon@,
                run,
            },
            SuggestionItem::Emoji { name, character } => ItemView::Emoji {
                name: name@,
                character: character@,
            },
            SuggestionItem::Mention(mention) => ItemView::Mention(mention@),
        }
    }
}

impl ItemView {
    /// What the entry is called.
    pub open spec fn title(self) -> Seq<char> {
        match self {
            ItemView::Block { title, .. } => title,
            ItemView::Emoji { name, .. } => name,
            ItemView::Mention(mention) => mention.name,
        }
    }

    /// The group the entry stands in.
    pub open spec fn group(self) -> Seq<char> {
        match self {
            ItemView::Block { group, .. } => group,
            ItemView::Emoji { .. } => "Emoji"@,
            ItemView::Mention(_) => "People"@,
        }
    }
}

impl SuggestionItem {
    /// What the entry is called.
    pub fn title(&self) -> (title: String)
        ensures
            title@ == self@.title(),
    {
        match self {
            SuggestionItem::Block { title, .. } => (*title).to_owned(),
            SuggestionItem::Emoji { name, .. } => (*name).to_owned(),
            SuggestionItem::Mention(mention) => mention.name.clone(),
        }
    }

    /// The group the entry stands in.
    pub fn group(&self) -> (group: &'static str)
        ensures
            group@ == self@.group(),
    {
        match self {
            SuggestionItem::Block { group, .. } => *group,
            SuggestionItem::Emoji { .. } => "Emoji",
            SuggestionItem::Mention(_) => "People",
        }
    }
}

/// The views of a list of entries.
pub open spec fn item_views(items: Seq<SuggestionItem>) -> Seq<ItemView> {
    items.map_values(|item: SuggestionItem| item@)
}

/// Place of a group in the menu. Groups that a block type invents come after
/// the known ones.
pub open spec fn rank(group: Seq<char>) -> int {
    if group == "AI"@ {
        0
    } else if group == "Style"@ {
        1
    } else if group == "Insert"@ {
        2
    } else if group == "Upload"@ {
        3
    } else if group == "Emoji"@ {
        4
    } else if group == "People"@ {
        5
    } else {
        6
    }
}

/// Place of a group in the menu: AI, Style, Insert, Upload, Emoji, People,
/// then whatever a block type invents.
pub fn group_rank(group: &str) -> (place: usize)
    ensures
        place == rank(group@),
{
    if text::text_eq(group, "AI") {
        0
    } else if text::text_eq(group, "Style") {
        1
    } else if text::text_eq(group, "Insert") {
        2
    } else if text::text_eq(group, "Upload") {
        3
    } else if text::text_eq(group, "Emoji") {
        4
    } else if text::text_eq(group, "People") {
        5
    } else {
        6
    }
}

/// How many places groups can take.
pub const GROUP_RANKS: usize = 7;

/// The entries of `items` whose group has place `r`, in their order.
pub open spec fn of_rank(items: Seq<ItemView>, r: int) -> Seq<ItemView>
    decreases items.len(),
{
    if items.len() == 0 {
        Seq::empty()
    } else if rank(items.last().group()) == r {
        of_rank(items.drop_last(), r).push(items.last())
    } else {
        of_rank(items.drop_last(), r)
    }
}

/// `items` by the places of their groups, up to place `r`. Within a group they
/// keep their order.
pub open spec fn ranked(items: Seq<ItemView>, r: int) -> Seq<ItemView>
    decreases r,
{
    if r <= 0 {
        Seq::empty()
    } else {
        ranked(items, r - 1) + of_rank(items, r - 1)
    }
}

/// `items` by the places of their groups.
pub open spec fn grouped(items: Seq<ItemView>) -> Seq<ItemView> {
    ranked(items, GROUP_RANKS as int)
}

proof fn lemma_of_rank(items: Seq<ItemView>, r: int)
    ensures
        of_rank(items, r).len() <= items.len(),
        forall|i: int|
            0 <= i < of_rank(items, r).len() ==> rank((#[trigger] of_rank(items, r)[i]).group())
                == r,
        (forall|i: int| 0 <= i < items.len() ==> rank((#[trigger] items[i]).group()) == r)
            ==> of_rank(items, r) == items,
        (forall|i: int| 0 <= i < items.len() ==> rank((#[trigger] items[i]).group()) != r)
            ==> of_rank(items, r).len() == 0,
    decreases items.len(),
{
    if items.len() > 0 {
        let rest = items.drop_last();
        lemma_of_rank(rest, r);
        assert forall|i: int| 0 <= i < rest.len() implies (#[trigger] rest[i]) == items[i] by {}
        assert(items.last() == items[items.len() - 1]);
        if forall|i: int| 0 <= i < items.len() ==> rank((#[trigger] items[i]).group()) == r {
            assert(rest.push(items.last()) =~= items);
        }
    }
}

proof fn lemma_of_rank_concat(a: Seq<ItemView>, b: Seq<ItemView>, r: int)
    ensures
        of_rank(a + b, r) == of_rank(a, r) + of_rank(b, r),
    decreases b.len(),
{
    if b.len() == 0 {
        assert(a + b =~= a);
        assert(of_rank(a, r) + of_rank(b, r) =~= of_rank(a, r));
    } else {
        lemma_of_rank_concat(a, b.drop_last(), r);
        assert((a + b).drop_last() =~= a + b.drop_last());
        assert((a + b).last() == b.last());
        assert(of_rank(a + b, r) =~= of_rank(a, r) + of_rank(b, r));
    }
}

proof fn lemma_ranked(items: Seq<ItemView>, n: int, r: int)
    requires
        0 <= n,
    ensures
        forall|i: int|
            0 <= i < ranked(items, n).len() ==> 0 <= rank(
                (#[trigger] ranked(items, n)[i]).group(),
            ) < n,
        forall|i: int, j: int|
            0 <= i <= j < ranked(items, n).len() ==> rank(
                (#[trigger] ranked(items, n)[i]).group(),
            ) <= rank((#[trigger] ranked(items, n)[j]).group()),
        of_rank(ranked(items, n), r) == (if 0 <= r < n {
            of_rank(items, r)
        } else {
            Seq::empty()
        }),
    decreases n,
{
    if n > 0 {
        lemma_ranked(items, n - 1, r);
        lemma_of_rank(items, n - 1);
        lemma_of_rank_concat(ranked(items, n - 1), of_rank(items, n - 1), r);
        let last = of_rank(items, n - 1);
        lemma_of_rank(last, r);
        if r == n - 1 {
            assert(of_rank(last, r) == last);
            assert(Seq::<ItemView>::empty() + last =~= last);
        } else {
            assert(of_rank(last, r) =~= Seq::empty());
            assert(of_rank(items, r) + Seq::<ItemView>::empty() =~= of_rank(items, r));
        }
    }
}

/// The menu shows its groups in their order, and within a group the entries
/// keep the order they were registered in; none is lost and none added.
pub proof fn law_grouped(items: Seq<ItemView>, r: int)
    ensures
        forall|i: int, j: int|
            0 <= i <= j < grouped(items).len() ==> rank((#[trigger] grouped(items)[i]).group())
                <= rank((#[trigger] grouped(items)[j]).group()),
        of_rank(grouped(items), r) == of_rank(items, r),
        grouped(items).to_multiset() == items.to_multiset(),
{
    lemma_ranked(items, GROUP_RANKS as int, r);
    if !(0 <= r < GROUP_RANKS) {
        assert forall|i: int| 0 <= i < items.len() implies rank((#[trigger] items[i]).group())
            != r by {}
        lemma_of_rank(items, r);
        assert(of_rank(items, r) =~= Seq::empty());
    }
    lemma_ranked_multiset(items, GROUP_RANKS as int);
    lemma_below(items, GROUP_RANKS as int);
}

/// The entries of `items` whose group has a place before `n`, in their order.
spec fn below(items: Seq<ItemView>, n: int) -> Seq<ItemView>
    decreases items.len(),
{
    if items.len() == 0 {
        Seq::empty()
    } else if rank(items.last().group()) < n {
        below(items.drop_last(), n).push(items.last())
    } else {
        below(items.drop_last(), n)
    }
}

proof fn lemma_below(items: Seq<ItemView>, n: int)
    requires
        n >= GROUP_RANKS,
    ensures
        below(items, n) == items,
    decreases items.len(),
{
    if items.len() > 0 {
        lemma_below(items.drop_last(), n);
        assert(items.drop_last().push(items.last()) =~= items);
    }
}

proof fn lemma_below_step(items: Seq<ItemView>, n: int)
    ensures
        below(items, n + 1).to_multiset() == below(items, n).to_multiset().add(
            of_rank(items, n).to_multiset(),
        ),
    decreases items.len(),
{
    broadcast use vstd::seq_lib::group_to_multiset_ensures;

    if items.len() > 0 {
        let rest = items.drop_last();
        lemma_below_step(rest, n);
        assert(below(items, n + 1).to_multiset() =~= below(items, n).to_multiset().add(
            of_rank(items, n).to_multiset(),
        ));
    } else {
        assert(below(items, n + 1).to_multiset() =~= below(items, n).to_multiset().add(
            of_rank(items, n).to_multiset(),
        ));
    }
}

proof fn lemma_ranked_multiset(items: Seq<ItemView>, n: int)
    requires
        0 <= n,
    ensures
        ranked(items, n).to_multiset() == below(items, n).to_multiset(),
    decreases n,
{
    broadcast use vstd::seq_lib::group_to_multiset_ensures;

    if n > 0 {
        lemma_ranked_multiset(items, n - 1);
        lemma_below_step(items, n - 1);
        vstd::seq_lib::lemma_multiset_commutative(ranked(items, n - 1), of_rank(items, n - 1));
    } else {
        lemma_below_none(items);
        assert(ranked(items, n) =~= below(items, n));
    }
}

proof fn lemma_below_none(items: Seq<ItemView>)
    ensures
        below(items, 0).len() == 0,
    decreases items.len(),
{
    if items.len() > 0 {
        lemma_below_none(items.drop_last());
    }
}

/// The entries that open another menu, so `/` can reach emoji and mentions.
pub open spec fn trigger_items() -> Seq<crate::suggestion::SlashView> {
    seq![
        crate::suggestion::SlashView {
            title: "Mention"@,
            subtext: "Mention a user or item"@,
            keywords: seq!["mention"@, "user"@, "item"@, "tag"@],
            group: "Insert"@,
            icon: "at-sign"@,
            run: SlashRun::Open(Trigger::Mention),
        },
        crate::suggestion::SlashView {
            title: "Emoji"@,
            subtext: "Insert an emoji"@,
            keywords: seq!["emoji"@, "emoticon"@, "smiley"@],
            group: "Insert"@,
            icon: "smile"@,
            run: SlashRun::Open(Trigger::Emoji),
        },
    ]
}

fn mention_item() -> (item: SlashItem)
    ensures
        item@ == trigger_items()[0],
{
    let mut keywords: Vec<&'static str> = Vec::new();
    keywords.push("mention");
    keywords.push("user");
    keywords.push("item");
    keywords.push("tag");
    assert(crate::suggestion::word_views(keywords@) =~= trigger_items()[0].keywords);
    SlashItem {
        title: "Mention",
        subtext: "Mention a user or item",
        keywords,
        group: "Insert",
        icon: "at-sign",
        run: SlashRun::Open(Trigger::Mention),
    }
}

fn emoji_item() -> (item: SlashItem)
    ensures
        item@ == trigger_items()[1],
{
    let mut keywords: Vec<&'static str> = Vec::new();
    keywords.push("emoji");
    keywords.push("emoticon");
    keywords.push("smiley");
    assert(crate::suggestion::word_views(keywords@) =~= trigger_items()[1].keywords);
    SlashItem {
        title: "Emoji",
        subtext: "Insert an emoji",
        keywords,
        group: "Insert",
        icon: "smile",
        run: SlashRun::Open(Trigger::Emoji),
    }
}

/// The entries of the `/` menu that match a query, in their order.
pub open spec fn block_items(
    items: Seq<crate::suggestion::SlashView>,
    query: Seq<char>,
) -> Seq<ItemView>
    decreases items.len(),
{
    if items.len() == 0 {
        Seq::empty()
    } else {
        let item = items.last();
        let rest = block_items(items.drop_last(), query);
        if crate::suggestion::query_matches(query, item.title, item.keywords) {
            rest.push(
                ItemView::Block {
                    title: item.title,
                    group: item.group,
                    icon: item.icon,
                    run: item.run,
                },
            )
        } else {
            rest
        }
    }
}

/// The emoji that match a query, in their order.
pub open spec fn emoji_items(
    emoji: Seq<crate::suggestion::EmojiView>,
    query: Seq<char>,
) -> Seq<ItemView>
    decreases emoji.len(),
{
    if emoji.len() == 0 {
        Seq::empty()
    } else {
        let one = emoji.last();
        let rest = emoji_items(emoji.drop_last(), query);
        if crate::suggestion::query_matches(query, one.name, one.keywords) {
            rest.push(ItemView::Emoji { name: one.name, character: one.character })
        } else {
            rest
        }
    }
}

/// The people that match a query, in their order.
pub open spec fn mention_items(
    people: Seq<crate::suggestion::MentionView>,
    query: Seq<char>,
) -> Seq<ItemView>
    decreases people.len(),
{
    if people.len() == 0 {
        Seq::empty()
    } else {
        let one = people.last();
        let rest = mention_items(people.drop_last(), query);
        if crate::suggestion::query_matches(query, one.name, Seq::empty()) {
            rest.push(ItemView::Mention(one))
        } else {
            rest
        }
    }
}

fn push_block_item(items: &mut Vec<SuggestionItem>, item: &SlashItem, query: &str)
    ensures
        item_views(final(items)@) == (if crate::suggestion::query_matches(
            query@,
            item@.title,
            item@.keywords,
        ) {
            item_views(old(items)@).push(
                ItemView::Block {
                    title: item@.title,
                    group: item@.group,
                    icon: item@.icon,
                    run: item@.run,
                },
            )
        } else {
            item_views(old(items)@)
        }),
{
    if crate::suggestion::matches(query, item.title, &item.keywords) {
        items.push(
            SuggestionItem::Block {
                title: item.title,
                group: item.group,
                icon: item.icon,
                run: item.run,
            },
        );
        assert(item_views(items@) =~= item_views(old(items)@).push(items@.last()@));
    }
}

fn find_blocks(known: &Vec<SlashItem>, query: &str) -> (items: Vec<SuggestionItem>)
    ensures
        item_views(items@) == block_items(
            crate::suggestion::slash_views(known@) + trigger_items(),
            query@,
        ),
{
    let ghost all = crate::suggestion::slash_views(known@) + trigger_items();
    let mut items: Vec<SuggestionItem> = Vec::new();
    let mut i: usize = 0;
    assert(item_views(items@) =~= Seq::empty());
    assert(all.take(0) =~= Seq::empty());
    while i < known.len()
        invariant
            all == crate::suggestion::slash_views(known@) + trigger_items(),
            i <= known@.len(),
            item_views(items@) == block_items(all.take(i as int), query@),
        decreases known@.len() - i,
    {
        assert(all.take(i + 1).drop_last() =~= all.take(i as int));
        assert(all.take(i + 1).last() == known@[i as int]@);
        push_block_item(&mut items, &known[i], query);
        i = i + 1;
    }
    let ghost n = known@.len() as int;
    assert(all.take(n + 1).drop_last() =~= all.take(n));
    assert(all.take(n + 2).drop_last() =~= all.take(n + 1));
    assert(all.take(n + 2) =~= all);
    assert(all.take(n + 1).last() == trigger_items()[0]);
    assert(all.take(n + 2).last() == trigger_items()[1]);
    push_block_item(&mut items, &mention_item(), query);
    assert(item_views(items@) == block_items(all.take(n + 1), query@));
    push_block_item(&mut items, &emoji_item(), query);
    items
}

fn find_emoji(known: &Vec<Emoji>, query: &str) -> (items: Vec<SuggestionItem>)
    ensures
        item_views(items@) == emoji_items(crate::suggestion::emoji_views(known@), query@),
{
    let ghost all = crate::suggestion::emoji_views(known@);
    let mut items: Vec<SuggestionItem> = Vec::new();
    let mut i: usize = 0;
    assert(item_views(items@) =~= Seq::empty());
    assert(all.take(0) =~= Seq::empty());
    while i < known.len()
        invariant
            all == crate::suggestion::emoji_views(known@),
            i <= known@.len(),
            item_views(items@) == emoji_items(all.take(i as int), query@),
        decreases known@.len() - i,
    {
        let ghost done = items@;
        assert(all.take(i + 1).drop_last() =~= all.take(i as int));
        assert(all.take(i + 1).last() == known@[i as int]@);
        let one = &known[i];
        if crate::suggestion::matches(query, one.name, &one.keywords) {
            items.push(SuggestionItem::Emoji { name: one.name, character: one.character });
            assert(item_views(items@) =~= item_views(done).push(items@.last()@));
        }
        i = i + 1;
    }
    assert(all.take(i as int) =~= all);
    items
}

fn find_people(known: &Vec<Mention>, query: &str) -> (items: Vec<SuggestionItem>)
    ensures
        item_views(items@) == mention_items(crate::suggestion::mention_views(known@), query@),
{
    let ghost all = crate::suggestion::mention_views(known@);
    let mut items: Vec<SuggestionItem> = Vec::new();
    let keywords: Vec<&'static str> = Vec::new();
    assert(crate::suggestion::word_views(keywords@) =~= Seq::empty());
    let mut i: usize = 0;
    assert(item_views(items@) =~= Seq::empty());
    assert(all.take(0) =~= Seq::empty());
    while i < known.len()
        invariant
            all == crate::suggestion::mention_views(known@),
            crate::suggestion::word_views(keywords@) == Seq::<Seq<char>>::empty(),
            i <= known@.len(),
            item_views(items@) == mention_items(all.take(i as int), query@),
        decreases known@.len() - i,
    {
        let ghost done = items@;
        assert(all.take(i + 1).drop_last() =~= all.take(i as int));
        assert(all.take(i + 1).last() == known@[i as int]@);
        let one = &known[i];
        if crate::suggestion::matches(query, &one.name, &keywords) {
            items.push(SuggestionItem::Mention(one.copy()));
            assert(item_views(items@) =~= item_views(done).push(items@.last()@));
        }
        i = i + 1;
    }
    assert(all.take(i as int) =~= all);
    items
}

impl SuggestionItem {
    /// The same entry again.
    pub fn copy(&self) -> (item: SuggestionItem)
        ensures
            item@ == self@,
    {
        match self {
            SuggestionItem::Block { title, group, icon, run } => SuggestionItem::Block {
                title: *title,
                group: *group,
                icon: *icon,
                run: *run,
            },
            SuggestionItem::Emoji { name, character } => SuggestionItem::Emoji {
                name: *name,
                character: *character,
            },
            SuggestionItem::Mention(mention) => SuggestionItem::Mention(mention.copy()),
        }
    }
}

/// Order entries by the places of their groups. Within a group they keep their
/// order.
pub fn group_items(items: &Vec<SuggestionItem>) -> (sorted: Vec<SuggestionItem>)
    ensures
        item_views(sorted@) == grouped(item_views(items@)),
{
    let ghost all = item_views(items@);
    let mut sorted: Vec<SuggestionItem> = Vec::new();
    let mut place: usize = 0;
    assert(item_views(sorted@) =~= Seq::empty());
    while place < GROUP_RANKS
        invariant
            all == item_views(items@),
            place <= GROUP_RANKS,
            item_views(sorted@) == ranked(all, place as int),
        decreases GROUP_RANKS - place,
    {
        let ghost before = item_views(sorted@);
        let mut i: usize = 0;
        assert(all.take(0) =~= Seq::empty());
        assert(before + Seq::<ItemView>::empty() =~= before);
        while i < items.len()
            invariant
                all == item_views(items@),
                i <= items@.len(),
                item_views(sorted@) == before + of_rank(all.take(i as int), place as int),
            decreases items@.len() - i,
        {
            let ghost done = sorted@;
            assert(all.take(i + 1).drop_last() =~= all.take(i as int));
            assert(all.take(i + 1).last() == items@[i as int]@);
            if group_rank(items[i].group()) == place {
                sorted.push(items[i].copy());
                assert(item_views(sorted@) =~= item_views(done).push(items@[i as int]@));
                assert(item_views(sorted@) =~= before + of_rank(all.take(i + 1), place as int));
            }
            i = i + 1;
        }
        assert(all.take(i as int) =~= all);
        place = place + 1;
    }
    sorted
}

impl EditorView {
    /// What the open menu offers: the entries that match what was typed.
    pub open spec fn menu_items(self) -> Seq<ItemView> {
        match self.suggestion {
            Some(menu) => match menu.trigger {
                Trigger::Slash => grouped(
                    block_items(self.reg.slash + trigger_items(), menu.query),
                ),
                Trigger::Emoji => if menu.query.len() == 0 {
                    Seq::empty()
                } else {
                    emoji_items(self.emoji, menu.query)
                },
                Trigger::Mention => mention_items(self.mentions, menu.query),
            },
            None => Seq::empty(),
        }
    }
}

impl<S: BlockSpec> NotionEditor<S> {
    /// Entries matching the current query. Groups appear in the menu's order;
    /// entries keep the order they were registered in. The emoji menu waits
    /// for a shortcode before showing anything.
    pub fn suggestion_items(&self) -> (items: Vec<SuggestionItem>)
        ensures
            item_views(items@) == self@.menu_items(),
    {
        match &self.suggestion {
            Some(menu) => match menu.trigger {
                Trigger::Slash => group_items(&find_blocks(&self.registry.slash, &menu.query)),
                Trigger::Emoji => if menu.query.as_str().is_empty() {
                    let items: Vec<SuggestionItem> = Vec::new();
                    assert(item_views(items@) =~= Seq::empty());
                    items
                } else {
                    find_emoji(&self.emoji, &menu.query)
                },
                Trigger::Mention => find_people(&self.mentions, &menu.query),
            },
            None => {
                let items: Vec<SuggestionItem> = Vec::new();
                assert(item_views(items@) =~= Seq::empty());
                items
            },
        }
    }

    /// Entries of the open menu, for hosts that speak of the slash menu.
    pub fn slash_items(&self) -> (items: Vec<SuggestionItem>)
        ensures
            item_views(items@) == self@.menu_items(),
    {
        self.suggestion_items()
    }

    /// Whether a menu is open, whoever supplies it.
    pub fn suggestion_is_open(&self) -> (open: bool)
        ensures
            open == self@.menu_open(),
    {
        match &self.menu_source {
            MenuSource::BuiltIn => self.suggestion.is_some(),
            MenuSource::Application(menu) => menu.is_some(),
        }
    }

    /// Whether the editor's own `/` menu is open.
    pub fn slash_menu_is_open(&self) -> (open: bool)
        ensures
            open == (self@.suggestion matches Some(menu) && menu.trigger == Trigger::Slash),
    {
        match &self.suggestion {
            Some(menu) => menu.trigger == Trigger::Slash,
            None => false,
        }
    }

    /// The people offered by `@`; an application sets its own list.
    pub fn set_mentions(&mut self, mentions: Vec<Mention>)
        ensures
            final(self)@ == (EditorView {
                mentions: crate::suggestion::mention_views(mentions@),
                ..old(self)@
            }).emit(crate::effect::EffectView::Notify),
            final(self).types() == old(self).types(),
            old(self)@.wf() ==> final(self)@.wf(),
    {
        self.mentions = mentions;
        self.emit(Effect::Notify);
    }

    /// The emoji offered by `:`; an application sets its own list.
    pub fn set_emoji(&mut self, emoji: Vec<Emoji>)
        ensures
            final(self)@ == (EditorView {
                emoji: crate::suggestion::emoji_views(emoji@),
                ..old(self)@
            }).emit(crate::effect::EffectView::Notify),
            final(self).types() == old(self).types(),
            old(self)@.wf() ==> final(self)@.wf(),
    {
        self.emoji = emoji;
        self.emit(Effect::Notify);
    }
}

impl EditorView {
    /// Whether a menu is open, whoever supplies it.
    pub open spec fn menu_open(self) -> bool {
        match self.menu_source {
            SourceView::BuiltIn => self.suggestion is Some,
            SourceView::Application(menu) => menu is Some,
        }
    }
}

/// The id of the person that a mention's mark carries, as the contracts see
/// it.
pub open spec fn mentioned(kind: crate::mark::KindView) -> Option<Seq<char>> {
    match kind {
        crate::mark::KindView::Mention(id) => Some(id),
        _ => None,
    }
}

/// The id of the person that a mention's mark carries.
pub fn mention_mark_id(kind: &MarkKind) -> (id: Option<String>)
    ensures
        crate::block::opt_view(id) == mentioned(kind@),
{
    match kind {
        MarkKind::Mention(id) => Some(id.clone()),
        _ => None,
    }
}

/// Default people list, exposed so an application can start from it.
pub fn default_people() -> (people: Vec<Mention>)
    ensures
        crate::suggestion::mention_views(people@) == crate::suggestion::default_mention_views(),
{
    default_mentions()
}

/// A menu that was just opened in block `block` by the trigger at `start`.
pub open spec fn opened(trigger: Trigger, block: BlockId, start: int) -> MenuView {
    MenuView { trigger, block, start, query: ""@, selected: 0 }
}

/// What has to be typed after `head` so that `trigger` counts as one: the
/// trigger, with a space in front unless white space or nothing is there.
pub open spec fn trigger_text(trigger: Trigger, head: Seq<char>) -> Seq<char> {
    if head.len() > 0 && !crate::text::is_white(head.last()) {
        seq![' ', trigger.char()]
    } else {
        seq![trigger.char()]
    }
}

/// Whether `trigger` was typed at the end of `head` at a word boundary.
pub open spec fn fresh_trigger(head: Seq<char>) -> Option<Trigger> {
    if head.len() > 0 && (head.len() == 1 || crate::text::is_white(head[head.len() - 2])) {
        Trigger::of_char(head.last())
    } else {
        None
    }
}

/// Whether the trigger that opened `menu` still stands in `block`, before its
/// caret.
pub open spec fn trigger_stands(menu: MenuView, block: crate::block::BlockView) -> bool {
    &&& menu.block == block.id
    &&& menu.start < block.input.cursor
    &&& crate::text::boundary(block.text, menu.start)
    &&& crate::text::after(block.text, menu.start).len() > 0
    &&& crate::text::after(block.text, menu.start)[0] == menu.trigger.char()
}

impl EditorView {
    /// The editor with a trigger at the caret of block `ix`, typed where it was
    /// not there.
    pub open spec fn type_trigger(self, ix: int, trigger: Trigger) -> EditorView {
        let head = self.head(ix);
        let caret = self.blocks[ix].input.cursor as int;
        if head.len() > 0 && head.last() == trigger.char() {
            self
        } else {
            self.edit_block_text(ix, caret, caret, trigger_text(trigger, head))
        }
    }

    /// The editor with a menu opened at the caret, its trigger typed where it
    /// was not there.
    pub open spec fn open_suggestion(self, trigger: Trigger) -> EditorView {
        match self.menu_source {
            SourceView::Application(_) => self.emit(
                crate::effect::EffectView::Menu(
                    MenuActionView::Open(trigger.char()),
                ),
            ),
            SourceView::BuiltIn => match self.active_index() {
                Some(ix) if self.caps_at(ix).input_rules => {
                    let typed = self.type_trigger(ix, trigger);
                    let block = typed.blocks[ix];
                    EditorView {
                        suggestion: Some(opened(trigger, block.id, block.input.cursor - 1)),
                        ..typed
                    }.emit(crate::effect::EffectView::Notify)
                },
                _ => self,
            },
        }
    }

    /// The editor with its menu closed. An application's menu is its own to
    /// close.
    pub open spec fn close_suggestion_menu(self) -> EditorView {
        match self.menu_source {
            SourceView::Application(Some(_)) => self.emit(
                crate::effect::EffectView::Menu(MenuActionView::Dismiss),
            ),
            SourceView::Application(None) => self,
            SourceView::BuiltIn => if self.suggestion is Some {
                EditorView { suggestion: None, ..self }.emit(crate::effect::EffectView::Notify)
            } else {
                self
            },
        }
    }

    /// The editor with its menu brought in step with the text: opened by a
    /// fresh trigger, filtered by what follows it, closed when the trigger is
    /// gone or nothing matches.
    #[verifier::opaque]
    pub open spec fn sync_suggestion_menu(self) -> EditorView {
        if self.menu_source is Application {
            self
        } else {
            match self.active_index() {
                Some(ix) => {
                    let block = self.blocks[ix];
                    match self.suggestion {
                        Some(menu) => if trigger_stands(menu, block) {
                            let query = crate::text::slice(
                                block.text,
                                menu.start + 1,
                                block.input.cursor as int,
                            );
                            let read = EditorView {
                                suggestion: Some(
                                    if query == menu.query {
                                        menu
                                    } else {
                                        MenuView { query, selected: 0, ..menu }
                                    },
                                ),
                                ..self
                            };
                            if read.menu_items().len() == 0 {
                                EditorView { suggestion: None, ..self }.emit(
                                    crate::effect::EffectView::Notify,
                                )
                            } else {
                                read.emit(crate::effect::EffectView::Notify)
                            }
                        } else {
                            EditorView { suggestion: None, ..self }.emit(
                                crate::effect::EffectView::Notify,
                            )
                        },
                        None => match fresh_trigger(self.head(ix)) {
                            Some(trigger) if self.caps_at(ix).input_rules => EditorView {
                                suggestion: Some(
                                    opened(trigger, block.id, block.input.cursor - 1),
                                ),
                                ..self
                            }.emit(crate::effect::EffectView::Notify),
                            _ => self,
                        },
                    }
                },
                None => EditorView { suggestion: None, ..self },
            }
        }
    }
}

fn trigger_typed(trigger: Trigger, spaced: bool) -> (typed: &'static str)
    ensures
        typed@ == (if spaced {
            seq![' ', trigger.char()]
        } else {
            seq![trigger.char()]
        }),
{
    proof {
        reveal_strlit(" /");
        reveal_strlit(" :");
        reveal_strlit(" @");
        reveal_strlit("/");
        reveal_strlit(":");
        reveal_strlit("@");
    }
    let typed = match (trigger, spaced) {
        (Trigger::Slash, true) => " /",
        (Trigger::Emoji, true) => " :",
        (Trigger::Mention, true) => " @",
        (Trigger::Slash, false) => "/",
        (Trigger::Emoji, false) => ":",
        (Trigger::Mention, false) => "@",
    };
    assert(typed@ =~= if spaced {
        seq![' ', trigger.char()]
    } else {
        seq![trigger.char()]
    });
    typed
}

/// A trigger takes one byte.
proof fn lemma_trigger_step(text: Seq<char>, o: int, trigger: Trigger)
    requires
        crate::text::boundary(text, o),
        crate::text::after(text, o).len() > 0,
        crate::text::after(text, o)[0] == trigger.char(),
    ensures
        crate::text::boundary(text, o + 1),
{
    crate::text::lemma_split(text, o);
    let x = crate::text::before(text, o);
    let y = crate::text::after(text, o);
    let c = seq![trigger.char()];
    crate::text::lemma_ascii(trigger.char());
    assert(y =~= c + y.drop_first());
    assert((x + c) + y.drop_first() =~= text);
    crate::text::lemma_join(x + c, y.drop_first());
    crate::text::lemma_join(x, c);
}

/// A text that ends with a trigger is at least a byte long.
proof fn lemma_trigger_end(head: Seq<char>, trigger: Trigger)
    requires
        head.len() > 0,
        head.last() == trigger.char(),
    ensures
        crate::text::blen(head) >= 1,
{
    crate::text::lemma_ends(head);
}

impl<S: BlockSpec> NotionEditor<S> {
    /// Open the block menu at the caret, inserting the `/` if needed.
    pub fn open_slash_menu(&mut self)
        requires
            old(self)@.wf(),
        ensures
            final(self)@ == old(self)@.open_suggestion(Trigger::Slash),
            final(self).types() == old(self).types(),
            final(self)@.wf(),
    {
        self.open_suggestion(Trigger::Slash);
    }

    /// See to it that a trigger stands before the caret of block `ix`, and
    /// return the caret.
    fn type_trigger(&mut self, ix: usize, trigger: Trigger) -> (caret: usize)
        requires
            old(self)@.wf(),
            ix < old(self)@.blocks.len(),
        ensures
            final(self)@ == old(self)@.type_trigger(ix as int, trigger),
            final(self).types() == old(self).types(),
            final(self)@.wf(),
            final(self)@.blocks.len() == old(self)@.blocks.len(),
            caret == final(self)@.blocks[ix as int].input.cursor,
            caret >= 1,
    {
        let ghost block = self@.blocks[ix as int];
        assert(block == self.blocks@[ix as int]@);
        let caret: usize = self.blocks[ix].input.cursor;
        let (head, _rest) = text::cut(&self.blocks[ix].text, caret);
        proof {
            crate::text::lemma_split(block.text, caret as int);
            crate::text::lemma_ends(head@);
        }
        let last = text::last_char(head);
        let present = match last {
            Some(c) => c == trigger.character(),
            None => false,
        };
        if !present {
            let spaced = match last {
                Some(c) => !text::is_whitespace(c),
                None => false,
            };
            let typed = trigger_typed(trigger, spaced);
            proof {
                crate::text::lemma_ends(typed@);
            }
            return self.edit_block_text(ix, caret, caret, typed);
        }
        caret
    }

    /// Open a menu at the caret, typing its trigger character if it is not
    /// already there. A trigger needs whitespace in front of it to count as
    /// one.
    pub fn open_suggestion(&mut self, trigger: Trigger)
        requires
            old(self)@.wf(),
        ensures
            final(self)@ == old(self)@.open_suggestion(trigger),
            final(self).types() == old(self).types(),
            final(self)@.wf(),
    {
        if let MenuSource::Application(_) = &self.menu_source {
            self.emit(Effect::Menu(MenuAction::Open(trigger.character())));
            return;
        }
        let ix: usize = match self.active_index() {
            Some(ix) => ix,
            None => {
                return;
            },
        };
        if !self.caps_at(ix).input_rules {
            return;
        }
        let caret: usize = self.type_trigger(ix, trigger);
        assert(self@.blocks[ix as int] == self.blocks@[ix as int]@);
        let id = self.blocks[ix].id;
        self.suggestion = Some(
            SuggestionMenu {
                trigger,
                block: id,
                start: caret - 1,
                query: "".to_owned(),
                selected: 0,
            },
        );
        self.emit(Effect::Notify);
    }

    /// Close the menu, leaving the typed text alone.
    pub fn close_suggestion_menu(&mut self)
        ensures
            final(self)@ == old(self)@.close_suggestion_menu(),
            final(self).types() == old(self).types(),
            old(self)@.wf() ==> final(self)@.wf(),
    {
        let dismissed = match &self.menu_source {
            MenuSource::Application(menu) => Some(menu.is_some()),
            MenuSource::BuiltIn => None,
        };
        match dismissed {
            Some(open) => {
                if open {
                    self.emit(Effect::Menu(MenuAction::Dismiss));
                }
            },
            None => {
                if self.suggestion.is_some() {
                    self.suggestion = None;
                    self.emit(Effect::Notify);
                }
            },
        }
    }

    /// Called after every edit: open on a fresh trigger, or read the query
    /// again. A query that matches nothing ends the menu, so ordinary prose is
    /// not held hostage by a `:`. A trigger that no longer stands where it was
    /// typed, be it that its place lies inside another character now, ends it
    /// too.
    pub fn sync_suggestion_menu(&mut self)
        requires
            old(self)@.wf(),
        ensures
            final(self)@ == old(self)@.sync_suggestion_menu(),
            final(self).types() == old(self).types(),
            final(self)@.wf(),
    {
        proof {
            reveal(EditorView::sync_suggestion_menu);
        }
        if let MenuSource::Application(_) = &self.menu_source {
            return;
        }
        let ix: usize = match self.active_index() {
            Some(ix) => ix,
            None => {
                self.suggestion = None;
                return;
            },
        };
        let ghost block = self@.blocks[ix as int];
        assert(block == self.blocks@[ix as int]@);
        let caret: usize = self.blocks[ix].input.cursor;
        let id = self.blocks[ix].id;
        let content = self.blocks[ix].text.clone();
        proof {
            crate::text::lemma_split(block.text, caret as int);
        }

        if let Some(menu) = &self.suggestion {
            let start: usize = menu.start;
            let trigger = menu.trigger;
            let stands = menu.block == id && start < caret && text::is_boundary(&content, start) && {
                let (_front, tail) = text::cut(&content, start);
                match text::first_char(tail) {
                    Some(c) => c == trigger.character(),
                    None => false,
                }
            };
            if !stands {
                self.suggestion = None;
                self.emit(Effect::Notify);
                return;
            }
            proof {
                lemma_trigger_step(block.text, start as int, trigger);
            }
            let query = text::text_slice(&content, start + 1, caret);
            if !text::text_eq(query, &menu.query) {
                self.suggestion = Some(
                    SuggestionMenu {
                        trigger,
                        block: id,
                        start,
                        query: query.to_owned(),
                        selected: 0,
                    },
                );
            }
            let items = self.suggestion_items();
            assert(item_views(items@).len() == items@.len());
            if items.len() == 0 {
                self.suggestion = None;
            }
            self.emit(Effect::Notify);
            return;
        }
        let (head, _rest) = text::cut(&content, caret);
        let chars = text::to_chars(head);
        let count: usize = chars.len();
        if count == 0 || !self.caps_at(ix).input_rules {
            return;
        }
        let trigger = match Trigger::from_character(chars[count - 1]) {
            Some(trigger) => trigger,
            None => {
                return;
            },
        };
        if count > 1 && !text::is_whitespace(chars[count - 2]) {
            return;
        }
        proof {
            lemma_trigger_end(head@, trigger);
        }
        self.suggestion = Some(
            SuggestionMenu {
                trigger,
                block: id,
                start: caret - 1,
                query: "".to_owned(),
                selected: 0,
            },
        );
        self.emit(Effect::Notify);
    }
}

/// `at` moved into `0..count`.
pub open spec fn clamped(at: int, count: int) -> int {
    if at < 0 {
        0
    } else if at >= count {
        count - 1
    } else {
        at
    }
}

/// What is typed for a mention: its name, with a space behind it.
pub open spec fn mention_text(name: Seq<char>) -> Seq<char> {
    "@"@ + name + " "@
}

impl EditorView {
    /// The editor with the application's menu replaced. None keeps application
    /// ownership with no open menu.
    pub open spec fn set_application_menu(self, menu: Option<AppMenuView>) -> EditorView {
        if self.menu_source == SourceView::Application(menu) {
            self
        } else {
            EditorView {
                menu_source: SourceView::Application(menu),
                suggestion: None,
                ..self
            }.emit(crate::effect::EffectView::Notify)
        }
    }

    /// The editor with the selection of its menu moved by `delta`: within the
    /// ends of an application's menu, round and round in the editor's own.
    pub open spec fn move_suggestion_selection(self, delta: int) -> EditorView {
        match self.menu_source {
            SourceView::Application(Some(menu)) if menu.items.len() > 0 => {
                let selected = clamped(menu.selected + delta, menu.items.len() as int);
                EditorView {
                    menu_source: SourceView::Application(Some(AppMenuView { selected, ..menu })),
                    ..self
                }.emit(
                    crate::effect::EffectView::Menu(
                        MenuActionView::Select(selected),
                    ),
                ).emit(crate::effect::EffectView::Notify)
            },
            SourceView::Application(_) => self,
            SourceView::BuiltIn => match self.suggestion {
                Some(menu) if self.menu_items().len() > 0 => {
                    let selected = (menu.selected + delta) % (self.menu_items().len() as int);
                    EditorView {
                        suggestion: Some(MenuView { selected, ..menu }),
                        ..self
                    }.emit(crate::effect::EffectView::Notify)
                },
                _ => self,
            },
        }
    }

    /// The bytes of block `ix` that a choice from `menu` replaces: from the
    /// trigger to the caret.
    pub open spec fn typed_end(self, ix: int, menu: MenuView) -> int {
        let caret = self.blocks[ix].input.cursor as int;
        if caret > menu.start {
            caret
        } else {
            menu.start
        }
    }

    /// The editor once an entry of `menu` was chosen for block `ix`.
    pub open spec fn choose_item(self, ix: int, menu: MenuView, item: ItemView) -> EditorView {
        let end = self.typed_end(ix, menu);
        match item {
            ItemView::Block { run, .. } => {
                let cleared = self.edit_block_text(ix, menu.start, end, ""@);
                match run {
                    SlashRun::Command(command) => cleared.emit(
                        crate::effect::EffectView::RunCommand(command as int),
                    ),
                    SlashRun::Open(trigger) => cleared.open_suggestion(trigger),
                }
            },
            ItemView::Emoji { character, .. } => self.edit_block_text(
                ix,
                menu.start,
                end,
                character,
            ),
            ItemView::Mention(mention) => {
                let typed = mention_text(mention.name);
                self.edit_block_text(ix, menu.start, end, typed).mark_typed(
                    ix,
                    crate::mark::KindView::Mention(mention.id),
                    menu.start,
                    menu.start + crate::text::blen(crate::text::trim_end(typed)),
                )
            },
        }
    }

    /// The editor once the selected entry was chosen. An application is told
    /// what was picked, and does the rest.
    pub open spec fn confirm_suggestion(self) -> EditorView {
        match self.menu_source {
            SourceView::Application(Some(menu)) if menu.selected < menu.items.len() => self.emit(
                crate::effect::EffectView::Menu(
                    MenuActionView::Pick(menu.items[menu.selected].tag),
                ),
            ),
            SourceView::Application(_) => self,
            SourceView::BuiltIn => match self.suggestion {
                Some(menu) => {
                    let closed = EditorView { suggestion: None, ..self };
                    if menu.selected >= self.menu_items().len() {
                        closed.emit(crate::effect::EffectView::Notify)
                    } else {
                        match crate::view::find(self.blocks, menu.block) {
                            Some(ix) => closed.choose_item(
                                ix,
                                menu,
                                self.menu_items()[menu.selected],
                            ).emit(crate::effect::EffectView::Notify),
                            None => closed,
                        }
                    }
                },
                None => self,
            },
        }
    }

    /// The editor with entry `index` of its menu selected.
    pub open spec fn select_item(self, index: usize) -> EditorView {
        match self.menu_source {
            SourceView::Application(Some(menu)) => EditorView {
                menu_source: SourceView::Application(
                    Some(AppMenuView { selected: index as int, ..menu }),
                ),
                ..self
            },
            SourceView::Application(None) => self,
            SourceView::BuiltIn => match self.suggestion {
                Some(menu) => EditorView {
                    suggestion: Some(MenuView { selected: index as int, ..menu }),
                    ..self
                },
                None => self,
            },
        }
    }

    /// Whether the trigger of the editor's own menu lies between characters of
    /// its block.
    pub open spec fn menu_fits(self) -> bool {
        self.menu_source is BuiltIn ==> (self.suggestion matches Some(menu) ==> (crate::view::find(
            self.blocks,
            menu.block,
        ) matches Some(ix) ==> crate::text::boundary(self.blocks[ix].text, menu.start)))
    }
}

/// Choosing a row of an application's menu never edits the document: only a
/// request is left, and it names the tag that was picked.
pub proof fn law_application_pick(e: EditorView, index: usize)
    requires
        e.menu_source is Application,
    ensures
        ({
            let n = e.select_item(index).confirm_suggestion();
            &&& n.blocks == e.blocks
            &&& n.suggestion == e.suggestion
            &&& n.effects == (match e.menu_source {
                SourceView::Application(Some(menu)) if index < menu.items.len() => e.effects.push(
                    crate::effect::EffectView::Menu(
                        MenuActionView::Pick(menu.items[index as int].tag),
                    ),
                ),
                _ => e.effects,
            })
        }),
{
}

/// Moving round an editor's own menu by its length comes back to where it
/// started, and one step there and back is no step.
pub proof fn law_selection_wraps(e: EditorView, delta: int)
    requires
        e.menu_source is BuiltIn,
        e.suggestion matches Some(menu) && 0 <= menu.selected < e.menu_items().len(),
    ensures
        ({
            let count = e.menu_items().len() as int;
            &&& e.move_suggestion_selection(count).suggestion == e.suggestion
            &&& e.move_suggestion_selection(delta).move_suggestion_selection(-delta).suggestion
                == e.suggestion
        }),
{
    let menu = e.suggestion->0;
    let count = e.menu_items().len() as int;
    let there = e.move_suggestion_selection(delta);
    let at = (menu.selected + delta) % count;
    assert(there.menu_items() == e.menu_items());
    assert((menu.selected + count) % count == menu.selected) by {
        vstd::arithmetic::div_mod::lemma_mod_add_multiples_vanish(menu.selected, count);
        vstd::arithmetic::div_mod::lemma_small_mod(menu.selected as nat, count as nat);
    }
    assert((at - delta) % count == menu.selected) by {
        vstd::arithmetic::div_mod::lemma_sub_mod_noop(menu.selected + delta, delta, count);
        vstd::arithmetic::div_mod::lemma_sub_mod_noop(at, delta, count);
        vstd::arithmetic::div_mod::lemma_mod_twice(menu.selected + delta, count);
        vstd::arithmetic::div_mod::lemma_small_mod(menu.selected as nat, count as nat);
    }
}

fn same_menus(a: &Option<ApplicationMenu>, b: &Option<ApplicationMenu>) -> (same: bool)
    ensures
        same == (opt_menu_view(*a) == opt_menu_view(*b)),
{
    match (a, b) {
        (Some(a), Some(b)) => a.anchor == b.anchor && a.selected == b.selected && same_items(
            &a.items,
            &b.items,
        ),
        (None, None) => true,
        _ => false,
    }
}

/// `at + delta` in `0..count`, round and round.
fn wrapped(at: usize, delta: isize, count: usize) -> (moved: usize)
    requires
        count > 0,
    ensures
        moved == (at + delta) % (count as int),
{
    let sum: i128 = at as i128 + delta as i128;
    if sum >= 0 {
        (sum as u128 % count as u128) as usize
    } else {
        let back: u128 = (-sum) as u128 % count as u128;
        proof {
            let c = count as int;
            let s = sum as int;
            let q = (-s) / c;
            vstd::arithmetic::div_mod::lemma_fundamental_div_mod(-s, c);
            assert((-q) * c == -(c * q) && (-q - 1) * c == -(c * q) - c) by (nonlinear_arith);
            if back == 0 {
                vstd::arithmetic::div_mod::lemma_fundamental_div_mod_converse(s, c, -q, 0);
            } else {
                vstd::arithmetic::div_mod::lemma_fundamental_div_mod_converse(
                    s,
                    c,
                    -q - 1,
                    c - back,
                );
            }
        }
        if back == 0 {
            0
        } else {
            count - back as usize
        }
    }
}

impl<S: BlockSpec> NotionEditor<S> {
    /// Supply the application's menu; None keeps application ownership with
    /// no open menu. Standalone editors use their built-in menus by default.
    pub fn set_application_menu(&mut self, menu: Option<ApplicationMenu>)
        ensures
            final(self)@ == old(self)@.set_application_menu(opt_menu_view(menu)),
            final(self).types() == old(self).types(),
            old(self)@.wf() ==> final(self)@.wf(),
    {
        let unchanged = match &self.menu_source {
            MenuSource::Application(current) => same_menus(current, &menu),
            MenuSource::BuiltIn => false,
        };
        if unchanged {
            return;
        }
        self.menu_source = MenuSource::Application(menu);
        self.suggestion = None;
        self.emit(Effect::Notify);
    }

    /// Move the selection of the open menu.
    pub fn move_suggestion_selection(&mut self, delta: isize)
        ensures
            final(self)@ == old(self)@.move_suggestion_selection(delta as int),
            final(self).types() == old(self).types(),
            old(self)@.wf() ==> final(self)@.wf(),
    {
        if let MenuSource::Application(menu) = &mut self.menu_source {
            let selected: usize = match menu {
                Some(menu) => {
                    let count: usize = menu.items.len();
                    assert(crate::toolbar::item_views(menu.items@).len() == count);
                    if count == 0 {
                        return;
                    }
                    let sum: i128 = menu.selected as i128 + delta as i128;
                    let selected: usize = if sum < 0 {
                        0
                    } else if sum >= count as i128 {
                        count - 1
                    } else {
                        sum as usize
                    };
                    menu.selected = selected;
                    selected
                },
                None => {
                    return;
                },
            };
            self.emit(Effect::Menu(MenuAction::Select(selected)));
            self.emit(Effect::Notify);
            return;
        }
        let items = self.suggestion_items();
        let count: usize = items.len();
        assert(item_views(items@).len() == count);
        if let Some(menu) = &mut self.suggestion {
            if count == 0 {
                return;
            }
            menu.selected = wrapped(menu.selected, delta, count);
        } else {
            return;
        }
        self.emit(Effect::Notify);
    }
}

impl<S: BlockSpec> NotionEditor<S> {
    /// Do what an entry of `menu` asks for, in block `ix`: in place of what was
    /// typed, from the trigger to the caret.
    fn choose_item(&mut self, ix: usize, menu: &SuggestionMenu, item: &SuggestionItem)
        requires
            old(self)@.wf(),
            ix < old(self)@.blocks.len(),
            crate::text::boundary(old(self)@.blocks[ix as int].text, menu.start as int),
        ensures
            final(self)@ == old(self)@.choose_item(ix as int, menu@, item@),
            final(self).types() == old(self).types(),
            final(self)@.wf(),
    {
        assert(self@.blocks[ix as int] == self.blocks@[ix as int]@);
        let caret: usize = self.blocks[ix].input.cursor;
        let end: usize = if caret > menu.start {
            caret
        } else {
            menu.start
        };
        match item {
            SuggestionItem::Block { run, .. } => {
                let _ = self.edit_block_text(ix, menu.start, end, "");
                match run {
                    SlashRun::Command(command) => {
                        self.emit(Effect::RunCommand(*command));
                    },
                    SlashRun::Open(trigger) => {
                        self.open_suggestion(*trigger);
                    },
                }
            },
            SuggestionItem::Emoji { character, .. } => {
                let _ = self.edit_block_text(ix, menu.start, end, character);
            },
            SuggestionItem::Mention(mention) => {
                let mut typed = "@".to_owned();
                typed.append(&mention.name);
                typed.append(" ");
                assert(typed@ == mention_text(mention@.name));
                let len: usize = text::text_len(text::text_trim_end(&typed));
                proof {
                    crate::text::lemma_trim_end(typed@);
                }
                let after: usize = self.edit_block_text(ix, menu.start, end, &typed);
                assert(menu.start + len <= after);
                self.mark_typed(ix, mention.mark(), menu.start, menu.start + len);
            },
        }
    }

    /// Choose the selected entry of the open menu.
    pub fn confirm_suggestion(&mut self)
        requires
            old(self)@.wf(),
            old(self)@.menu_fits(),
        ensures
            final(self)@ == old(self)@.confirm_suggestion(),
            final(self).types() == old(self).types(),
            final(self)@.wf(),
    {
        if let MenuSource::Application(menu) = &self.menu_source {
            let tag = match menu {
                Some(menu) => {
                    assert(crate::toolbar::item_views(menu.items@).len() == menu.items@.len());
                    if menu.selected < menu.items.len() {
                        menu.items[menu.selected].tag.clone()
                    } else {
                        return;
                    }
                },
                None => {
                    return;
                },
            };
            self.emit(Effect::Menu(MenuAction::Pick(tag)));
            return;
        }
        let items = self.suggestion_items();
        assert(item_views(items@).len() == items@.len());
        let menu = match self.suggestion.take() {
            Some(menu) => menu,
            None => {
                return;
            },
        };
        assert(self@ =~= EditorView { suggestion: None, ..old(self)@ });
        if menu.selected >= items.len() {
            self.emit(Effect::Notify);
            return;
        }
        let ix: usize = match self.index_of(menu.block) {
            Some(ix) => ix,
            None => {
                return;
            },
        };
        assert(item_views(items@)[menu.selected as int] == items@[menu.selected as int]@);
        self.choose_item(ix, &menu, &items[menu.selected]);
        self.emit(Effect::Notify);
    }

    /// Choose entry `index` of the open menu, as a click on it does.
    pub fn run_suggestion_item(&mut self, index: usize)
        requires
            old(self)@.wf(),
            old(self)@.menu_fits(),
        ensures
            final(self)@ == (if old(self)@.menu_source == SourceView::Application(None) {
                old(self)@
            } else {
                old(self)@.select_item(index).confirm_suggestion()
            }),
            final(self).types() == old(self).types(),
            final(self)@.wf(),
    {
        match &mut self.menu_source {
            MenuSource::Application(Some(menu)) => {
                menu.selected = index;
            },
            MenuSource::Application(None) => {
                return;
            },
            MenuSource::BuiltIn => {
                if let Some(menu) = &mut self.suggestion {
                    menu.selected = index;
                }
            },
        }
        assert(self@ =~= old(self)@.select_item(index));
        self.confirm_suggestion();
    }
}

/// What stands in front of an entry.
#[derive(Debug)]
pub enum Leading {
    /// The icon of that name.
    Icon(&'static str),
    /// A character, or the initial of a name.
    Text(String),
}

/// A [`Leading`] as the contracts see it.
pub enum LeadingView {
    Icon(Seq<char>),
    Text(Seq<char>),
}

impl View for Leading {
    type V = LeadingView;

    open spec fn view(&self) -> LeadingView {
        match *self {
            Leading::Icon(icon) => LeadingView::Icon(icon@),
            Leading::Text(text) => LeadingView::Text(text@),
        }
    }
}

/// One row of a menu on screen.
#[derive(Debug)]
pub enum MenuRow {
    /// A line between two groups.
    Separator,
    /// The name of the group below.
    Heading(&'static str),
    /// An entry.
    Entry { index: usize, selected: bool, leading: Leading, title: String },
}

/// A [`MenuRow`] as the contracts see it.
pub enum RowView {
    Separator,
    Heading(Seq<char>),
    Entry { index: int, selected: bool, leading: LeadingView, title: Seq<char> },
}

impl View for MenuRow {
    type V = RowView;

    open spec fn view(&self) -> RowView {
        match *self {
            MenuRow::Separator => RowView::Separator,
            MenuRow::Heading(group) => RowView::Heading(group@),
            MenuRow::Entry { index, selected, leading, title } => RowView::Entry {
                index: index as int,
                selected,
                leading: leading@,
                title: title@,
            },
        }
    }
}

/// The views of a list of rows.
pub open spec fn row_views(rows: Seq<MenuRow>) -> Seq<RowView> {
    rows.map_values(|row: MenuRow| row@)
}

/// What stands in front of an entry: a block's icon, an emoji, or a person's
/// initial.
pub open spec fn leading_of(item: ItemView) -> LeadingView {
    match item {
        ItemView::Block { icon, .. } => LeadingView::Icon(icon),
        ItemView::Emoji { character, .. } => LeadingView::Text(character),
        ItemView::Mention(mention) => LeadingView::Text(
            if mention.name.len() > 0 {
                seq![mention.name[0]]
            } else {
                ""@
            },
        ),
    }
}

/// The rows that entry `i` of a menu adds: itself, under the name of its group
/// where a new one begins, and a line above that unless it is the first.
pub open spec fn rows_for(items: Seq<ItemView>, i: int, selected: int) -> Seq<RowView> {
    let before = if i > 0 {
        items[i - 1].group()
    } else {
        Seq::empty()
    };
    let group = items[i].group();
    let line = if group != before && before.len() > 0 {
        seq![RowView::Separator]
    } else {
        Seq::empty()
    };
    let heading = if group != before {
        seq![RowView::Heading(group)]
    } else {
        Seq::empty()
    };
    let entry = RowView::Entry {
        index: i,
        selected: i == selected,
        leading: leading_of(items[i]),
        title: items[i].title(),
    };
    (line + heading).push(entry)
}

/// The rows of the first `n` entries of a menu.
pub open spec fn menu_rows(items: Seq<ItemView>, selected: int, n: int) -> Seq<RowView>
    decreases n,
{
    if n <= 0 {
        Seq::empty()
    } else {
        menu_rows(items, selected, n - 1) + rows_for(items, n - 1, selected)
    }
}

impl EditorView {
    /// The rows of the editor's own menu, where it is on screen.
    pub open spec fn suggestion_rows(self) -> Option<Seq<RowView>> {
        match self.suggestion {
            Some(menu) if self.menu_source is BuiltIn && crate::view::known(
                self.blocks,
                menu.block,
            ) && self.menu_items().len() > 0 => Some(
                menu_rows(self.menu_items(), menu.selected, self.menu_items().len() as int),
            ),
            _ => None,
        }
    }
}

/// The rows of a list, where there is one, as the contracts see them.
pub open spec fn opt_row_views(rows: Option<Vec<MenuRow>>) -> Option<Seq<RowView>> {
    match rows {
        Some(rows) => Some(row_views(rows@)),
        None => None,
    }
}

fn leading_for(item: &SuggestionItem) -> (leading: Leading)
    ensures
        leading@ == leading_of(item@),
{
    match item {
        SuggestionItem::Block { icon, .. } => Leading::Icon(icon),
        SuggestionItem::Emoji { character, .. } => Leading::Text((*character).to_owned()),
        SuggestionItem::Mention(mention) => {
            if mention.name.as_str().is_empty() {
                Leading::Text("".to_owned())
            } else {
                let initial = mention.name.as_str().substring_char(0, 1).to_owned();
                assert(initial@ =~= seq![mention@.name[0]]);
                Leading::Text(initial)
            }
        },
    }
}

impl<S: BlockSpec> NotionEditor<S> {
    /// The rows of the editor's own menu, hung under the caret. There are none
    /// without a menu, a block to hang it from, or anything to offer.
    pub fn suggestion_rows(&self) -> (rows: Option<Vec<MenuRow>>)
        ensures
            opt_row_views(rows) == self@.suggestion_rows(),
    {
        if let MenuSource::Application(_) = &self.menu_source {
            return None;
        }
        let menu = match &self.suggestion {
            Some(menu) => menu,
            None => {
                return None;
            },
        };
        if self.index_of(menu.block).is_none() {
            return None;
        }
        proof {
            crate::view::lemma_find(self@.blocks, menu.block);
        }
        let items = self.suggestion_items();
        let ghost views = item_views(items@);
        assert(views.len() == items@.len());
        if items.len() == 0 {
            return None;
        }
        let mut rows: Vec<MenuRow> = Vec::new();
        let mut i: usize = 0;
        assert(row_views(rows@) =~= Seq::empty());
        while i < items.len()
            invariant
                views == item_views(items@),
                i <= items@.len(),
                row_views(rows@) == menu_rows(views, menu.selected as int, i as int),
            decreases items@.len() - i,
        {
            let ghost done = row_views(rows@);
            let ghost start = rows@;
            assert(views[i as int] == items@[i as int]@);
            let group = items[i].group();
            let mut fresh = true;
            let mut line = false;
            if i > 0 {
                assert(views[i - 1] == items@[i - 1]@);
                let before = items[i - 1].group();
                fresh = !text::text_eq(group, before);
                line = fresh && !before.is_empty();
            } else {
                fresh = !group.is_empty();
            }
            if line {
                rows.push(MenuRow::Separator);
            }
            if fresh {
                rows.push(MenuRow::Heading(group));
            }
            rows.push(
                MenuRow::Entry {
                    index: i,
                    selected: i == menu.selected,
                    leading: leading_for(&items[i]),
                    title: items[i].title(),
                },
            );
            proof {
                assert(group@.len() == 0 ==> group@ =~= Seq::empty());
                let added = rows_for(views, i as int, menu.selected as int);
                assert(rows@.len() == start.len() + added.len());
                assert(row_views(rows@) =~= done + added);
            }
            i = i + 1;
        }
        Some(rows)
    }
}

/// Where an application's menu hangs: under the caret of a block, or under a
/// block.
#[derive(Clone, Copy, Debug, PartialEq, Eq, Structural)]
pub enum MenuPlace {
    Caret(usize),
    Block(BlockId),
}

impl EditorView {
    /// Where the application's menu hangs, where it is on screen.
    pub open spec fn application_menu_place(self) -> Option<MenuPlace> {
        match self.menu_source {
            SourceView::Application(Some(menu)) if menu.items.len() > 0 => match menu.anchor {
                ApplicationMenuAnchor::Caret => match self.active_index() {
                    Some(ix) => Some(MenuPlace::Caret(ix as usize)),
                    None => None,
                },
                ApplicationMenuAnchor::Block(index) => if index < self.blocks.len() {
                    Some(MenuPlace::Block(self.blocks[index as int].id))
                } else {
                    None
                },
            },
            _ => None,
        }
    }
}

impl<S: BlockSpec> NotionEditor<S> {
    /// Where the application's menu hangs. There is no such place without a
    /// menu, anything in it, or a block to hang it from.
    pub fn application_menu_place(&self) -> (place: Option<MenuPlace>)
        ensures
            place == self@.application_menu_place(),
    {
        match &self.menu_source {
            MenuSource::Application(Some(menu)) => {
                assert(crate::toolbar::item_views(menu.items@).len() == menu.items@.len());
                if menu.items.len() == 0 {
                    return None;
                }
                match menu.anchor {
                    ApplicationMenuAnchor::Caret => match self.active_index() {
                        Some(ix) => Some(MenuPlace::Caret(ix)),
                        None => None,
                    },
                    ApplicationMenuAnchor::Block(index) => match self.block_id_at(index) {
                        Some(id) => Some(MenuPlace::Block(id)),
                        None => None,
                    },
                }
            },
            _ => None,
        }
    }
}

/// A row of an application's menu on screen.
#[derive(Debug)]
pub struct ApplicationRow {
    pub index: usize,
    pub selected: bool,
    pub label: String,
}

/// Whether `rows` are those of an application's menu.
pub open spec fn are_application_rows(menu: AppMenuView, rows: Seq<ApplicationRow>) -> bool {
    &&& rows.len() == menu.items.len()
    &&& forall|i: int|
        0 <= i < rows.len() ==> (#[trigger] rows[i]).index == i && rows[i].selected == (i
            == menu.selected) && rows[i].label@ == menu.items[i].label
}

impl<S: BlockSpec> NotionEditor<S> {
    /// The rows of the application's menu, and where it hangs. There are none
    /// where there is no such place.
    pub fn application_menu_rows(&self) -> (shown: Option<(MenuPlace, Vec<ApplicationRow>)>)
        ensures
            match shown {
                Some(shown) => {
                    &&& self@.application_menu_place() == Some(shown.0)
                    &&& self@.menu_source matches SourceView::Application(Some(menu))
                        && are_application_rows(menu, shown.1@)
                },
                None => self@.application_menu_place() is None,
            },
    {
        let place = match self.application_menu_place() {
            Some(place) => place,
            None => {
                return None;
            },
        };
        let menu = match &self.menu_source {
            MenuSource::Application(Some(menu)) => menu,
            _ => {
                return None;
            },
        };
        let ghost views = crate::toolbar::item_views(menu.items@);
        let mut rows: Vec<ApplicationRow> = Vec::new();
        let mut i: usize = 0;
        while i < menu.items.len()
            invariant
                views == crate::toolbar::item_views(menu.items@),
                i <= menu.items@.len(),
                rows@.len() == i,
                forall|j: int|
                    0 <= j < i ==> (#[trigger] rows@[j]).index == j && rows@[j].selected == (j
                        == menu.selected) && rows@[j].label@ == views[j].label,
            decreases menu.items@.len() - i,
        {
            rows.push(
                ApplicationRow {
                    index: i,
                    selected: i == menu.selected,
                    label: menu.items[i].label.clone(),
                },
            );
            i = i + 1;
        }
        Some((place, rows))
    }

    /// Whether the trigger of the editor's own menu lies between characters of
    /// its block, so that an entry can be chosen.
    pub fn menu_fits(&self) -> (fits: bool)
        ensures
            fits == self@.menu_fits(),
    {
        if let MenuSource::Application(_) = &self.menu_source {
            return true;
        }
        let menu = match &self.suggestion {
            Some(menu) => menu,
            None => {
                return true;
            },
        };
        match self.index_of(menu.block) {
            Some(ix) => {
                assert(self@.blocks[ix as int] == self.blocks@[ix as int]@);
                text::is_boundary(&self.blocks[ix].text, menu.start)
            },
            None => true,
        }
    }
}

/// A menu that was brought in step with the text, or just opened, fits it, so
/// that an entry can be chosen.
pub proof fn law_menu_fits(e: EditorView, trigger: Trigger)
    requires
        e.wf(),
        e.menu_source is BuiltIn,
        e.active_index() matches Some(ix) ==> crate::text::blen(e.blocks[ix].text) + 2
            <= usize::MAX,
    ensures
        e.sync_suggestion_menu().menu_fits(),
        e.suggestion is None ==> e.open_suggestion(trigger).menu_fits(),
{
    reveal(EditorView::sync_suggestion_menu);
    if let Some(ix) = e.active_index() {
        crate::view::lemma_find(e.blocks, e.active_id()->0);
        let block = e.blocks[ix];
        crate::view::lemma_find(e.blocks, block.id);
        let caret = block.input.cursor as int;
        let head = e.head(ix);
        crate::text::lemma_split(block.text, caret);
        if let Some(fresh) = fresh_trigger(head) {
            lemma_trigger_back(block.text, caret, fresh);
        }
        if head.len() > 0 && head.last() == trigger.char() {
            lemma_trigger_back(block.text, caret, trigger);
        } else {
            let typed = trigger_text(trigger, head);
            let n = e.type_trigger(ix, trigger);
            crate::text::lemma_splice(block.text, caret, caret, typed);
            let text = n.blocks[ix].text;
            let end = caret + crate::text::blen(typed);
            assert(crate::text::before(text, end) == head + typed);
            lemma_trigger_back(text, end, trigger);
            crate::view::lemma_same_ids(e.blocks, n.blocks);
            crate::text::lemma_split(text, end);
            lemma_typed_len(trigger, head);
            crate::view::lemma_find(n.blocks, block.id);
        }
    }
}

proof fn lemma_typed_len(trigger: Trigger, head: Seq<char>)
    ensures
        1 <= crate::text::blen(trigger_text(trigger, head)) <= 2,
{
    crate::text::lemma_ascii(trigger.char());
    crate::text::lemma_ascii(' ');
    crate::text::lemma_join(seq![' '], seq![trigger.char()]);
    assert(seq![' '] + seq![trigger.char()] =~= seq![' ', trigger.char()]);
}

/// A trigger before an offset takes the byte before it.
proof fn lemma_trigger_back(text: Seq<char>, o: int, trigger: Trigger)
    requires
        crate::text::boundary(text, o),
        crate::text::before(text, o).len() > 0,
        crate::text::before(text, o).last() == trigger.char(),
    ensures
        crate::text::boundary(text, o - 1),
        o >= 1,
{
    crate::text::lemma_split(text, o);
    let head = crate::text::before(text, o);
    let x = head.drop_last();
    let c = seq![trigger.char()];
    let y = crate::text::after(text, o);
    crate::text::lemma_ascii(trigger.char());
    assert(x + c =~= head);
    assert(x + (c + y) =~= text);
    crate::text::lemma_join(x, c);
    crate::text::lemma_join(x, c + y);
    crate::text::lemma_ends(x);
}

} // verus!
