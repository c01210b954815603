//! What the suggestion menus offer: menu entries, emoji and people.

use vstd::prelude::*;

use crate::mark::MarkKind;
use crate::text;

verus! {

/// The character that opens a menu.
#[derive(Clone, Copy, Debug, PartialEq, Eq, Structural)]
pub enum Trigger {
    /// `/`, for blocks.
    Slash,
    /// `:`, for emoji.
    Emoji,
    /// `@`, for people.
    Mention,
}

impl Trigger {
    /// The character that opens the menu.
    pub open spec fn char(self) -> char {
        match self {
            Trigger::Slash => '/',
            Trigger::Emoji => ':',
            Trigger::Mention => '@',
        }
    }

    /// The character that opens the menu.
    pub fn character(&self) -> (c: char)
        ensures
            c == self.char(),
    {
        match self {
            Trigger::Slash => '/',
            Trigger::Emoji => ':',
            Trigger::Mention => '@',
        }
    }

    /// The menu that `c` opens, as the contracts see it.
    pub open spec fn of_char(c: char) -> Option<Trigger> {
        if c == '/' {
            Some(Trigger::Slash)
        } else if c == ':' {
            Some(Trigger::Emoji)
        } else if c == '@' {
            Some(Trigger::Mention)
        } else {
            None
        }
    }

    /// The menu that `c` opens, if any.
    pub fn from_character(c: char) -> (trigger: Option<Trigger>)
        ensures
            trigger == Trigger::of_char(c),
    {
        if c == '/' {
            Some(Trigger::Slash)
        } else if c == ':' {
            Some(Trigger::Emoji)
        } else if c == '@' {
            Some(Trigger::Mention)
        } else {
            None
        }
    }
}

/// What choosing a menu entry does.
#[derive(Clone, Copy, Debug, PartialEq, Eq, Structural)]
pub enum SlashRun {
    /// Runs the command that the application registered under this number.
    Command(usize),
    /// Opens another menu.
    Open(Trigger),
}

/// An entry of the `/` menu.
#[derive(Debug)]
pub struct SlashItem {
    pub title: &'static str,
    pub subtext: &'static str,
    pub keywords: Vec<&'static str>,
    pub group: &'static str,
    pub icon: &'static str,
    pub run: SlashRun,
}

/// A [`SlashItem`] as the contracts see it.
pub struct SlashView {
    pub title: Seq<char>,
    pub subtext: Seq<char>,
    pub keywords: Seq<Seq<char>>,
    pub group: Seq<char>,
    pub icon: Seq<char>,
    pub run: SlashRun,
}

/// The views of a list of words.
pub open spec fn word_views(words: Seq<&'static str>) -> Seq<Seq<char>> {
    words.map_values(|word: &'static str| word@)
}

impl View for SlashItem {
    type V = SlashView;

    open spec fn view(&self) -> SlashView {
        SlashView {
            title: self.title@,
            subtext: self.subtext@,
            keywords: word_views(self.keywords@),
            group: self.group@,
            icon: self.icon@,
            run: self.run,
        }
    }
}

/// The views of a list of menu entries.
pub open spec fn slash_views(items: Seq<SlashItem>) -> Seq<SlashView> {
    items.map_values(|item: SlashItem| item@)
}

/// An emoji, by its shortcode.
#[derive(Debug)]
pub struct Emoji {
    pub character: &'static str,
    pub name: &'static str,
    pub keywords: Vec<&'static str>,
}

/// An [`Emoji`] as the contracts see it.
pub struct EmojiView {
    pub character: Seq<char>,
    pub name: Seq<char>,
    pub keywords: Seq<Seq<char>>,
}

impl View for Emoji {
    type V = EmojiView;

    open spec fn view(&self) -> EmojiView {
        EmojiView {
            character: self.character@,
            name: self.name@,
            keywords: word_views(self.keywords@),
        }
    }
}

/// The views of a list of emoji.
pub open spec fn emoji_views(items: Seq<Emoji>) -> Seq<EmojiView> {
    items.map_values(|item: Emoji| item@)
}

/// A person that can be mentioned.
#[derive(Debug)]
pub struct Mention {
    pub id: String,
    pub name: String,
}

/// A [`Mention`] as the contracts see it.
pub struct MentionView {
    pub id: Seq<char>,
    pub name: Seq<char>,
}

impl View for Mention {
    type V = MentionView;

    open spec fn view(&self) -> MentionView {
        MentionView { id: self.id@, name: self.name@ }
    }
}

/// The views of a list of people.
pub open spec fn mention_views(items: Seq<Mention>) -> Seq<MentionView> {
    items.map_values(|item: Mention| item@)
}

impl Mention {
    /// The same person again.
    pub fn copy(&self) -> (mention: Mention)
        ensures
            mention@ == self@,
    {
        Mention { id: self.id.clone(), name: self.name.clone() }
    }

    /// The mark a mention carries.
    pub fn mark(&self) -> (kind: MarkKind)
        ensures
            kind@ == crate::mark::KindView::Mention(self@.id),
    {
        MarkKind::Mention(self.id.clone())
    }
}

/// Whether one of `words` contains `query`, the case of ASCII letters aside.
pub open spec fn any_matches(query: Seq<char>, words: Seq<Seq<char>>) -> bool {
    exists|i: int|
        0 <= i < words.len() && crate::text::contains(
            crate::text::lowered(#[trigger] words[i]),
            crate::text::lowered(query),
        )
}

/// Whether a title or one of its keywords contains `query`, the case of ASCII letters aside.
pub open spec fn query_matches(query: Seq<char>, title: Seq<char>, keywords: Seq<Seq<char>>) -> bool {
    crate::text::contains(crate::text::lowered(title), crate::text::lowered(query)) || any_matches(
        query,
        keywords,
    )
}

/// Whether a title or one of its keywords contains `query`, the case of ASCII letters aside.
/// The empty query matches everything.
pub fn matches(query: &str, title: &str, keywords: &Vec<&'static str>) -> (found: bool)
    ensures
        found == query_matches(query@, title@, word_views(keywords@)),
{
    if text::text_contains_ignoring_case(title, query) {
        return true;
    }
    let mut i: usize = 0;
    while i < keywords.len()
        invariant
            i <= keywords@.len(),
            forall|j: int|
                0 <= j < i ==> !crate::text::contains(
                    crate::text::lowered(#[trigger] word_views(keywords@)[j]),
                    crate::text::lowered(query@),
                ),
        decreases keywords@.len() - i,
    {
        assert(word_views(keywords@)[i as int] == keywords@[i as int]@);
        if text::text_contains_ignoring_case(keywords[i], query) {
            return true;
        }
        i = i + 1;
    }
    false
}

/// The people offered until an application sets its own list.
pub open spec fn default_mention_views() -> Seq<MentionView> {
    seq![MentionView { id: "ada"@, name: "Ada Lovelace"@ }]
}

/// The people offered until an application sets its own list.
pub fn default_mentions() -> (people: Vec<Mention>)
    ensures
        mention_views(people@) == default_mention_views(),
{
    let mut people: Vec<Mention> = Vec::new();
    people.push(Mention { id: "ada".to_owned(), name: "Ada Lovelace".to_owned() });
    assert(mention_views(people@) =~= default_mention_views());
    people
}

/// The emoji offered until an application sets its own list.
pub open spec fn default_emoji_views() -> Seq<EmojiView> {
    seq![EmojiView { character: "🚀"@, name: "rocket"@, keywords: Seq::empty() }]
}

/// The emoji offered until an application sets its own list.
pub fn default_emoji() -> (emoji: Vec<Emoji>)
    ensures
        emoji_views(emoji@) == default_emoji_views(),
{
    let mut emoji: Vec<Emoji> = Vec::new();
    let keywords: Vec<&'static str> = Vec::new();
    emoji.push(Emoji { character: "🚀", name: "rocket", keywords });
    assert(word_views(keywords@) =~= Seq::empty());
    assert(emoji_views(emoji@) =~= default_emoji_views());
    emoji
}

} // verus!
