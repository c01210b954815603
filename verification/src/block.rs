//! Blocks: the nodes of a document, and the types they can have.

use vstd::prelude::*;

use crate::mark::{MarkKind, Marks};
use crate::pattern::Captures;
use crate::suggestion::SlashItem;
use crate::text;

verus! {

/// Identity of a block, unique within an editor.
#[derive(Clone, Copy, Debug, PartialEq, Eq, Structural, Hash)]
pub struct BlockId(pub u64);

/// Type name of plain prose.
pub const PARAGRAPH: &'static str = "paragraph";

/// What a block type can do.
#[derive(Clone, Copy, Debug, PartialEq, Eq, Structural)]
pub struct BlockCaps {
    /// The block is text that can hold a caret.
    pub textual: bool,
    /// Its text can carry inline marks.
    pub marks: bool,
    /// It can be nested.
    pub list: bool,
    /// It holds a grid of cells.
    pub grid: bool,
    /// Its text may run over several lines, as code does.
    pub multiline: bool,
    /// Typed shortcuts and menus work in it.
    pub input_rules: bool,
}

/// Attributes of a block, beside its type.
#[derive(Clone, Debug, PartialEq, Eq)]
pub struct BlockAttrs {
    /// Level of a heading.
    pub level: usize,
    /// Number a numbered list starts at.
    pub start: Option<usize>,
    /// Whether a toggle hides what is nested under it.
    pub collapsed: bool,
    /// Language of a code block.
    pub language: Option<String>,
    /// Attributes that a block type brings along, by name.
    pub extra: Vec<(String, String)>,
}

/// A [`BlockAttrs`] as the contracts see it.
pub struct AttrsView {
    pub level: int,
    pub start: Option<int>,
    pub collapsed: bool,
    pub language: Option<Seq<char>>,
    pub extra: Seq<(Seq<char>, Seq<char>)>,
}

/// The views of a list of named attributes.
pub open spec fn extra_views(extra: Seq<(String, String)>) -> Seq<(Seq<char>, Seq<char>)> {
    extra.map_values(|pair: (String, String)| (pair.0@, pair.1@))
}

/// The view of a string that may be absent.
pub open spec fn opt_view(text: Option<String>) -> Option<Seq<char>> {
    match text {
        Some(text) => Some(text@),
        None => None,
    }
}

/// An offset that may be absent.
pub open spec fn opt_int(n: Option<usize>) -> Option<int> {
    match n {
        Some(n) => Some(n as int),
        None => None,
    }
}

impl View for BlockAttrs {
    type V = AttrsView;

    open spec fn view(&self) -> AttrsView {
        AttrsView {
            level: self.level as int,
            start: opt_int(self.start),
            collapsed: self.collapsed,
            language: opt_view(self.language),
            extra: extra_views(self.extra@),
        }
    }
}

/// The attributes of a block that has none.
pub open spec fn default_attrs() -> AttrsView {
    AttrsView { level: 0, start: None, collapsed: false, language: None, extra: Seq::empty() }
}

/// `extra` with `name` set to `value`: in its place where it is there already,
/// else at the end.
pub open spec fn with_extra(
    extra: Seq<(Seq<char>, Seq<char>)>,
    name: Seq<char>,
    value: Seq<char>,
) -> Seq<(Seq<char>, Seq<char>)>
    decreases extra.len(),
{
    if extra.len() == 0 {
        seq![(name, value)]
    } else if extra[0].0 == name {
        extra.update(0, (name, value))
    } else {
        seq![extra[0]] + with_extra(extra.drop_first(), name, value)
    }
}

/// A copy of a string that may be absent.
pub fn copy_opt(text: &Option<String>) -> (copy: Option<String>)
    ensures
        opt_view(copy) == opt_view(*text),
{
    match text {
        Some(text) => Some(text.clone()),
        None => None,
    }
}

fn eq_opt(a: &Option<String>, b: &Option<String>) -> (same: bool)
    ensures
        same == (opt_view(*a) == opt_view(*b)),
{
    match (a, b) {
        (Some(a), Some(b)) => text::text_eq(a, b),
        (None, None) => true,
        _ => false,
    }
}

impl BlockAttrs {
    /// No attributes.
    pub fn new() -> (attrs: BlockAttrs)
        ensures
            attrs@ == default_attrs(),
    {
        let attrs = BlockAttrs {
            level: 0,
            start: None,
            collapsed: false,
            language: None,
            extra: Vec::new(),
        };
        assert(attrs@.extra =~= Seq::empty());
        attrs
    }

    /// The same attributes again.
    pub fn copy(&self) -> (attrs: BlockAttrs)
        ensures
            attrs@ == self@,
    {
        let mut extra: Vec<(String, String)> = Vec::new();
        let mut i: usize = 0;
        while i < self.extra.len()
            invariant
                i <= self.extra@.len(),
                extra_views(extra@) == extra_views(self.extra@).take(i as int),
            decreases self.extra@.len() - i,
        {
            let ghost done = extra@;
            extra.push((self.extra[i].0.clone(), self.extra[i].1.clone()));
            assert(extra_views(extra@) =~= extra_views(self.extra@).take(i + 1)) by {
                assert(extra_views(extra@) =~= extra_views(done).push(
                    extra_views(self.extra@)[i as int],
                ));
            }
            i = i + 1;
        }
        assert(extra_views(self.extra@).take(i as int) =~= extra_views(self.extra@));
        BlockAttrs {
            level: self.level,
            start: self.start,
            collapsed: self.collapsed,
            language: copy_opt(&self.language),
            extra,
        }
    }

    /// Whether two blocks have the same attributes.
    pub fn same(&self, other: &BlockAttrs) -> (same: bool)
        ensures
            same == (self@ == other@),
    {
        if self.level != other.level || self.collapsed != other.collapsed {
            return false;
        }
        let start = match (self.start, other.start) {
            (Some(a), Some(b)) => a == b,
            (None, None) => true,
            _ => false,
        };
        if !start || !eq_opt(&self.language, &other.language) {
            return false;
        }
        if self.extra.len() != other.extra.len() {
            assert(self@.extra.len() != other@.extra.len());
            return false;
        }
        let mut i: usize = 0;
        while i < self.extra.len()
            invariant
                i <= self.extra@.len(),
                self.extra@.len() == other.extra@.len(),
                forall|j: int| 0 <= j < i ==> self@.extra[j] == other@.extra[j],
            decreases self.extra@.len() - i,
        {
            if !text::text_eq(&self.extra[i].0, &other.extra[i].0) || !text::text_eq(
                &self.extra[i].1,
                &other.extra[i].1,
            ) {
                assert(self@.extra[i as int] != other@.extra[i as int]);
                return false;
            }
            i = i + 1;
        }
        assert(self@.extra =~= other@.extra);
        true
    }

    /// Set a named attribute.
    pub fn set_extra(&mut self, name: String, value: String)
        ensures
            final(self)@ == (AttrsView {
                extra: with_extra(old(self)@.extra, name@, value@),
                ..old(self)@
            }),
    {
        let ghost all = self@.extra;
        let mut i: usize = 0;
        assert(all.take(0) + with_extra(all.skip(0), name@, value@) =~= with_extra(
            all,
            name@,
            value@,
        )) by {
            assert(all.skip(0) =~= all);
        }
        while i < self.extra.len()
            invariant
                all == old(self)@.extra,
                self@ == old(self)@,
                i <= self.extra@.len(),
                all.take(i as int) + with_extra(all.skip(i as int), name@, value@) == with_extra(
                    all,
                    name@,
                    value@,
                ),
            decreases self.extra@.len() - i,
        {
            if text::text_eq(&self.extra[i].0, &name) {
                self.extra.set(i, (name, value));
                proof {
                    assert(self@.extra =~= all.take(i as int) + with_extra(
                        all.skip(i as int),
                        name@,
                        value@,
                    ));
                }
                return;
            }
            assert(all.take(i as int) + (seq![all[i as int]] + with_extra(
                all.skip(i + 1),
                name@,
                value@,
            )) =~= all.take(i + 1) + with_extra(all.skip(i + 1), name@, value@));
            assert(all.skip(i as int).drop_first() =~= all.skip(i + 1));
            i = i + 1;
        }
        self.extra.push((name, value));
        proof {
            assert(self@.extra =~= all.take(i as int) + with_extra(
                all.skip(i as int),
                name@,
                value@,
            ));
        }
    }
}

/// What a block is made of, apart from its place in an editor.
#[derive(Clone, Debug, PartialEq, Eq)]
pub struct BlockContent {
    pub ty: String,
    pub attrs: BlockAttrs,
    pub text: String,
    pub marks: Marks,
    pub indent: usize,
}

/// A [`BlockContent`] as the contracts see it.
pub struct ContentView {
    pub ty: Seq<char>,
    pub attrs: AttrsView,
    pub text: Seq<char>,
    pub marks: Seq<crate::mark::MarkView>,
    pub indent: int,
}

impl View for BlockContent {
    type V = ContentView;

    open spec fn view(&self) -> ContentView {
        ContentView {
            ty: self.ty@,
            attrs: self.attrs@,
            text: self.text@,
            marks: self.marks@,
            indent: self.indent as int,
        }
    }
}

/// Unmarked text in a block of type `ty`.
pub open spec fn plain_content(ty: Seq<char>, text: Seq<char>) -> ContentView {
    ContentView { ty, attrs: default_attrs(), text, marks: Seq::empty(), indent: 0 }
}

impl BlockContent {
    /// Unmarked text in a block of type `ty`.
    pub fn new(ty: &str, text: &str) -> (content: BlockContent)
        ensures
            content@ == plain_content(ty@, text@),
    {
        BlockContent {
            ty: ty.to_owned(),
            attrs: BlockAttrs::new(),
            text: text.to_owned(),
            marks: Marks::new(),
            indent: 0,
        }
    }

    /// A paragraph.
    pub fn paragraph(text: &str) -> (content: BlockContent)
        ensures
            content@ == plain_content(PARAGRAPH@, text@),
    {
        BlockContent::new(PARAGRAPH, text)
    }
}

/// Caret and selection of a block's input, in bytes.
#[derive(Clone, Copy, Debug, PartialEq, Eq, Structural)]
pub struct Selection {
    pub cursor: usize,
    pub start: usize,
    pub end: usize,
}

impl Selection {
    /// Whether the caret and the selection fall between characters of `text`.
    pub open spec fn fits(self, text: Seq<char>) -> bool {
        &&& self.start <= self.end
        &&& crate::text::boundary(text, self.cursor as int)
        &&& crate::text::boundary(text, self.start as int)
        &&& crate::text::boundary(text, self.end as int)
    }

    /// A caret at `at` and nothing selected.
    pub open spec fn at(at: int) -> Selection {
        Selection { cursor: at as usize, start: at as usize, end: at as usize }
    }

    /// A caret at `at` and nothing selected.
    pub fn caret(at: usize) -> (selection: Selection)
        ensures
            selection == Selection::at(at as int),
    {
        Selection { cursor: at, start: at, end: at }
    }
}

/// A block of the document.
#[derive(Debug)]
pub struct Block {
    pub id: BlockId,
    pub ty: String,
    pub attrs: BlockAttrs,
    /// The text as last settled with the block's input.
    pub text: String,
    pub marks: Marks,
    /// Marks armed at the caret for what is typed next.
    pub stored_marks: Option<Vec<MarkKind>>,
    pub indent: usize,
    /// Rows the text wraps into.
    pub rows: usize,
    /// Caret and selection of the block's input in `text`.
    pub input: Selection,
    /// Caret and selection as the input last reported them.
    pub seen: Selection,
}

/// A [`Block`] as the contracts see it.
pub struct BlockView {
    pub id: BlockId,
    pub ty: Seq<char>,
    pub attrs: AttrsView,
    pub text: Seq<char>,
    pub marks: Seq<crate::mark::MarkView>,
    pub stored_marks: Option<Seq<crate::mark::KindView>>,
    pub indent: int,
    pub rows: int,
    pub input: Selection,
    pub seen: Selection,
}

impl View for Block {
    type V = BlockView;

    open spec fn view(&self) -> BlockView {
        BlockView {
            id: self.id,
            ty: self.ty@,
            attrs: self.attrs@,
            text: self.text@,
            marks: self.marks@,
            stored_marks: match self.stored_marks {
                Some(kinds) => Some(crate::mark::kind_views(kinds@)),
                None => None,
            },
            indent: self.indent as int,
            rows: self.rows as int,
            input: self.input,
            seen: self.seen,
        }
    }
}

impl BlockView {
    /// Whether the marks cover only the text, and the caret is in it.
    pub open spec fn wf(self) -> bool {
        &&& crate::mark::in_range(self.marks, crate::text::blen(self.text))
        &&& self.input.fits(self.text)
        &&& crate::text::blen(self.text) <= usize::MAX
    }

    /// What the block is made of.
    pub open spec fn content(self) -> ContentView {
        ContentView {
            ty: self.ty,
            attrs: self.attrs,
            text: self.text,
            marks: self.marks,
            indent: self.indent,
        }
    }
}

impl Block {
    /// What the block is made of.
    pub fn content(&self) -> (content: BlockContent)
        ensures
            content@ == self@.content(),
    {
        BlockContent {
            ty: self.ty.clone(),
            attrs: self.attrs.copy(),
            text: self.text.clone(),
            marks: self.marks.copy(),
            indent: self.indent,
        }
    }

    /// Whether the block holds no text.
    pub fn is_empty(&self) -> (empty: bool)
        ensures
            empty == (self@.text.len() == 0),
    {
        self.text.as_str().is_empty()
    }
}

/// A block type, as an application registers it.
///
/// What each method gives depends on the type and its arguments alone. A type
/// whose methods are verified says what they give through the functions named
/// after them; of any other nothing more is known.
pub trait BlockSpec: Sized {
    /// What [`Self::caps`] gives.
    closed spec fn caps_spec(&self) -> BlockCaps {
        arbitrary()
    }

    /// What [`Self::placeholder`] gives.
    closed spec fn placeholder_spec(&self, attrs: AttrsView) -> Seq<char> {
        arbitrary()
    }

    /// What [`Self::placeholder_always`] gives.
    closed spec fn placeholder_always_spec(&self) -> bool {
        arbitrary()
    }

    /// What [`Self::label`] gives.
    closed spec fn label_spec(&self, attrs: AttrsView) -> Seq<char> {
        arbitrary()
    }

    /// What [`Self::strikethrough`] gives.
    closed spec fn strikethrough_spec(&self, attrs: AttrsView) -> bool {
        arbitrary()
    }

    /// What [`Self::collapse_with_siblings`] gives.
    closed spec fn collapse_spec(&self, attrs: AttrsView) -> bool {
        arbitrary()
    }

    /// What [`Self::build`] gives.
    closed spec fn build_spec(&self, rule: int, caps: crate::pattern::CapturesView) -> Option<
        (Seq<char>, AttrsView),
    > {
        arbitrary()
    }

    /// What blocks of this type can do.
    fn caps(&self) -> (caps: BlockCaps)
        ensures
            caps == self.caps_spec(),
    ;

    /// The hint shown in an empty block.
    fn placeholder(&self, attrs: &BlockAttrs) -> (hint: String)
        ensures
            hint@ == self.placeholder_spec(attrs@),
    ;

    /// Whether the hint shows without the caret, as a heading's does.
    fn placeholder_always(&self) -> (always: bool)
        ensures
            always == self.placeholder_always_spec(),
    ;

    /// What the type is called in menus.
    fn label(&self, attrs: &BlockAttrs) -> (label: String)
        ensures
            label@ == self.label_spec(attrs@),
    ;

    /// Whether the whole text is struck through, as that of a done task is.
    fn strikethrough(&self, attrs: &BlockAttrs) -> (struck: bool)
        ensures
            struck == self.strikethrough_spec(attrs@),
    ;

    /// Whether blocks of this type stand close together.
    fn collapse_with_siblings(&self, attrs: &BlockAttrs) -> (close: bool)
        ensures
            close == self.collapse_spec(attrs@),
    ;

    /// Type and attributes that a match of this type's input rule number
    /// `rule` asks for.
    fn build(&self, rule: usize, caps: &Captures) -> (built: Option<(String, BlockAttrs)>)
        requires
            caps@.wf(),
        ensures
            match built {
                Some(built) => self.build_spec(rule as int, caps@) == Some((built.0@, built.1@)),
                None => self.build_spec(rule as int, caps@) is None,
            },
    ;
}

/// A shortcut that turns a block into another type: `pattern` is matched
/// against the text, and rule number `rule` of the type at `entry` says what
/// a match makes of it.
#[derive(Debug)]
pub struct InputRule {
    pub pattern: String,
    pub entry: usize,
    pub rule: usize,
}

/// An [`InputRule`] as the contracts see it.
pub struct RuleView {
    pub pattern: Seq<char>,
    pub build: spec_fn(crate::pattern::CapturesView) -> Option<(Seq<char>, AttrsView)>,
}

/// The block types an editor knows, by name, with the shortcuts and menu
/// entries they bring. A type that was not registered behaves as `fallback`.
pub struct BlockRegistry<S: BlockSpec> {
    pub fallback: S,
    pub entries: Vec<(String, S)>,
    pub rules: Vec<InputRule>,
    pub slash: Vec<SlashItem>,
}

/// A [`BlockRegistry`] as the contracts see it: what each type name stands
/// for.
pub struct RegistryView {
    pub caps: spec_fn(Seq<char>) -> BlockCaps,
    pub placeholder: spec_fn(Seq<char>, AttrsView) -> Seq<char>,
    pub placeholder_always: spec_fn(Seq<char>) -> bool,
    pub label: spec_fn(Seq<char>, AttrsView) -> Seq<char>,
    pub strikethrough: spec_fn(Seq<char>, AttrsView) -> bool,
    pub collapse: spec_fn(Seq<char>, AttrsView) -> bool,
    pub rules: Seq<RuleView>,
    pub slash: Seq<crate::suggestion::SlashView>,
}

impl<S: BlockSpec> View for BlockRegistry<S> {
    type V = RegistryView;

    open spec fn view(&self) -> RegistryView {
        RegistryView {
            caps: |ty: Seq<char>| self.spec_for(ty).caps_spec(),
            placeholder: |ty: Seq<char>, attrs: AttrsView|
                self.spec_for(ty).placeholder_spec(attrs),
            placeholder_always: |ty: Seq<char>| self.spec_for(ty).placeholder_always_spec(),
            label: |ty: Seq<char>, attrs: AttrsView| self.spec_for(ty).label_spec(attrs),
            strikethrough: |ty: Seq<char>, attrs: AttrsView|
                self.spec_for(ty).strikethrough_spec(attrs),
            collapse: |ty: Seq<char>, attrs: AttrsView| self.spec_for(ty).collapse_spec(attrs),
            rules: Seq::new(self.rules@.len(), |i: int| self.rule_view(i)),
            slash: crate::suggestion::slash_views(self.slash@),
        }
    }
}

impl<S: BlockSpec> BlockRegistry<S> {
    /// Whether entry `i` is the first one registered under `ty`.
    pub open spec fn is_entry(&self, ty: Seq<char>, i: int) -> bool {
        &&& 0 <= i < self.entries@.len()
        &&& self.entries@[i].0@ == ty
        &&& forall|j: int| 0 <= j < i ==> (#[trigger] self.entries@[j]).0@ != ty
    }

    /// The type registered under `ty`.
    pub open spec fn spec_for(&self, ty: Seq<char>) -> S {
        if exists|i: int| self.is_entry(ty, i) {
            self.entries@[choose|i: int| self.is_entry(ty, i)].1
        } else {
            self.fallback
        }
    }

    /// Rule `i`.
    pub open spec fn rule_view(&self, i: int) -> RuleView {
        RuleView {
            pattern: self.rules@[i].pattern@,
            build: |caps: crate::pattern::CapturesView|
                self.entries@[self.rules@[i].entry as int].1.build_spec(
                    self.rules@[i].rule as int,
                    caps,
                ),
        }
    }

    /// Whether every rule belongs to a registered type.
    pub open spec fn wf(&self) -> bool {
        forall|i: int|
            0 <= i < self.rules@.len() ==> (#[trigger] self.rules@[i]).entry < self.entries@.len()
    }

    /// A registry that knows only what types behave as that were not
    /// registered.
    pub fn new(fallback: S) -> (registry: BlockRegistry<S>)
        ensures
            registry.wf(),
            registry.fallback == fallback,
            registry.entries@.len() == 0,
            registry.rules@.len() == 0,
            registry.slash@.len() == 0,
    {
        BlockRegistry {
            fallback,
            entries: Vec::new(),
            rules: Vec::new(),
            slash: Vec::new(),
        }
    }

    /// Whether every rule belongs to a registered type.
    pub fn is_valid(&self) -> (valid: bool)
        ensures
            valid == self.wf(),
    {
        let mut i: usize = 0;
        while i < self.rules.len()
            invariant
                i <= self.rules@.len(),
                forall|j: int|
                    0 <= j < i ==> (#[trigger] self.rules@[j]).entry < self.entries@.len(),
            decreases self.rules@.len() - i,
        {
            if self.rules[i].entry >= self.entries.len() {
                return false;
            }
            i = i + 1;
        }
        true
    }

    /// Register a type under `ty`, with the pattern of each of its input rules.
    /// Rule number `i` of the type is the one of pattern `i`.
    pub fn register(&mut self, ty: String, spec: S, patterns: Vec<String>)
        requires
            old(self).wf(),
        ensures
            final(self).wf(),
            final(self).fallback == old(self).fallback,
            final(self).slash == old(self).slash,
            final(self).entries@ == old(self).entries@.push((ty, spec)),
            final(self).rules@.len() == old(self).rules@.len() + patterns@.len(),
            forall|i: int|
                0 <= i < old(self).rules@.len() ==> final(self).rules@[i] == old(self).rules@[i],
            forall|i: int|
                0 <= i < patterns@.len() ==> (#[trigger] final(self).rules@[old(self).rules@.len()
                    + i]) == (InputRule {
                    pattern: patterns@[i],
                    entry: old(self).entries@.len() as usize,
                    rule: i as usize,
                }),
    {
        let entry: usize = self.entries.len();
        self.entries.push((ty, spec));
        let ghost all = patterns@;
        assert(patterns.len() == all.len());
        let mut rule: usize = 0;
        for pattern in it: patterns
            invariant
                it.seq() == all,
                all.len() <= usize::MAX,
                rule == it.index(),
                self.fallback == old(self).fallback,
                self.slash == old(self).slash,
                self.entries@ == old(self).entries@.push((ty, spec)),
                entry == old(self).entries@.len(),
                self.wf(),
                self.rules@.len() == old(self).rules@.len() + rule,
                forall|i: int|
                    0 <= i < old(self).rules@.len() ==> self.rules@[i] == old(self).rules@[i],
                forall|i: int|
                    0 <= i < rule ==> (#[trigger] self.rules@[old(self).rules@.len() + i])
                        == (InputRule { pattern: all[i], entry, rule: i as usize }),
        {
            self.rules.push(InputRule { pattern, entry, rule });
            rule = rule + 1;
        }
    }

    /// The type registered under `ty`.
    pub fn get(&self, ty: &str) -> (spec: &S)
        ensures
            *spec == self.spec_for(ty@),
    {
        let mut i: usize = 0;
        while i < self.entries.len()
            invariant
                i <= self.entries@.len(),
                forall|j: int| 0 <= j < i ==> (#[trigger] self.entries@[j]).0@ != ty@,
            decreases self.entries@.len() - i,
        {
            if text::text_eq(&self.entries[i].0, ty) {
                proof {
                    assert(self.is_entry(ty@, i as int));
                    let k = choose|k: int| self.is_entry(ty@, k);
                    assert(k == i);
                }
                return &self.entries[i].1;
            }
            i = i + 1;
        }
        &self.fallback
    }

    /// What blocks of type `ty` can do.
    pub fn caps(&self, ty: &str) -> (caps: BlockCaps)
        ensures
            caps == (self@.caps)(ty@),
    {
        self.get(ty).caps()
    }

    /// Type and attributes that a match of rule `i` asks for.
    pub fn build(&self, i: usize, caps: &Captures) -> (built: Option<(String, BlockAttrs)>)
        requires
            self.wf(),
            i < self.rules@.len(),
            caps@.wf(),
        ensures
            match built {
                Some(built) => (self@.rules[i as int].build)(caps@) == Some((built.0@, built.1@)),
                None => (self@.rules[i as int].build)(caps@) is None,
            },
    {
        let entry: usize = self.rules[i].entry;
        let rule: usize = self.rules[i].rule;
        assert(self@.rules[i as int] == self.rule_view(i as int));
        self.entries[entry].1.build(rule, caps)
    }
}

} // verus!
