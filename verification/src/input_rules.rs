//! Markdown input rules — the shortcuts that turn typed text into nodes and
//! marks.
//!
//! Node rules come from the registered block types, so a new type brings its
//! own rule with it. Mark rules are listed here.

use vstd::prelude::*;

use crate::block::{BlockAttrs, BlockId, BlockSpec};
use crate::mark::MarkKind;
use crate::pattern::{captures, Captures};
use crate::text;
use crate::view::{Caret, EditorView, NotionEditor};

verus! {

/// Chooses who interprets source text typed into the editor.
#[derive(Clone, Copy, Debug, PartialEq, Eq, Structural)]
pub enum InputRuleMode {
    BuiltIn,
    Application,
}

impl Default for InputRuleMode {
    /// The editor's own rules.
    fn default() -> (mode: InputRuleMode)
        ensures
            mode == InputRuleMode::BuiltIn,
    {
        InputRuleMode::BuiltIn
    }
}

/// How many inline rules there are.
pub const INLINE_RULES: usize = 7;

/// Inline rule `i`: what it matches before the caret, and the mark it makes of
/// the group called `body`. The first group is what gives way to the body.
pub open spec fn inline_rule(i: int) -> (Seq<char>, crate::mark::KindView) {
    if i == 0 {
        (r"(?:^|\s)(\*\*(?P<body>[^*]+)\*\*)$"@, crate::mark::KindView::Bold)
    } else if i == 1 {
        (r"(?:^|\s)(__(?P<body>[^_]+)__)$"@, crate::mark::KindView::Bold)
    } else if i == 2 {
        (r"(?:^|\s)(~~(?P<body>[^~]+)~~)$"@, crate::mark::KindView::Strike)
    } else if i == 3 {
        (r"(?:^|\s)(==(?P<body>[^=]+)==)$"@, crate::mark::KindView::Highlight(None))
    } else if i == 4 {
        (r"(?:^|\s)(\*(?P<body>[^*\s][^*]*)\*)$"@, crate::mark::KindView::Italic)
    } else if i == 5 {
        (r"(?:^|\s)(_(?P<body>[^_\s][^_]*)_)$"@, crate::mark::KindView::Italic)
    } else {
        (r"(?:^|\s)(`(?P<body>[^`]+)`)$"@, crate::mark::KindView::Code)
    }
}

pub(crate) fn inline_rule_at(i: usize) -> (rule: (&'static str, MarkKind))
    requires
        i < INLINE_RULES,
    ensures
        (rule.0@, rule.1@) == inline_rule(i as int),
{
    match i {
        0 => (r"(?:^|\s)(\*\*(?P<body>[^*]+)\*\*)$", MarkKind::Bold),
        1 => (r"(?:^|\s)(__(?P<body>[^_]+)__)$", MarkKind::Bold),
        2 => (r"(?:^|\s)(~~(?P<body>[^~]+)~~)$", MarkKind::Strike),
        3 => (r"(?:^|\s)(==(?P<body>[^=]+)==)$", MarkKind::Highlight(None)),
        4 => (r"(?:^|\s)(\*(?P<body>[^*\s][^*]*)\*)$", MarkKind::Italic),
        5 => (r"(?:^|\s)(_(?P<body>[^_\s][^_]*)_)$", MarkKind::Italic),
        _ => (r"(?:^|\s)(`(?P<body>[^`]+)`)$", MarkKind::Code),
    }
}

/// How many typography rules there are.
pub const TYPOGRAPHY_RULES: usize = 16;

/// Typography rule `i`: what was typed, and what it gives way to. A longer rule
/// comes before a shorter one that it ends with, so that `-->` becomes an arrow,
/// also where its dashes have given way already.
pub open spec fn typography_rule(i: int) -> (Seq<char>, Seq<char>) {
    if i == 0 {
        ("(c)"@, "©"@)
    } else if i == 1 {
        ("(C)"@, "©"@)
    } else if i == 2 {
        ("(r)"@, "®"@)
    } else if i == 3 {
        ("(R)"@, "®"@)
    } else if i == 4 {
        ("(tm)"@, "™"@)
    } else if i == 5 {
        ("(TM)"@, "™"@)
    } else if i == 6 {
        ("..."@, "…"@)
    } else if i == 7 {
        ("<-"@, "←"@)
    } else if i == 8 {
        ("-->"@, "→"@)
    } else if i == 9 {
        ("–>"@, "→"@)
    } else if i == 10 {
        ("->"@, "→"@)
    } else if i == 11 {
        ("--"@, "–"@)
    } else if i == 12 {
        ("!="@, "≠"@)
    } else if i == 13 {
        ("<="@, "≤"@)
    } else if i == 14 {
        (">="@, "≥"@)
    } else {
        ("+/-"@, "±"@)
    }
}

fn typography_rule_at(i: usize) -> (rule: (&'static str, &'static str))
    requires
        i < TYPOGRAPHY_RULES,
    ensures
        (rule.0@, rule.1@) == typography_rule(i as int),
{
    match i {
        0 => ("(c)", "©"),
        1 => ("(C)", "©"),
        2 => ("(r)", "®"),
        3 => ("(R)", "®"),
        4 => ("(tm)", "™"),
        5 => ("(TM)", "™"),
        6 => ("...", "…"),
        7 => ("<-", "←"),
        8 => ("-->", "→"),
        9 => ("–>", "→"),
        10 => ("->", "→"),
        11 => ("--", "–"),
        12 => ("!=", "≠"),
        13 => ("<=", "≤"),
        14 => (">=", "≥"),
        _ => ("+/-", "±"),
    }
}

/// `pattern` without the `$` at its end.
pub open spec fn open_ended(pattern: Seq<char>) -> Seq<char>
    decreases pattern.len(),
{
    if pattern.len() > 0 && pattern.last() == '$' {
        open_ended(pattern.drop_last())
    } else {
        pattern
    }
}

/// `pattern` without the `$` at its end.
pub(crate) fn open_end(pattern: &str) -> (opened: String)
    ensures
        opened@ == open_ended(pattern@),
{
    let chars = text::to_chars(pattern);
    let mut n: usize = chars.len();
    assert(pattern@.take(n as int) =~= pattern@);
    while n > 0 && chars[n - 1] == '$'
        invariant
            n <= chars@.len(),
            chars@ == pattern@,
            open_ended(pattern@.take(n as int)) == open_ended(pattern@),
        decreases n,
    {
        assert(pattern@.take(n as int).drop_last() =~= pattern@.take(n - 1));
        n = n - 1;
    }
    pattern.substring_char(0, n).to_owned()
}

/// A match that may be absent, as the contracts see it.
pub open spec fn opt_match(found: Option<Captures>) -> Option<crate::pattern::CapturesView> {
    match found {
        Some(found) => Some(found@),
        None => None,
    }
}

/// What a rule's match makes of a block of type `ty`: nothing where it asks for
/// what the block is already, so that typing `- ` inside a bullet item leaves
/// the dashes alone.
pub open spec fn target_of(
    rule: crate::block::RuleView,
    ty: Seq<char>,
    attrs: crate::block::AttrsView,
    caps: crate::pattern::CapturesView,
) -> Option<(Seq<char>, crate::block::AttrsView)> {
    match (rule.build)(caps) {
        Some(built) if built.0 != ty || built.1 != attrs => Some(built),
        _ => None,
    }
}

impl EditorView {
    /// The text of block `ix` before its caret.
    pub open spec fn head(self, ix: int) -> Seq<char> {
        crate::text::before(self.blocks[ix].text, self.blocks[ix].input.cursor as int)
    }

    /// What a rule's match makes of block `ix`.
    pub open spec fn rule_target(
        self,
        ix: int,
        rule: crate::block::RuleView,
        caps: crate::pattern::CapturesView,
    ) -> Option<(Seq<char>, crate::block::AttrsView)> {
        target_of(rule, self.blocks[ix].ty, self.blocks[ix].attrs, caps)
    }

    /// The editor once a match of a node rule in the text before the caret of
    /// block `ix` has been applied, if it is one that applies: it has to
    /// consume everything typed so far.
    pub open spec fn node_match(
        self,
        ix: int,
        rule: crate::block::RuleView,
        found: Option<crate::pattern::CapturesView>,
    ) -> Option<EditorView> {
        let caret = self.blocks[ix].input.cursor as int;
        match found {
            Some(caps) if caps.whole() == (0int, caret) => match self.rule_target(ix, rule, caps) {
                Some(target) => {
                    let id = self.blocks[ix].id;
                    let turned = self.edit_block_text(ix, 0, caret, ""@).set_block_type(
                        id,
                        target.0,
                        target.1,
                    );
                    Some(
                        if (self.reg.caps)(target.0).textual {
                            turned.focus_block(id, Caret::Start)
                        } else {
                            turned.ensure_paragraph_after(ix).focus_block(
                                turned.paragraph_after(ix),
                                Caret::Start,
                            )
                        },
                    )
                },
                None => None,
            },
            _ => None,
        }
    }

    /// The editor once the first node rule that applies to block `ix` has been
    /// applied, from rule `i` on.
    pub open spec fn node_rules(self, ix: int, i: int) -> Option<EditorView>
        decreases self.reg.rules.len() - i,
    {
        if i < 0 || i >= self.reg.rules.len() {
            None
        } else {
            let rule = self.reg.rules[i];
            let found = crate::pattern::match_of(rule.pattern, self.head(ix));
            match self.node_match(ix, rule, found) {
                Some(next) => Some(next),
                None => self.node_rules(ix, i + 1),
            }
        }
    }

    /// The editor once a match of an inline rule in the text before the caret
    /// of block `ix` has been applied, if it is one that applies: its body has
    /// to hold more than white space.
    pub open spec fn inline_match(
        self,
        ix: int,
        kind: crate::mark::KindView,
        found: Option<crate::pattern::CapturesView>,
    ) -> Option<EditorView> {
        match found {
            Some(caps) => match (caps.group(1), caps.named("body"@)) {
                (Some(whole), Some(span)) => {
                    let body = crate::text::slice(caps.text, span.0, span.1);
                    let end = whole.0 + crate::text::blen(body);
                    if crate::text::blank(body) {
                        None
                    } else {
                        Some(
                            self.edit_block_text(ix, whole.0, whole.1, body).mark_typed(
                                ix,
                                kind,
                                whole.0,
                                end,
                            ),
                        )
                    }
                },
                _ => None,
            },
            None => None,
        }
    }

    /// The editor once the first inline rule that applies to block `ix` has
    /// been applied, from rule `i` on.
    pub open spec fn inline_rules(self, ix: int, i: int) -> Option<EditorView>
        decreases INLINE_RULES - i,
    {
        if i < 0 || i >= INLINE_RULES {
            None
        } else {
            let rule = inline_rule(i);
            let found = crate::pattern::match_of(rule.0, self.head(ix));
            match self.inline_match(ix, rule.1, found) {
                Some(next) => Some(next),
                None => self.inline_rules(ix, i + 1),
            }
        }
    }

    /// The editor once the first typography rule that applies to block `ix`
    /// has been applied, from rule `i` on.
    pub open spec fn typography_rules(self, ix: int, i: int) -> Option<EditorView>
        decreases TYPOGRAPHY_RULES - i,
    {
        if i < 0 || i >= TYPOGRAPHY_RULES {
            None
        } else {
            let rule = typography_rule(i);
            if crate::text::ends_with(self.head(ix), rule.0) {
                let caret = self.blocks[ix].input.cursor as int;
                Some(
                    self.edit_block_text(ix, caret - crate::text::blen(rule.0), caret, rule.1),
                )
            } else {
                self.typography_rules(ix, i + 1)
            }
        }
    }

    /// Whether the editor's own rules apply to block `ix`.
    pub open spec fn rules_apply(self, ix: int) -> bool {
        self.reads(self.blocks[ix].ty)
    }

    /// The editor once the rules have run on block `id`, if one fired: a node
    /// rule, else an inline rule, else typography.
    pub open spec fn input_rules(self, id: BlockId) -> Option<EditorView> {
        match crate::view::find(self.blocks, id) {
            Some(ix) if self.rules_apply(ix) => match self.node_rules(ix, 0) {
                Some(next) => Some(next),
                None => match self.inline_rules(ix, 0) {
                    Some(next) => Some(next),
                    None => self.typography_rules(ix, 0),
                },
            },
            _ => None,
        }
    }

    /// The editor once a match of a node rule at the start of block `ix` has
    /// been applied, if it is one that applies: it has to be a prefix of the
    /// line, and not empty.
    pub open spec fn prefix_match(
        self,
        ix: int,
        rule: crate::block::RuleView,
        found: Option<crate::pattern::CapturesView>,
    ) -> Option<EditorView> {
        match found {
            Some(caps) if caps.whole().0 == 0 && caps.whole().1 != 0 => match self.rule_target(
                ix,
                rule,
                caps,
            ) {
                Some(target) => Some(
                    self.edit_block_text(ix, 0, caps.whole().1, ""@).set_block_type(
                        self.blocks[ix].id,
                        target.0,
                        target.1,
                    ),
                ),
                None => None,
            },
            _ => None,
        }
    }

    /// The editor once the first node rule that applies to the line of block
    /// `ix` has been applied, from rule `i` on.
    pub open spec fn prefix_rules(self, ix: int, i: int) -> Option<EditorView>
        decreases self.reg.rules.len() - i,
    {
        if i < 0 || i >= self.reg.rules.len() {
            None
        } else {
            let rule = self.reg.rules[i];
            let found = crate::pattern::match_of(
                open_ended(rule.pattern),
                self.blocks[ix].text,
            );
            match self.prefix_match(ix, rule, found) {
                Some(next) => Some(next),
                None => self.prefix_rules(ix, i + 1),
            }
        }
    }

    /// The editor once the line of block `id` has been read as markdown, if a
    /// rule fired.
    pub open spec fn markdown_prefix(self, id: BlockId) -> Option<EditorView> {
        match crate::view::find(self.blocks, id) {
            Some(ix) if self.rules_apply(ix) => self.prefix_rules(ix, 0),
            _ => None,
        }
    }
}

impl<S: BlockSpec> NotionEditor<S> {
    /// Choose who interprets source text.
    pub fn set_input_rule_mode(&mut self, mode: InputRuleMode)
        ensures
            final(self)@ == (EditorView { input_rule_mode: mode, ..old(self)@ }),
            final(self).types() == old(self).types(),
    {
        self.input_rule_mode = mode;
    }

    /// Type and attributes that a rule's match asks for, unless a block of type
    /// `ty` has them already.
    pub(crate) fn target_of(
        &self,
        rule: usize,
        ty: &str,
        attrs: &BlockAttrs,
        caps: &Captures,
    ) -> (target: Option<(String, BlockAttrs)>)
        requires
            self.types().wf(),
            rule < self@.reg.rules.len(),
            caps@.wf(),
        ensures
            match target {
                Some(target) => target_of(self@.reg.rules[rule as int], ty@, attrs@, caps@)
                    == Some((target.0@, target.1@)),
                None => target_of(self@.reg.rules[rule as int], ty@, attrs@, caps@) is None,
            },
    {
        match self.registry.build(rule, caps) {
            Some(built) => {
                if text::text_eq(ty, &built.0) && attrs.same(&built.1) {
                    None
                } else {
                    Some(built)
                }
            },
            None => None,
        }
    }

    /// Apply a match of node rule `rule` in the text before the caret of block
    /// `ix`, and answer whether it was one that applies.
    ///
    /// A rule at the start of a block turns it into another type. It must
    /// consume everything typed so far in the block.
    pub fn apply_node_match(&mut self, ix: usize, rule: usize, found: &Option<Captures>) -> (fired:
        bool)
        requires
            old(self)@.wf(),
            old(self).types().wf(),
            old(self)@.next_id < u64::MAX,
            ix < old(self)@.blocks.len(),
            rule < old(self)@.reg.rules.len(),
            found matches Some(caps) ==> caps@.wf() && caps@.text == old(self)@.head(ix as int),
        ensures
            ({
                let next = old(self)@.node_match(
                    ix as int,
                    old(self)@.reg.rules[rule as int],
                    opt_match(*found),
                );
                &&& fired == (next is Some)
                &&& final(self)@ == (match next {
                    Some(next) => next,
                    None => old(self)@,
                })
            }),
            final(self).types() == old(self).types(),
            final(self)@.wf(),
    {
        let caps = match found {
            Some(caps) => caps,
            None => {
                return false;
            },
        };
        assert(self@.blocks[ix as int] == self.blocks@[ix as int]@);
        let caret: usize = self.blocks[ix].input.cursor;
        match caps.get(0) {
            Some(whole) => {
                if whole.0 != 0 || whole.1 != caret {
                    return false;
                }
            },
            None => {
                return false;
            },
        }
        let (ty, attrs) = match self.target_of(
            rule,
            &self.blocks[ix].ty,
            &self.blocks[ix].attrs,
            caps,
        ) {
            Some(target) => target,
            None => {
                return false;
            },
        };
        let id = self.blocks[ix].id;
        let textual = self.registry.caps(&ty).textual;
        proof {
            reveal_strlit("");
            let block = self@.blocks[ix as int];
            crate::text::lemma_ends(block.text);
            crate::text::lemma_splice(block.text, 0, caret as int, ""@);
        }
        let _ = self.edit_block_text(ix, 0, caret, "");
        self.set_block_type(id, ty, attrs);
        if textual {
            self.focus_block(id, Caret::Start);
        } else {
            let next = self.ensure_paragraph_after(ix);
            self.focus_block(next, Caret::Start);
        }
        true
    }

    /// Apply the first node rule that matches what was typed into block `ix`.
    fn apply_node_rule(&mut self, ix: usize) -> (fired: bool)
        requires
            old(self)@.wf(),
            old(self).types().wf(),
            crate::ready::node_ready(
                old(self)@.reg,
                old(self)@.blocks[ix as int].ty,
                old(self)@.blocks[ix as int].attrs,
                old(self)@.head(ix as int),
                0,
            ),
            old(self)@.next_id < u64::MAX,
            ix < old(self)@.blocks.len(),
        ensures
            ({
                let next = old(self)@.node_rules(ix as int, 0);
                &&& fired == (next is Some)
                &&& final(self)@ == (match next {
                    Some(next) => next,
                    None => old(self)@,
                })
            }),
            final(self).types() == old(self).types(),
            final(self)@.wf(),
    {
        let ghost start = self@;
        assert(start.blocks[ix as int] == self.blocks@[ix as int]@);
        let caret: usize = self.blocks[ix].input.cursor;
        let (head, _rest) = text::cut(&self.blocks[ix].text, caret);
        let head = head.to_owned();
        proof {
            crate::text::lemma_split(start.blocks[ix as int].text, caret as int);
        }
        let mut i: usize = 0;
        while i < self.registry.rules.len()
            invariant
                start == old(self)@,
                self@ == start,
                self.registry == old(self).registry,
                self.registry.wf(),
                start.wf(),
                start.next_id < u64::MAX,
                ix < start.blocks.len(),
                head@ == start.head(ix as int),
                crate::text::blen(head@) == start.blocks[ix as int].input.cursor,
                crate::ready::node_ready(
                    start.reg,
                    start.blocks[ix as int].ty,
                    start.blocks[ix as int].attrs,
                    head@,
                    i as int,
                ),
                i <= self.registry.rules@.len(),
                start.node_rules(ix as int, i as int) == start.node_rules(ix as int, 0),
            decreases self.registry.rules@.len() - i,
        {
            let ghost rule = start.reg.rules[i as int];
            assert(rule == self.registry.rule_view(i as int));
            let found = captures(&self.registry.rules[i].pattern, &head);
            if self.apply_node_match(ix, i, &found) {
                return true;
            }
            i = i + 1;
        }
        false
    }

    /// Apply a match of an inline rule in the text before the caret of block
    /// `ix`, making a mark of `kind`, and answer whether it was one that
    /// applies.
    pub fn apply_inline_match(&mut self, ix: usize, kind: MarkKind, found: &Option<Captures>) -> (fired:
        bool)
        requires
            old(self)@.wf(),
            ix < old(self)@.blocks.len(),
            found matches Some(caps) ==> caps@.wf() && caps@.text == old(self)@.head(ix as int),
        ensures
            ({
                let next = old(self)@.inline_match(ix as int, kind@, opt_match(*found));
                &&& fired == (next is Some)
                &&& final(self)@ == (match next {
                    Some(next) => next,
                    None => old(self)@,
                })
            }),
            final(self).types() == old(self).types(),
            final(self)@.wf(),
    {
        let caps = match found {
            Some(caps) => caps,
            None => {
                return false;
            },
        };
        let (whole, span) = match (caps.get(1), caps.name("body")) {
            (Some(whole), Some(span)) => (whole, span),
            _ => {
                return false;
            },
        };
        let ghost block = self@.blocks[ix as int];
        proof {
            crate::pattern::lemma_named_span(caps@, "body"@);
            assert(caps@.groups[1].1 matches Some(found) ==> crate::pattern::span_in(
                caps@.text,
                found,
            ));
        }
        let body = caps.text_of(span);
        proof {
            crate::text::lemma_blank_trim(body@);
        }
        if text::text_trim(body).is_empty() {
            return false;
        }
        proof {
            let caret = block.input.cursor as int;
            crate::text::lemma_within(block.text, caret, whole.0 as int);
            crate::text::lemma_within(block.text, caret, whole.1 as int);
        }
        let end: usize = self.edit_block_text(ix, whole.0, whole.1, body);
        self.mark_typed(ix, kind, whole.0, end);
        true
    }
}

impl<S: BlockSpec> NotionEditor<S> {
    /// Apply the first inline rule that matches what was typed into block
    /// `ix`: `**bold**`, `` `code` `` and friends, when the closing delimiter
    /// is typed.
    fn apply_inline_rule(&mut self, ix: usize) -> (fired: bool)
        requires
            old(self)@.wf(),
            ix < old(self)@.blocks.len(),
            crate::ready::inline_ready(old(self)@.head(ix as int), 0),
        ensures
            ({
                let next = old(self)@.inline_rules(ix as int, 0);
                &&& fired == (next is Some)
                &&& final(self)@ == (match next {
                    Some(next) => next,
                    None => old(self)@,
                })
            }),
            final(self).types() == old(self).types(),
            final(self)@.wf(),
    {
        let ghost start = self@;
        assert(start.blocks[ix as int] == self.blocks@[ix as int]@);
        let caret: usize = self.blocks[ix].input.cursor;
        let (head, _rest) = text::cut(&self.blocks[ix].text, caret);
        let head = head.to_owned();
        let mut i: usize = 0;
        while i < INLINE_RULES
            invariant
                start == old(self)@,
                self@ == start,
                self.registry == old(self).registry,
                start.wf(),
                ix < start.blocks.len(),
                head@ == start.head(ix as int),
                crate::ready::inline_ready(head@, i as int),
                i <= INLINE_RULES,
                start.inline_rules(ix as int, i as int) == start.inline_rules(ix as int, 0),
            decreases INLINE_RULES - i,
        {
            let (pattern, kind) = inline_rule_at(i);
            let found = captures(pattern, &head);
            if self.apply_inline_match(ix, kind, &found) {
                return true;
            }
            i = i + 1;
        }
        false
    }

    /// Apply the first typography rule whose text was typed into block `ix`.
    pub fn apply_typography_rule(&mut self, ix: usize) -> (fired: bool)
        requires
            old(self)@.wf(),
            ix < old(self)@.blocks.len(),
        ensures
            ({
                let next = old(self)@.typography_rules(ix as int, 0);
                &&& fired == (next is Some)
                &&& final(self)@ == (match next {
                    Some(next) => next,
                    None => old(self)@,
                })
            }),
            final(self).types() == old(self).types(),
            final(self)@.wf(),
    {
        let ghost start = self@;
        let ghost block = start.blocks[ix as int];
        assert(block == self.blocks@[ix as int]@);
        let caret: usize = self.blocks[ix].input.cursor;
        let (head, _rest) = text::cut(&self.blocks[ix].text, caret);
        let head = head.to_owned();
        let mut i: usize = 0;
        while i < TYPOGRAPHY_RULES
            invariant
                start == old(self)@,
                self@ == start,
                self.registry == old(self).registry,
                start.wf(),
                ix < start.blocks.len(),
                block == start.blocks[ix as int],
                caret == block.input.cursor,
                head@ == start.head(ix as int),
                i <= TYPOGRAPHY_RULES,
                start.typography_rules(ix as int, i as int) == start.typography_rules(
                    ix as int,
                    0,
                ),
            decreases TYPOGRAPHY_RULES - i,
        {
            let (from, to) = typography_rule_at(i);
            if text::text_ends_with(&head, from) {
                let len: usize = text::text_len(from);
                proof {
                    crate::text::lemma_suffix(head@, from@);
                    crate::text::lemma_split(block.text, caret as int);
                    crate::text::lemma_within(block.text, caret as int, caret - len);
                }
                let _ = self.edit_block_text(ix, caret - len, caret, to);
                return true;
            }
            i = i + 1;
        }
        false
    }

    /// Run the input rules after an edit. Returns true when one fired.
    pub fn run_input_rules(&mut self, id: BlockId) -> (fired: bool)
        requires
            old(self)@.wf(),
            old(self).types().wf(),
            old(self)@.rules_ready(id),
            old(self)@.next_id < u64::MAX,
        ensures
            ({
                let next = old(self)@.input_rules(id);
                &&& fired == (next is Some)
                &&& final(self)@ == (match next {
                    Some(next) => next,
                    None => old(self)@,
                })
            }),
            final(self).types() == old(self).types(),
            final(self)@.wf(),
    {
        if self.input_rule_mode == InputRuleMode::Application {
            return false;
        }
        let ix: usize = match self.index_of(id) {
            Some(ix) => ix,
            None => {
                return false;
            },
        };
        if !self.caps_at(ix).input_rules {
            return false;
        }
        proof {
            crate::ready::lemma_node_fires(self@, ix as int, 0);
        }
        self.apply_node_rule(ix) || self.apply_inline_rule(ix) || self.apply_typography_rule(ix)
    }

    /// Apply a match of node rule `rule` in the line of block `ix`, and answer
    /// whether it was one that applies.
    pub fn apply_prefix_match(&mut self, ix: usize, rule: usize, found: &Option<Captures>) -> (fired:
        bool)
        requires
            old(self)@.wf(),
            old(self).types().wf(),
            ix < old(self)@.blocks.len(),
            rule < old(self)@.reg.rules.len(),
            found matches Some(caps) ==> caps@.wf() && caps@.text
                == old(self)@.blocks[ix as int].text,
        ensures
            ({
                let next = old(self)@.prefix_match(
                    ix as int,
                    old(self)@.reg.rules[rule as int],
                    opt_match(*found),
                );
                &&& fired == (next is Some)
                &&& final(self)@ == (match next {
                    Some(next) => next,
                    None => old(self)@,
                })
            }),
            final(self).types() == old(self).types(),
            final(self)@.wf(),
    {
        let caps = match found {
            Some(caps) => caps,
            None => {
                return false;
            },
        };
        let end: usize = match caps.get(0) {
            Some(whole) => {
                if whole.0 != 0 || whole.1 == 0 {
                    return false;
                }
                whole.1
            },
            None => {
                return false;
            },
        };
        let (ty, attrs) = match self.target_of(
            rule,
            &self.blocks[ix].ty,
            &self.blocks[ix].attrs,
            caps,
        ) {
            Some(target) => target,
            None => {
                return false;
            },
        };
        assert(self@.blocks[ix as int] == self.blocks@[ix as int]@);
        let id = self.blocks[ix].id;
        proof {
            assert(crate::pattern::span_in(caps@.text, caps@.whole()));
        }
        let _ = self.edit_block_text(ix, 0, end, "");
        self.set_block_type(id, ty, attrs);
        true
    }

    /// Convert a whole line that begins with a markdown prefix, the way a
    /// pasted document's lines are read. Unlike typing, the rest of the line
    /// is already there, so the rule only has to match its start.
    pub fn apply_markdown_prefix(&mut self, id: BlockId) -> (fired: bool)
        requires
            old(self)@.wf(),
            old(self).types().wf(),
            old(self)@.prefixes_ready(id),
        ensures
            ({
                let next = old(self)@.markdown_prefix(id);
                &&& fired == (next is Some)
                &&& final(self)@ == (match next {
                    Some(next) => next,
                    None => old(self)@,
                })
            }),
            final(self).types() == old(self).types(),
            final(self)@.wf(),
    {
        if self.input_rule_mode == InputRuleMode::Application {
            return false;
        }
        let ix: usize = match self.index_of(id) {
            Some(ix) => ix,
            None => {
                return false;
            },
        };
        if !self.caps_at(ix).input_rules {
            return false;
        }
        let ghost start = self@;
        assert(start.blocks[ix as int] == self.blocks@[ix as int]@);
        let line = self.blocks[ix].text.clone();
        let mut i: usize = 0;
        while i < self.registry.rules.len()
            invariant
                start == old(self)@,
                self@ == start,
                self.registry == old(self).registry,
                self.registry.wf(),
                start.wf(),
                ix < start.blocks.len(),
                line@ == start.blocks[ix as int].text,
                crate::ready::prefix_ready(
                    start.reg,
                    start.blocks[ix as int].ty,
                    start.blocks[ix as int].attrs,
                    line@,
                    i as int,
                ),
                start.markdown_prefix(id) == start.prefix_rules(ix as int, 0),
                i <= self.registry.rules@.len(),
                start.prefix_rules(ix as int, i as int) == start.prefix_rules(ix as int, 0),
            decreases self.registry.rules@.len() - i,
        {
            let ghost rule = start.reg.rules[i as int];
            assert(rule == self.registry.rule_view(i as int));
            let pattern = open_end(&self.registry.rules[i].pattern);
            let found = captures(&pattern, &line);
            if self.apply_prefix_match(ix, i, &found) {
                return true;
            }
            i = i + 1;
        }
        false
    }
}

/// Attributes with the text of the group called `name`, under that name, as
/// the contracts see them.
pub open spec fn captured_attrs(
    caps: crate::pattern::CapturesView,
    name: Seq<char>,
) -> crate::block::AttrsView {
    match caps.named(name) {
        Some(span) => crate::block::AttrsView {
            extra: seq![(name, crate::text::slice(caps.text, span.0, span.1))],
            ..crate::block::default_attrs()
        },
        None => crate::block::default_attrs(),
    }
}

/// Attributes a rule may need to look up by name: the text of the group called
/// `name`, under that name.
pub fn attrs_from_capture(caps: &Captures, name: &str) -> (attrs: BlockAttrs)
    requires
        caps@.wf(),
    ensures
        attrs@ == captured_attrs(caps@, name@),
{
    let mut attrs = BlockAttrs::new();
    if let Some(span) = caps.name(name) {
        proof {
            crate::pattern::lemma_named_span(caps@, name@);
        }
        let value = caps.text_of(span);
        attrs.set_extra(name.to_owned(), value.to_owned());
    }
    attrs
}

} // verus!
