//! Which patterns the rules get to match with. Rules are tried in order until
//! one fires, so a pattern behind that one is never compiled; whether those
//! before it are regular expressions can be asked ahead of a change.

use vstd::prelude::*;

use crate::block::{BlockAttrs, BlockId, BlockSpec, Selection};
use crate::input_rules::{inline_rule_at, open_end, InputRuleMode, INLINE_RULES};
use crate::mark::diff_edit;
use crate::pattern::{captures, compiles, Captures};
use crate::text;
use crate::view::{EditorView, NotionEditor};

verus! {

/// What a node rule makes of a block of type `ty` once `head` was typed into
/// it, if it fires: it has to consume everything typed so far.
pub open spec fn typed_target(
    rule: crate::block::RuleView,
    ty: Seq<char>,
    attrs: crate::block::AttrsView,
    head: Seq<char>,
) -> Option<(Seq<char>, crate::block::AttrsView)> {
    match crate::pattern::match_of(rule.pattern, head) {
        Some(caps) if caps.whole() == (0int, crate::text::blen(head)) => {
            crate::input_rules::target_of(rule, ty, attrs, caps)
        },
        _ => None,
    }
}

/// Whether a node rule fires, from rule `i` on.
pub open spec fn node_fires(
    reg: crate::block::RegistryView,
    ty: Seq<char>,
    attrs: crate::block::AttrsView,
    head: Seq<char>,
    i: int,
) -> bool
    decreases reg.rules.len() - i,
{
    0 <= i < reg.rules.len() && (typed_target(reg.rules[i], ty, attrs, head) is Some || node_fires(
        reg,
        ty,
        attrs,
        head,
        i + 1,
    ))
}

/// Whether the patterns of the node rules, from rule `i` to the first that
/// fires, are regular expressions.
pub open spec fn node_ready(
    reg: crate::block::RegistryView,
    ty: Seq<char>,
    attrs: crate::block::AttrsView,
    head: Seq<char>,
    i: int,
) -> bool
    decreases reg.rules.len() - i,
{
    0 <= i < reg.rules.len() ==> crate::pattern::pattern_compiles(reg.rules[i].pattern) && (
    typed_target(reg.rules[i], ty, attrs, head) is Some || node_ready(reg, ty, attrs, head, i + 1))
}

/// Whether a match of an inline rule is one that applies: its body has to hold
/// more than white space.
pub open spec fn inline_applies(found: Option<crate::pattern::CapturesView>) -> bool {
    match found {
        Some(caps) => match (caps.group(1), caps.named("body"@)) {
            (Some(_), Some(span)) => !crate::text::blank(
                crate::text::slice(caps.text, span.0, span.1),
            ),
            _ => false,
        },
        None => false,
    }
}

/// Whether the patterns of the inline rules, from rule `i` to the first that
/// fires, are regular expressions.
pub open spec fn inline_ready(head: Seq<char>, i: int) -> bool
    decreases INLINE_RULES - i,
{
    0 <= i < INLINE_RULES ==> {
        let pattern = crate::input_rules::inline_rule(i).0;
        crate::pattern::pattern_compiles(pattern) && (inline_applies(
            crate::pattern::match_of(pattern, head),
        ) || inline_ready(head, i + 1))
    }
}

/// Whether the rules can run on a block into which `head` was typed: every
/// pattern up to that of the first rule that fires is a regular expression.
pub open spec fn typed_ready(
    reg: crate::block::RegistryView,
    ty: Seq<char>,
    attrs: crate::block::AttrsView,
    head: Seq<char>,
) -> bool {
    node_ready(reg, ty, attrs, head, 0) && (node_fires(reg, ty, attrs, head, 0) || inline_ready(
        head,
        0,
    ))
}

/// A line as it is read: the type and the attributes of the block that it is
/// in, and its text.
#[verifier::ext_equal]
pub struct LineView {
    pub ty: Seq<char>,
    pub attrs: crate::block::AttrsView,
    pub text: Seq<char>,
}

/// What a node rule makes of a line in a block of type `ty`, if it fires: it
/// has to match a prefix that is not empty, and takes that off.
pub open spec fn line_target(
    rule: crate::block::RuleView,
    ty: Seq<char>,
    attrs: crate::block::AttrsView,
    line: Seq<char>,
) -> Option<LineView> {
    match crate::pattern::match_of(crate::input_rules::open_ended(rule.pattern), line) {
        Some(caps) if caps.whole().0 == 0 && caps.whole().1 != 0 => {
            match crate::input_rules::target_of(rule, ty, attrs, caps) {
                Some(target) => Some(
                    LineView {
                        ty: target.0,
                        attrs: target.1,
                        text: crate::text::after(line, caps.whole().1),
                    },
                ),
                None => None,
            }
        },
        _ => None,
    }
}

/// What the first node rule that fires makes of a line, from rule `i` on.
pub open spec fn first_target(
    reg: crate::block::RegistryView,
    ty: Seq<char>,
    attrs: crate::block::AttrsView,
    line: Seq<char>,
    i: int,
) -> Option<LineView>
    decreases reg.rules.len() - i,
{
    if 0 <= i < reg.rules.len() {
        match line_target(reg.rules[i], ty, attrs, line) {
            Some(target) => Some(target),
            None => first_target(reg, ty, attrs, line, i + 1),
        }
    } else {
        None
    }
}

/// Whether the patterns that a line is matched with, from rule `i` to the first
/// that fires, are regular expressions.
pub open spec fn prefix_ready(
    reg: crate::block::RegistryView,
    ty: Seq<char>,
    attrs: crate::block::AttrsView,
    line: Seq<char>,
    i: int,
) -> bool
    decreases reg.rules.len() - i,
{
    0 <= i < reg.rules.len() ==> crate::pattern::pattern_compiles(
        crate::input_rules::open_ended(reg.rules[i].pattern),
    ) && (line_target(reg.rules[i], ty, attrs, line) is Some || prefix_ready(
        reg,
        ty,
        attrs,
        line,
        i + 1,
    ))
}

impl EditorView {
    /// Whether the editor's own rules apply to blocks of type `ty`.
    pub open spec fn reads(self, ty: Seq<char>) -> bool {
        self.input_rule_mode == InputRuleMode::BuiltIn && (self.reg.caps)(ty).input_rules
    }

    /// A line in a block of type `ty` as it is read: as the first rule that
    /// fires makes it, or as it is.
    pub open spec fn read_line(
        self,
        ty: Seq<char>,
        attrs: crate::block::AttrsView,
        line: Seq<char>,
    ) -> LineView {
        match first_target(self.reg, ty, attrs, line, 0) {
            Some(target) if self.reads(ty) => target,
            _ => LineView { ty, attrs, text: line },
        }
    }

    /// Whether a line in a block of type `ty` can be read: no rule applies to
    /// it, or every pattern up to that of the first that fires is a regular
    /// expression.
    pub open spec fn line_ready(
        self,
        ty: Seq<char>,
        attrs: crate::block::AttrsView,
        line: Seq<char>,
    ) -> bool {
        self.reads(ty) ==> prefix_ready(self.reg, ty, attrs, line, 0)
    }

    /// Whether lines that came into a block of type `ty` can be read, one after
    /// another. Those behind the first are read in blocks like the one that
    /// the first becomes.
    pub open spec fn paste_ready(
        self,
        ty: Seq<char>,
        attrs: crate::block::AttrsView,
        lines: Seq<Seq<char>>,
    ) -> bool {
        let first = self.read_line(ty, attrs, lines[0]);
        &&& self.line_ready(ty, attrs, lines[0])
        &&& forall|k: int|
            1 <= k < lines.len() ==> self.line_ready(first.ty, first.attrs, #[trigger] lines[k])
    }

    /// Whether the rules can run on block `id`: none applies to it, or every
    /// pattern up to that of the first that fires is a regular expression.
    pub open spec fn rules_ready(self, id: BlockId) -> bool {
        crate::view::find(self.blocks, id) matches Some(ix) ==> self.rules_apply(ix)
            ==> typed_ready(self.reg, self.blocks[ix].ty, self.blocks[ix].attrs, self.head(ix))
    }

    /// Whether the line of block `id` can be read as markdown.
    pub open spec fn prefixes_ready(self, id: BlockId) -> bool {
        crate::view::find(self.blocks, id) matches Some(ix) ==> self.line_ready(
            self.blocks[ix].ty,
            self.blocks[ix].attrs,
            self.blocks[ix].text,
        )
    }

    /// Whether a change of the input of block `id` to `new_text`, with its
    /// caret at `input`, can be taken in: every pattern that it has the rules
    /// match with is a regular expression. A paste that falls apart is matched
    /// line by line, anything else as typed text.
    pub open spec fn change_ready(self, id: BlockId, new_text: Seq<char>, input: Selection) -> bool {
        match crate::view::find(self.blocks, id) {
            Some(ix) if self.blocks[ix].text != new_text => {
                let block = self.blocks[ix];
                if crate::edit::pasted(block.text, new_text) && self.falls_apart(ix, new_text) {
                    self.paste_ready(block.ty, block.attrs, crate::text::lines(new_text))
                } else {
                    self.reads(block.ty) ==> typed_ready(
                        self.reg,
                        block.ty,
                        block.attrs,
                        crate::text::before(new_text, input.cursor as int),
                    )
                }
            },
            _ => true,
        }
    }
}

/// A node rule fires on block `ix` exactly where one fires on what was typed
/// into it.
pub proof fn lemma_node_fires(e: EditorView, ix: int, i: int)
    requires
        crate::text::boundary(e.blocks[ix].text, e.blocks[ix].input.cursor as int),
        0 <= i,
    ensures
        e.node_rules(ix, i) is Some <==> node_fires(
            e.reg,
            e.blocks[ix].ty,
            e.blocks[ix].attrs,
            e.head(ix),
            i,
        ),
    decreases e.reg.rules.len() - i,
{
    crate::text::lemma_split(e.blocks[ix].text, e.blocks[ix].input.cursor as int);
    if i < e.reg.rules.len() {
        lemma_node_fires(e, ix, i + 1);
    }
}

impl<S: BlockSpec> NotionEditor<S> {
    /// Whether the patterns of the node rules, up to the first that fires, are
    /// regular expressions, and whether one fires.
    fn node_is_ready(&self, ty: &str, attrs: &BlockAttrs, head: &str) -> (ready: (bool, bool))
        requires
            self.types().wf(),
        ensures
            ready.0 == node_ready(self@.reg, ty@, attrs@, head@, 0),
            ready.0 ==> ready.1 == node_fires(self@.reg, ty@, attrs@, head@, 0),
    {
        let len: usize = text::text_len(head);
        let ghost reg = self@.reg;
        let mut i: usize = 0;
        while i < self.registry.rules.len()
            invariant
                self.registry.wf(),
                reg == self@.reg,
                len == crate::text::blen(head@),
                i <= self.registry.rules@.len(),
                node_ready(reg, ty@, attrs@, head@, 0) == node_ready(
                    reg,
                    ty@,
                    attrs@,
                    head@,
                    i as int,
                ),
                node_fires(reg, ty@, attrs@, head@, 0) == node_fires(
                    reg,
                    ty@,
                    attrs@,
                    head@,
                    i as int,
                ),
            decreases self.registry.rules@.len() - i,
        {
            assert(reg.rules[i as int] == self.registry.rule_view(i as int));
            if !compiles(&self.registry.rules[i].pattern) {
                return (false, false);
            }
            if let Some(caps) = captures(&self.registry.rules[i].pattern, head) {
                if let Some(whole) = caps.get(0) {
                    if whole.0 == 0 && whole.1 == len && self.target_of(
                        i,
                        ty,
                        attrs,
                        &caps,
                    ).is_some() {
                        return (true, true);
                    }
                }
            }
            i = i + 1;
        }
        (true, false)
    }

    /// Whether the rules can run on a block into which `head` was typed.
    fn typed_is_ready(&self, ty: &str, attrs: &BlockAttrs, head: &str) -> (ready: bool)
        requires
            self.types().wf(),
        ensures
            ready == typed_ready(self@.reg, ty@, attrs@, head@),
    {
        let (ready, fires) = self.node_is_ready(ty, attrs, head);
        ready && (fires || inline_is_ready(head))
    }

    /// The type and the attributes of the block that a line in a block of type
    /// `ty` ends up in, if it can be read.
    fn line_is_ready(&self, ty: &str, attrs: &BlockAttrs, line: &str) -> (read: Option<
        (String, BlockAttrs),
    >)
        requires
            self.types().wf(),
        ensures
            match read {
                Some(read) => {
                    let line = self@.read_line(ty@, attrs@, line@);
                    read.0@ == line.ty && read.1@ == line.attrs
                },
                None => true,
            },
            read is Some <==> self@.line_ready(ty@, attrs@, line@),
    {
        let unread = (ty.to_owned(), attrs.copy());
        if self.input_rule_mode == InputRuleMode::Application || !self.registry.caps(
            ty,
        ).input_rules {
            return Some(unread);
        }
        let ghost reg = self@.reg;
        let mut i: usize = 0;
        while i < self.registry.rules.len()
            invariant
                self.registry.wf(),
                reg == self@.reg,
                self@.reads(ty@),
                i <= self.registry.rules@.len(),
                prefix_ready(reg, ty@, attrs@, line@, 0) == prefix_ready(
                    reg,
                    ty@,
                    attrs@,
                    line@,
                    i as int,
                ),
                first_target(reg, ty@, attrs@, line@, 0) == first_target(
                    reg,
                    ty@,
                    attrs@,
                    line@,
                    i as int,
                ),
            decreases self.registry.rules@.len() - i,
        {
            assert(reg.rules[i as int] == self.registry.rule_view(i as int));
            let pattern = open_end(&self.registry.rules[i].pattern);
            if !compiles(&pattern) {
                return None;
            }
            if let Some(caps) = captures(&pattern, line) {
                if let Some(whole) = caps.get(0) {
                    if whole.0 == 0 && whole.1 != 0 {
                        if let Some(target) = self.target_of(i, ty, attrs, &caps) {
                            return Some(target);
                        }
                    }
                }
            }
            i = i + 1;
        }
        Some(unread)
    }

    /// Whether lines that came into a block of type `ty` can be read.
    fn paste_is_ready(&self, ty: &str, attrs: &BlockAttrs, lines: &Vec<String>) -> (ready: bool)
        requires
            self.types().wf(),
            lines@.len() > 0,
        ensures
            ready == self@.paste_ready(
                ty@,
                attrs@,
                lines@.map_values(|line: String| line@),
            ),
    {
        let ghost texts = lines@.map_values(|line: String| line@);
        assert(texts[0] == lines@[0]@);
        let ghost first = self@.read_line(ty@, attrs@, texts[0]);
        let (next_ty, next_attrs) = match self.line_is_ready(ty, attrs, &lines[0]) {
            Some(read) => read,
            None => {
                return false;
            },
        };
        let mut k: usize = 1;
        while k < lines.len()
            invariant
                self.types().wf(),
                1 <= k <= lines@.len(),
                texts == lines@.map_values(|line: String| line@),
                first == self@.read_line(ty@, attrs@, texts[0]),
                next_ty@ == first.ty,
                next_attrs@ == first.attrs,
                forall|j: int|
                    1 <= j < k ==> self@.line_ready(first.ty, first.attrs, #[trigger] texts[j]),
            decreases lines@.len() - k,
        {
            assert(texts[k as int] == lines@[k as int]@);
            if self.line_is_ready(&next_ty, &next_attrs, &lines[k]).is_none() {
                return false;
            }
            k = k + 1;
        }
        true
    }

    /// Whether a change of the text of block `ix` to `new_text` came as a
    /// paste.
    fn is_pasted(&self, ix: usize, new_text: &str) -> (pasted: bool)
        requires
            self@.wf(),
            ix < self@.blocks.len(),
            self@.blocks[ix as int].text != new_text@,
        ensures
            pasted == crate::edit::pasted(self@.blocks[ix as int].text, new_text@),
    {
        assert(self@.blocks[ix as int] == self.blocks@[ix as int]@);
        text::fits_memory(&self.blocks[ix].text);
        text::fits_memory(new_text);
        match diff_edit(&self.blocks[ix].text, new_text) {
            Some(edit) => {
                proof {
                    crate::mark::law_edit_between(self@.blocks[ix as int].text, new_text@);
                }
                edit.new_len > 1 && text::has_char(
                    text::text_slice(new_text, edit.start, edit.start + edit.new_len),
                    '\n',
                )
            },
            None => false,
        }
    }

    /// Whether every pattern that a change of the input of block `id` to
    /// `new_text`, with its caret at `input`, has the rules match with is a
    /// regular expression.
    pub fn is_change_ready(&self, id: BlockId, new_text: &str, input: Selection) -> (ready: bool)
        requires
            self@.wf(),
            self.types().wf(),
            input.fits(new_text@),
        ensures
            ready == self@.change_ready(id, new_text@, input),
    {
        let ix: usize = match self.index_of(id) {
            Some(ix) => ix,
            None => {
                return true;
            },
        };
        assert(self@.blocks[ix as int] == self.blocks@[ix as int]@);
        let caps = self.caps_at(ix);
        let block = &self.blocks[ix];
        if text::text_eq(&block.text, new_text) {
            true
        } else if !caps.multiline && text::has_char(new_text, '\n') && self.is_pasted(
            ix,
            new_text,
        ) {
            let lines = text::text_lines(new_text);
            proof {
                crate::text::lemma_lines_from(new_text@, 0);
            }
            self.paste_is_ready(&block.ty, &block.attrs, &lines)
        } else if self.input_rule_mode == InputRuleMode::Application || !caps.input_rules {
            true
        } else {
            let (head, _rest) = text::cut(new_text, input.cursor);
            self.typed_is_ready(&block.ty, &block.attrs, head)
        }
    }
}

/// Whether the patterns of the inline rules, up to the first that fires, are
/// regular expressions.
fn inline_is_ready(head: &str) -> (ready: bool)
    ensures
        ready == inline_ready(head@, 0),
{
    let mut i: usize = 0;
    while i < INLINE_RULES
        invariant
            i <= INLINE_RULES,
            inline_ready(head@, 0) == inline_ready(head@, i as int),
        decreases INLINE_RULES - i,
    {
        let (pattern, _kind) = inline_rule_at(i);
        if !compiles(pattern) {
            return false;
        }
        if match_applies(&captures(pattern, head)) {
            return true;
        }
        i = i + 1;
    }
    true
}

/// Whether a match of an inline rule is one that applies.
fn match_applies(found: &Option<Captures>) -> (applies: bool)
    requires
        found matches Some(caps) ==> caps@.wf(),
    ensures
        applies == inline_applies(crate::input_rules::opt_match(*found)),
{
    let caps = match found {
        Some(caps) => caps,
        None => {
            return false;
        },
    };
    match (caps.get(1), caps.name("body")) {
        (Some(_), Some(span)) => {
            proof {
                crate::pattern::lemma_named_span(caps@, "body"@);
            }
            let body = caps.text_of(span);
            proof {
                crate::text::lemma_blank_trim(body@);
            }
            !text::text_trim(body).is_empty()
        },
        _ => false,
    }
}

} // verus!
