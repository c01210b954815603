//! Regular expressions, as the input rules use them.
//!
//! Matching is the `regex` crate's. What it found is held here as plain byte
//! offsets into the text that was searched.

use vstd::prelude::*;

use crate::text;

verus! {

/// A group of a match: its name, where it has one, and the bytes it matched,
/// where it took part.
#[derive(Debug)]
pub struct Group {
    pub name: Option<String>,
    pub span: Option<(usize, usize)>,
}

/// A match of a pattern in `text`. The first group is the whole match.
#[derive(Debug)]
pub struct Captures {
    pub text: String,
    pub groups: Vec<Group>,
}

/// A [`Captures`] as the contracts see it.
pub struct CapturesView {
    pub text: Seq<char>,
    pub groups: Seq<(Option<Seq<char>>, Option<(int, int)>)>,
}

impl View for Group {
    type V = (Option<Seq<char>>, Option<(int, int)>);

    open spec fn view(&self) -> (Option<Seq<char>>, Option<(int, int)>) {
        (
            match self.name {
                Some(name) => Some(name@),
                None => None,
            },
            match self.span {
                Some(span) => Some((span.0 as int, span.1 as int)),
                None => None,
            },
        )
    }
}

/// The views of a list of groups.
pub open spec fn group_views(groups: Seq<Group>) -> Seq<
    (Option<Seq<char>>, Option<(int, int)>),
> {
    groups.map_values(|group: Group| group@)
}

impl View for Captures {
    type V = CapturesView;

    open spec fn view(&self) -> CapturesView {
        CapturesView { text: self.text@, groups: group_views(self.groups@) }
    }
}

/// Whether `(a, b)` is a stretch of `text`.
pub open spec fn span_in(text: Seq<char>, span: (int, int)) -> bool {
    span.0 <= span.1 && crate::text::boundary(text, span.0) && crate::text::boundary(text, span.1)
}

/// Whether `groups` can be those of a match in `text`: there is a whole match,
/// and what a group matched is a stretch of the text.
pub open spec fn groups_in(
    text: Seq<char>,
    groups: Seq<(Option<Seq<char>>, Option<(int, int)>)>,
) -> bool {
    &&& groups.len() > 0
    &&& groups[0].1 is Some
    &&& forall|i: int|
        0 <= i < groups.len() ==> ((#[trigger] groups[i]).1 matches Some(span) ==> span_in(
            text,
            span,
        ))
}

impl CapturesView {
    /// Whether the groups are those of a match in the text.
    pub open spec fn wf(self) -> bool {
        groups_in(self.text, self.groups)
    }

    /// The bytes of the whole match.
    pub open spec fn whole(self) -> (int, int) {
        self.groups[0].1->0
    }

    /// The bytes that group `i` matched, if there is such a group and it took
    /// part.
    pub open spec fn group(self, i: int) -> Option<(int, int)> {
        if 0 <= i < self.groups.len() {
            self.groups[i].1
        } else {
            None
        }
    }

    /// Whether group `i` is the first one of that name.
    pub open spec fn is_named(self, name: Seq<char>, i: int) -> bool {
        &&& 0 <= i < self.groups.len()
        &&& self.groups[i].0 == Some(name)
        &&& forall|j: int| 0 <= j < i ==> (#[trigger] self.groups[j]).0 != Some(name)
    }

    /// The bytes that the group of that name matched, if there is one and it
    /// took part.
    pub open spec fn named(self, name: Seq<char>) -> Option<(int, int)> {
        if exists|i: int| self.is_named(name, i) {
            self.groups[choose|i: int| self.is_named(name, i)].1
        } else {
            None
        }
    }
}

/// Whether the `regex` crate takes `pattern`. The crate bounds the compiled
/// form of a pattern by its size in memory, so one whose compiled form comes
/// close to that bound, ten megabytes, may be taken where pointers are narrow
/// and refused where they are wide; in one program the answer never changes.
pub uninterp spec fn pattern_compiles(pattern: Seq<char>) -> bool;

/// The groups of the leftmost match of `pattern` in `text`: the name and the
/// byte range of each, the whole match first.
pub uninterp spec fn captures_of(pattern: Seq<char>, text: Seq<char>) -> Option<
    Seq<(Option<Seq<char>>, Option<(int, int)>)>,
>;

/// `regex::Regex::new`: whether the pattern is one. The answer depends on the
/// pattern alone.
#[verifier::external_body]
fn regex_compiles(pattern: &str) -> (ok: bool)
    ensures
        ok == pattern_compiles(pattern@),
{
    regex::Regex::new(pattern).is_ok()
}

/// `regex::Regex::captures`, on the pattern as `regex::Regex::new` compiles it:
/// the groups of the leftmost match, each with its name as
/// `regex::Regex::capture_names` gives it. They depend on the pattern and the
/// text alone. A match always has its whole as the first group, and the crate
/// promises that every range it hands out is a stretch of the text that starts
/// and ends between characters. A pattern that does not compile is left out:
/// there is nothing to match with.
#[verifier::external_body]
fn regex_captures(pattern: &str, text: &str) -> (groups: Option<Vec<Group>>)
    requires
        pattern_compiles(pattern@),
    ensures
        match groups {
            Some(groups) => captures_of(pattern@, text@) == Some(group_views(groups@)) && groups_in(
                text@,
                group_views(groups@),
            ),
            None => captures_of(pattern@, text@) is None,
        },
{
    let regex = regex::Regex::new(pattern).expect("input rule regex");
    let found = regex.captures(text)?;
    let groups = regex.capture_names().zip(found.iter());
    Some(
        groups
            .map(|(name, group)| Group {
                name: name.map(|name| name.to_string()),
                span: group.map(|group| (group.start(), group.end())),
            })
            .collect(),
    )
}

/// Whether `pattern` is a regular expression.
pub fn compiles(pattern: &str) -> (ok: bool)
    ensures
        ok == pattern_compiles(pattern@),
{
    regex_compiles(pattern)
}

/// What `pattern` matches in `text`, as the contracts see it.
pub open spec fn match_of(pattern: Seq<char>, text: Seq<char>) -> Option<CapturesView> {
    match captures_of(pattern, text) {
        Some(groups) => Some(CapturesView { text, groups }),
        None => None,
    }
}

/// The leftmost match of `pattern` in `text`.
pub fn captures(pattern: &str, text: &str) -> (found: Option<Captures>)
    requires
        pattern_compiles(pattern@),
    ensures
        match found {
            Some(found) => match_of(pattern@, text@) == Some(found@) && found@.wf(),
            None => match_of(pattern@, text@) is None,
        },
{
    match regex_captures(pattern, text) {
        Some(groups) => Some(Captures { text: text.to_owned(), groups }),
        None => None,
    }
}

impl Captures {
    /// The bytes that group `i` matched.
    pub fn get(&self, i: usize) -> (span: Option<(usize, usize)>)
        ensures
            match span {
                Some(span) => self@.group(i as int) == Some((span.0 as int, span.1 as int)),
                None => self@.group(i as int) is None,
            },
    {
        if i < self.groups.len() {
            assert(self@.groups[i as int] == self.groups@[i as int]@);
            self.groups[i].span
        } else {
            None
        }
    }

    /// The bytes that the group called `name` matched.
    pub fn name(&self, name: &str) -> (span: Option<(usize, usize)>)
        ensures
            match span {
                Some(span) => self@.named(name@) == Some((span.0 as int, span.1 as int)),
                None => self@.named(name@) is None,
            },
    {
        let mut i: usize = 0;
        while i < self.groups.len()
            invariant
                i <= self.groups@.len(),
                forall|j: int| 0 <= j < i ==> (#[trigger] self@.groups[j]).0 != Some(name@),
            decreases self.groups@.len() - i,
        {
            assert(self@.groups[i as int] == self.groups@[i as int]@);
            let found = match &self.groups[i].name {
                Some(known) => text::text_eq(known, name),
                None => false,
            };
            if found {
                proof {
                    assert(self@.is_named(name@, i as int));
                    let k = choose|k: int| self@.is_named(name@, k);
                    assert(k == i);
                }
                return self.groups[i].span;
            }
            i = i + 1;
        }
        None
    }

    /// The text between two offsets of a match.
    pub fn text_of(&self, span: (usize, usize)) -> (part: &str)
        requires
            span_in(self@.text, (span.0 as int, span.1 as int)),
        ensures
            part@ == crate::text::slice(self@.text, span.0 as int, span.1 as int),
    {
        text::text_slice(&self.text, span.0, span.1)
    }
}

/// What a group matched is a stretch of the text.
pub proof fn lemma_named_span(caps: CapturesView, name: Seq<char>)
    requires
        caps.wf(),
    ensures
        caps.named(name) matches Some(span) ==> span_in(caps.text, span),
{
    if exists|i: int| caps.is_named(name, i) {
        let i = choose|i: int| caps.is_named(name, i);
        assert(caps.groups[i].1 matches Some(span) ==> span_in(caps.text, span));
    }
}

} // verus!
