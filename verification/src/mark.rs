//! Inline marks: bold, links, comments and the rest, each over a byte range
//! of a block's text.

use vstd::prelude::*;
use vstd::string::*;


verus! {

/// An entry of the highlight palette.
#[derive(Clone, Copy, Debug, PartialEq, Eq, Structural)]
pub struct HighlightColor(pub u8);

/// An entry of the text color palette.
#[derive(Clone, Copy, Debug, PartialEq, Eq, Structural)]
pub struct TextColor(pub u8);

/// A comment thread.
#[derive(Clone, Copy, Debug, PartialEq, Eq, Structural)]
pub struct ThreadId(pub u64);

/// What a mark does to the text under it.
#[derive(Clone, Debug, PartialEq, Eq)]
pub enum MarkKind {
    Bold,
    Italic,
    Underline,
    Strike,
    Code,
    Superscript,
    Subscript,
    /// Carries the address.
    Link(String),
    Highlight(Option<HighlightColor>),
    TextColor(TextColor),
    /// Carries the person's id.
    Mention(String),
    Comment(ThreadId),
}

/// A [`MarkKind`] as the contracts see it.
pub enum KindView {
    Bold,
    Italic,
    Underline,
    Strike,
    Code,
    Superscript,
    Subscript,
    Link(Seq<char>),
    Highlight(Option<HighlightColor>),
    TextColor(TextColor),
    Mention(Seq<char>),
    Comment(ThreadId),
}

impl KindView {
    /// Which kind of mark this is, whatever it carries.
    pub open spec fn tag(self) -> int {
        match self {
            KindView::Bold => 0,
            KindView::Italic => 1,
            KindView::Underline => 2,
            KindView::Strike => 3,
            KindView::Code => 4,
            KindView::Superscript => 5,
            KindView::Subscript => 6,
            KindView::Link(_) => 7,
            KindView::Highlight(_) => 8,
            KindView::TextColor(_) => 9,
            KindView::Mention(_) => 10,
            KindView::Comment(_) => 11,
        }
    }

    /// Whether text typed at the end of such a mark joins it.
    pub open spec fn inclusive(self) -> bool {
        !(self is Link || self is Mention || self is Comment)
    }
}

impl View for MarkKind {
    type V = KindView;

    open spec fn view(&self) -> KindView {
        match *self {
            MarkKind::Bold => KindView::Bold,
            MarkKind::Italic => KindView::Italic,
            MarkKind::Underline => KindView::Underline,
            MarkKind::Strike => KindView::Strike,
            MarkKind::Code => KindView::Code,
            MarkKind::Superscript => KindView::Superscript,
            MarkKind::Subscript => KindView::Subscript,
            MarkKind::Link(href) => KindView::Link(href@),
            MarkKind::Highlight(color) => KindView::Highlight(color),
            MarkKind::TextColor(color) => KindView::TextColor(color),
            MarkKind::Mention(id) => KindView::Mention(id@),
            MarkKind::Comment(id) => KindView::Comment(id),
        }
    }
}

impl MarkKind {
    /// The same kind again.
    pub fn copy(&self) -> (kind: MarkKind)
        ensures
            kind@ == self@,
    {
        match self {
            MarkKind::Bold => MarkKind::Bold,
            MarkKind::Italic => MarkKind::Italic,
            MarkKind::Underline => MarkKind::Underline,
            MarkKind::Strike => MarkKind::Strike,
            MarkKind::Code => MarkKind::Code,
            MarkKind::Superscript => MarkKind::Superscript,
            MarkKind::Subscript => MarkKind::Subscript,
            MarkKind::Link(href) => MarkKind::Link(href.clone()),
            MarkKind::Highlight(color) => MarkKind::Highlight(*color),
            MarkKind::TextColor(color) => MarkKind::TextColor(*color),
            MarkKind::Mention(id) => MarkKind::Mention(id.clone()),
            MarkKind::Comment(id) => MarkKind::Comment(*id),
        }
    }

    fn tag(&self) -> (tag: u8)
        ensures
            tag == self@.tag(),
    {
        match self {
            MarkKind::Bold => 0,
            MarkKind::Italic => 1,
            MarkKind::Underline => 2,
            MarkKind::Strike => 3,
            MarkKind::Code => 4,
            MarkKind::Superscript => 5,
            MarkKind::Subscript => 6,
            MarkKind::Link(_) => 7,
            MarkKind::Highlight(_) => 8,
            MarkKind::TextColor(_) => 9,
            MarkKind::Mention(_) => 10,
            MarkKind::Comment(_) => 11,
        }
    }

    /// Whether two marks are of one kind, whatever they carry: two links are,
    /// wherever they lead.
    pub fn same_kind(&self, other: &MarkKind) -> (same: bool)
        ensures
            same == (self@.tag() == other@.tag()),
    {
        self.tag() == other.tag()
    }

    /// Whether text typed at the end of such a mark joins it. A link, a
    /// mention and a comment end where they were put.
    pub fn is_inclusive(&self) -> (inclusive: bool)
        ensures
            inclusive == self@.inclusive(),
    {
        match self {
            MarkKind::Link(_) => false,
            MarkKind::Mention(_) => false,
            MarkKind::Comment(_) => false,
            _ => true,
        }
    }
}

/// The kinds of `kinds` that text typed after them joins.
pub open spec fn inclusive_only(kinds: Seq<KindView>) -> Seq<KindView>
    decreases kinds.len(),
{
    if kinds.len() == 0 {
        Seq::empty()
    } else if kinds.last().inclusive() {
        inclusive_only(kinds.drop_last()).push(kinds.last())
    } else {
        inclusive_only(kinds.drop_last())
    }
}

/// The views of a list of kinds.
pub open spec fn kind_views(kinds: Seq<MarkKind>) -> Seq<KindView> {
    kinds.map_values(|kind: MarkKind| kind@)
}

/// The same kinds again.
pub fn copy_kinds(kinds: &Vec<MarkKind>) -> (copies: Vec<MarkKind>)
    ensures
        kind_views(copies@) == kind_views(kinds@),
{
    let mut copies: Vec<MarkKind> = Vec::new();
    let mut i: usize = 0;
    while i < kinds.len()
        invariant
            i <= kinds@.len(),
            kind_views(copies@) == kind_views(kinds@).take(i as int),
        decreases kinds@.len() - i,
    {
        let ghost done = copies@;
        copies.push(kinds[i].copy());
        assert(kind_views(copies@) =~= kind_views(done).push(kinds@[i as int]@));
        assert(kind_views(kinds@).take(i + 1) =~= kind_views(kinds@).take(i as int).push(
            kinds@[i as int]@,
        ));
        i = i + 1;
    }
    assert(kind_views(kinds@).take(i as int) =~= kind_views(kinds@));
    copies
}

/// A mark over the bytes `start..end`.
#[derive(Clone, Debug, PartialEq, Eq)]
pub struct Mark {
    pub kind: MarkKind,
    pub start: usize,
    pub end: usize,
}

/// A [`Mark`] as the contracts see it.
pub struct MarkView {
    pub kind: KindView,
    pub start: int,
    pub end: int,
}

impl View for Mark {
    type V = MarkView;

    open spec fn view(&self) -> MarkView {
        MarkView { kind: self.kind@, start: self.start as int, end: self.end as int }
    }
}

/// One replacement: the bytes `start..end` gave way to `new_len` others.
#[derive(Clone, Copy, Debug, PartialEq, Eq, Structural)]
pub struct TextEdit {
    pub start: usize,
    pub end: usize,
    pub new_len: usize,
}

/// Whether every mark covers something, and nothing past `len`.
pub open spec fn in_range(m: Seq<MarkView>, len: int) -> bool {
    forall|i: int| 0 <= i < m.len() ==> 0 <= (#[trigger] m[i]).start < m[i].end <= len
}

/// Whether some mark of kind `k` covers the byte `o`.
pub open spec fn covers(m: Seq<MarkView>, k: KindView, o: int) -> bool {
    exists|i: int| 0 <= i < m.len() && (#[trigger] m[i]).kind == k && m[i].start <= o < m[i].end
}

/// What is left of one mark when the kind of `k` is taken off `s..e`.
pub open spec fn cut_one(mark: MarkView, k: KindView, s: int, e: int) -> Seq<MarkView> {
    if mark.kind.tag() == k.tag() && mark.start < e && s < mark.end {
        let left = if mark.start < s {
            seq![MarkView { kind: mark.kind, start: mark.start, end: s }]
        } else {
            Seq::empty()
        };
        let right = if e < mark.end {
            seq![MarkView { kind: mark.kind, start: e, end: mark.end }]
        } else {
            Seq::empty()
        };
        left + right
    } else {
        seq![mark]
    }
}

/// `m` with the kind of `k` taken off the bytes `s..e`.
pub open spec fn cut_marks(m: Seq<MarkView>, k: KindView, s: int, e: int) -> Seq<MarkView>
    decreases m.len(),
{
    if s >= e {
        m
    } else if m.len() == 0 {
        Seq::empty()
    } else {
        cut_marks(m.drop_last(), k, s, e) + cut_one(m.last(), k, s, e)
    }
}

/// `m` with `k` put on the bytes `s..e`, in place of any mark of its kind.
pub open spec fn add_mark(m: Seq<MarkView>, k: KindView, s: int, e: int) -> Seq<MarkView> {
    if s >= e {
        m
    } else {
        cut_marks(m, k, s, e).push(MarkView { kind: k, start: s, end: e })
    }
}

/// `m` with each of `kinds` put on the bytes `s..e` in turn.
pub open spec fn add_marks(m: Seq<MarkView>, kinds: Seq<KindView>, s: int, e: int) -> Seq<MarkView>
    decreases kinds.len(),
{
    if kinds.len() == 0 {
        m
    } else {
        add_mark(add_marks(m, kinds.drop_last(), s, e), kinds.last(), s, e)
    }
}

/// `m` within a text of `len` bytes: ranges are cut off at its end, and a mark
/// that covers nothing is dropped.
pub open spec fn clamp_marks(m: Seq<MarkView>, len: int) -> Seq<MarkView>
    decreases m.len(),
{
    if m.len() == 0 {
        Seq::empty()
    } else {
        let mark = m.last();
        let end = if mark.end < len {
            mark.end
        } else {
            len
        };
        let rest = clamp_marks(m.drop_last(), len);
        if mark.start < end {
            rest.push(MarkView { kind: mark.kind, start: mark.start, end })
        } else {
            rest
        }
    }
}

/// Where the start of a mark lies after an edit: text put in front of it does
/// not join it.
pub open spec fn moved_start(p: int, e: TextEdit) -> int {
    if p < e.start {
        p
    } else if p >= e.end {
        p - (e.end - e.start) + e.new_len
    } else {
        e.start + e.new_len
    }
}

/// Where the end of a mark lies after an edit: text put behind it does not
/// join it.
pub open spec fn moved_end(p: int, e: TextEdit) -> int {
    if p <= e.start {
        p
    } else if p >= e.end {
        p - (e.end - e.start) + e.new_len
    } else {
        e.start as int
    }
}

/// `m` after the edit `e` of the text under it.
pub open spec fn remap_marks(m: Seq<MarkView>, e: TextEdit) -> Seq<MarkView>
    decreases m.len(),
{
    if m.len() == 0 {
        Seq::empty()
    } else {
        let mark = m.last();
        let start = moved_start(mark.start, e);
        let end = moved_end(mark.end, e);
        let rest = remap_marks(m.drop_last(), e);
        if start < end {
            rest.push(MarkView { kind: mark.kind, start, end })
        } else {
            rest
        }
    }
}

/// The kinds that text typed at the offset `at` continues, in order.
pub open spec fn active_kinds(m: Seq<MarkView>, at: int) -> Seq<KindView>
    decreases m.len(),
{
    if m.len() == 0 {
        Seq::empty()
    } else {
        let rest = active_kinds(m.drop_last(), at);
        if m.last().start < at <= m.last().end {
            rest.push(m.last().kind)
        } else {
            rest
        }
    }
}

/// The kinds over the byte `o`, in order.
pub open spec fn kinds_at(m: Seq<MarkView>, o: int) -> Seq<KindView>
    decreases m.len(),
{
    if m.len() == 0 {
        Seq::empty()
    } else {
        let rest = kinds_at(m.drop_last(), o);
        if m.last().start <= o < m.last().end {
            rest.push(m.last().kind)
        } else {
            rest
        }
    }
}

proof fn lemma_covers_push(m: Seq<MarkView>, mark: MarkView, k: KindView, o: int)
    ensures
        covers(m.push(mark), k, o) <==> covers(m, k, o) || (mark.kind == k && mark.start <= o
            < mark.end),
{
    let n = m.push(mark);
    if covers(m, k, o) {
        let i = choose|i: int|
            0 <= i < m.len() && (#[trigger] m[i]).kind == k && m[i].start <= o < m[i].end;
        assert(n[i] == m[i]);
    }
    if mark.kind == k && mark.start <= o < mark.end {
        assert(n[m.len() as int] == mark);
    }
    if covers(n, k, o) {
        let i = choose|i: int|
            0 <= i < n.len() && (#[trigger] n[i]).kind == k && n[i].start <= o < n[i].end;
        if i < m.len() {
            assert(n[i] == m[i]);
        }
    }
}

proof fn lemma_covers_concat(a: Seq<MarkView>, b: Seq<MarkView>, k: KindView, o: int)
    ensures
        covers(a + b, k, o) <==> covers(a, k, o) || covers(b, k, o),
    decreases b.len(),
{
    if b.len() == 0 {
        assert(a + b =~= a);
    } else {
        lemma_covers_concat(a, b.drop_last(), k, o);
        lemma_covers_push(a + b.drop_last(), b.last(), k, o);
        lemma_covers_push(b.drop_last(), b.last(), k, o);
        assert((a + b.drop_last()).push(b.last()) =~= a + b);
        assert(b.drop_last().push(b.last()) =~= b);
    }
}

/// Taking a kind off a range takes it off those bytes and leaves every other
/// byte and every other kind as it was.
pub proof fn law_cut(m: Seq<MarkView>, kind: KindView, s: int, e: int, k: KindView, o: int)
    ensures
        covers(cut_marks(m, kind, s, e), k, o) <==> covers(m, k, o) && !(k.tag() == kind.tag() && s
            <= o < e),
    decreases m.len(),
{
    if s < e && m.len() > 0 {
        law_cut(m.drop_last(), kind, s, e, k, o);
        let mark = m.last();
        let piece = cut_one(mark, kind, s, e);
        lemma_covers_concat(cut_marks(m.drop_last(), kind, s, e), piece, k, o);
        lemma_covers_push(m.drop_last(), mark, k, o);
        assert(m.drop_last().push(mark) =~= m);
        let empty = Seq::<MarkView>::empty();
        if mark.kind.tag() == kind.tag() && mark.start < e && s < mark.end {
            let left = MarkView { kind: mark.kind, start: mark.start, end: s };
            let right = MarkView { kind: mark.kind, start: e, end: mark.end };
            lemma_covers_push(empty, left, k, o);
            lemma_covers_push(empty, right, k, o);
            lemma_covers_concat(seq![left], seq![right], k, o);
            assert(empty.push(left) =~= seq![left]);
            assert(empty.push(right) =~= seq![right]);
            assert(seq![left] + empty =~= seq![left]);
            assert(empty + seq![right] =~= seq![right]);
            assert(empty + empty =~= empty);
            assert(!covers(empty, k, o));
        } else {
            lemma_covers_push(empty, mark, k, o);
            assert(empty.push(mark) =~= seq![mark]);
        }
    }
}

/// Putting a mark on a range covers exactly those bytes with it, in place of
/// any mark of its kind there, and leaves every other byte and kind as it was.
pub proof fn law_add(m: Seq<MarkView>, kind: KindView, s: int, e: int, k: KindView, o: int)
    ensures
        covers(add_mark(m, kind, s, e), k, o) <==> (k == kind && s <= o < e) || (covers(m, k, o)
            && !(k.tag() == kind.tag() && s <= o < e)),
{
    if s < e {
        law_cut(m, kind, s, e, k, o);
        lemma_covers_push(
            cut_marks(m, kind, s, e),
            MarkView { kind, start: s, end: e },
            k,
            o,
        );
    }
}

/// Clamping leaves every byte of the text as it was marked, and marks nothing
/// past its end.
pub proof fn law_clamp(m: Seq<MarkView>, len: int, k: KindView, o: int)
    ensures
        covers(clamp_marks(m, len), k, o) <==> covers(m, k, o) && o < len,
    decreases m.len(),
{
    if m.len() > 0 {
        law_clamp(m.drop_last(), len, k, o);
        let mark = m.last();
        lemma_covers_push(m.drop_last(), mark, k, o);
        assert(m.drop_last().push(mark) =~= m);
        let end = if mark.end < len {
            mark.end
        } else {
            len
        };
        lemma_covers_push(
            clamp_marks(m.drop_last(), len),
            MarkView { kind: mark.kind, start: mark.start, end },
            k,
            o,
        );
    }
}

/// Whether a mark of kind `k` covers the byte in front of the edit and
/// reaches past it.
pub open spec fn spans_edit(m: Seq<MarkView>, e: TextEdit, k: KindView) -> bool {
    exists|i: int|
        0 <= i < m.len() && (#[trigger] m[i]).kind == k && m[i].start < e.start && m[i].end > e.start
            && m[i].end >= e.end
}

/// An edit moves the marks with the text they are on: what stands before it
/// keeps its marks, what stands after it keeps them at its new place, and the
/// new text has the marks that span the edit.
pub proof fn law_remap(m: Seq<MarkView>, e: TextEdit, k: KindView, o: int)
    requires
        e.start <= e.end,
    ensures
        o < e.start ==> (covers(remap_marks(m, e), k, o) <==> covers(m, k, o)),
        o >= e.start + e.new_len ==> (covers(remap_marks(m, e), k, o) <==> covers(
            m,
            k,
            o - e.new_len + (e.end - e.start),
        )),
        e.start <= o < e.start + e.new_len ==> (covers(remap_marks(m, e), k, o) <==> spans_edit(
            m,
            e,
            k,
        )),
    decreases m.len(),
{
    if m.len() > 0 {
        let prior = m.drop_last();
        law_remap(prior, e, k, o);
        let mark = m.last();
        assert(prior.push(mark) =~= m);
        lemma_covers_push(prior, mark, k, o);
        lemma_covers_push(prior, mark, k, o - e.new_len + (e.end - e.start));
        let start = moved_start(mark.start, e);
        let end = moved_end(mark.end, e);
        lemma_covers_push(
            remap_marks(prior, e),
            MarkView { kind: mark.kind, start, end },
            k,
            o,
        );
        assert(spans_edit(m, e, k) <==> spans_edit(prior, e, k) || (mark.kind == k && mark.start
            < e.start && mark.end > e.start && mark.end >= e.end)) by {
            if spans_edit(prior, e, k) {
                let i = choose|i: int|
                    0 <= i < prior.len() && (#[trigger] prior[i]).kind == k && prior[i].start
                        < e.start && prior[i].end > e.start && prior[i].end >= e.end;
                assert(m[i] == prior[i]);
            }
            if mark.kind == k && mark.start < e.start && mark.end > e.start && mark.end >= e.end {
                assert(m[m.len() - 1] == mark);
            }
            if spans_edit(m, e, k) {
                let i = choose|i: int|
                    0 <= i < m.len() && (#[trigger] m[i]).kind == k && m[i].start < e.start
                        && m[i].end > e.start && m[i].end >= e.end;
                if i < prior.len() {
                    assert(m[i] == prior[i]);
                }
            }
        }
    }
}

proof fn lemma_in_range_concat(a: Seq<MarkView>, b: Seq<MarkView>, len: int)
    requires
        in_range(a, len),
        in_range(b, len),
    ensures
        in_range(a + b, len),
{
    assert forall|i: int| 0 <= i < (a + b).len() implies 0 <= (#[trigger] (a + b)[i]).start < (a
        + b)[i].end <= len by {
        if i < a.len() {
            assert((a + b)[i] == a[i]);
        } else {
            assert((a + b)[i] == b[i - a.len()]);
        }
    }
}

/// Taking a kind off a range leaves the marks in range.
pub proof fn lemma_cut_in_range(m: Seq<MarkView>, k: KindView, s: int, e: int, len: int)
    requires
        in_range(m, len),
        0 <= s,
    ensures
        in_range(cut_marks(m, k, s, e), len),
    decreases m.len(),
{
    if s < e && m.len() > 0 {
        assert(in_range(m.drop_last(), len)) by {
            assert forall|i: int| 0 <= i < m.drop_last().len() implies 0 <= (
            #[trigger] m.drop_last()[i]).start < m.drop_last()[i].end <= len by {
                assert(m.drop_last()[i] == m[i]);
            }
        }
        lemma_cut_in_range(m.drop_last(), k, s, e, len);
        assert(0 <= m[m.len() - 1].start < m[m.len() - 1].end <= len);
        lemma_in_range_concat(
            cut_marks(m.drop_last(), k, s, e),
            cut_one(m.last(), k, s, e),
            len,
        );
    }
}

/// Putting a mark on a range of the text leaves the marks in range.
pub proof fn lemma_add_in_range(m: Seq<MarkView>, k: KindView, s: int, e: int, len: int)
    requires
        in_range(m, len),
        0 <= s,
        e <= len,
    ensures
        in_range(add_mark(m, k, s, e), len),
{
    if s < e {
        lemma_cut_in_range(m, k, s, e, len);
        let cut = cut_marks(m, k, s, e);
        let mark = MarkView { kind: k, start: s, end: e };
        lemma_in_range_concat(cut, seq![mark], len);
        assert(cut.push(mark) =~= cut + seq![mark]);
    }
}

/// Putting several marks on a range of the text leaves the marks in range.
pub proof fn lemma_adds_in_range(m: Seq<MarkView>, kinds: Seq<KindView>, s: int, e: int, len: int)
    requires
        in_range(m, len),
        0 <= s,
        e <= len,
    ensures
        in_range(add_marks(m, kinds, s, e), len),
    decreases kinds.len(),
{
    if kinds.len() > 0 {
        lemma_adds_in_range(m, kinds.drop_last(), s, e, len);
        lemma_add_in_range(add_marks(m, kinds.drop_last(), s, e), kinds.last(), s, e, len);
    }
}

/// What clamping leaves is in range.
pub proof fn lemma_clamp_in_range(m: Seq<MarkView>, len: int)
    requires
        forall|i: int| 0 <= i < m.len() ==> 0 <= (#[trigger] m[i]).start,
    ensures
        in_range(clamp_marks(m, len), len),
    decreases m.len(),
{
    if m.len() > 0 {
        assert forall|i: int| 0 <= i < m.drop_last().len() implies 0 <= (
        #[trigger] m.drop_last()[i]).start by {
            assert(m.drop_last()[i] == m[i]);
        }
        lemma_clamp_in_range(m.drop_last(), len);
        assert(0 <= m[m.len() - 1].start);
        let mark = m.last();
        let end = if mark.end < len {
            mark.end
        } else {
            len
        };
        let piece = MarkView { kind: mark.kind, start: mark.start, end };
        if mark.start < end {
            lemma_in_range_concat(clamp_marks(m.drop_last(), len), seq![piece], len);
            assert(clamp_marks(m.drop_last(), len).push(piece) =~= clamp_marks(m.drop_last(), len)
                + seq![piece]);
        }
    }
}

/// Marks that are in range already are left alone by clamping.
pub proof fn lemma_clamp_noop(m: Seq<MarkView>, len: int)
    requires
        in_range(m, len),
    ensures
        clamp_marks(m, len) == m,
    decreases m.len(),
{
    if m.len() > 0 {
        assert forall|i: int| 0 <= i < m.drop_last().len() implies 0 <= (
        #[trigger] m.drop_last()[i]).start < m.drop_last()[i].end <= len by {
            assert(m.drop_last()[i] == m[i]);
        }
        lemma_clamp_noop(m.drop_last(), len);
        assert(0 <= m[m.len() - 1].start < m[m.len() - 1].end <= len);
        assert(m.drop_last().push(m.last()) =~= m);
    }
}

/// Marks moved with an edit are in range of the edited text.
pub proof fn lemma_remap_in_range(m: Seq<MarkView>, e: TextEdit, len: int)
    requires
        in_range(m, len),
        e.start <= e.end <= len,
    ensures
        in_range(remap_marks(m, e), len - (e.end - e.start) + e.new_len),
    decreases m.len(),
{
    if m.len() > 0 {
        assert forall|i: int| 0 <= i < m.drop_last().len() implies 0 <= (
        #[trigger] m.drop_last()[i]).start < m.drop_last()[i].end <= len by {
            assert(m.drop_last()[i] == m[i]);
        }
        lemma_remap_in_range(m.drop_last(), e, len);
        assert(0 <= m[m.len() - 1].start < m[m.len() - 1].end <= len);
        let mark = m.last();
        let start = moved_start(mark.start, e);
        let end = moved_end(mark.end, e);
        let piece = MarkView { kind: mark.kind, start, end };
        if start < end {
            let rest = remap_marks(m.drop_last(), e);
            lemma_in_range_concat(rest, seq![piece], len - (e.end - e.start) + e.new_len);
            assert(rest.push(piece) =~= rest + seq![piece]);
        }
    }
}

/// The marks of a block, in the order they were put on.
#[derive(Clone, Debug, PartialEq, Eq)]
pub struct Marks {
    pub items: Vec<Mark>,
}

/// The views of a list of marks.
pub open spec fn mark_views(items: Seq<Mark>) -> Seq<MarkView> {
    items.map_values(|mark: Mark| mark@)
}

impl View for Marks {
    type V = Seq<MarkView>;

    open spec fn view(&self) -> Seq<MarkView> {
        mark_views(self.items@)
    }
}

proof fn lemma_views_push(items: Seq<Mark>, mark: Mark)
    ensures
        mark_views(items.push(mark)) == mark_views(items).push(mark@),
{
    assert(mark_views(items.push(mark)) =~= mark_views(items).push(mark@));
}

proof fn lemma_take_step(m: Seq<MarkView>, i: int)
    requires
        0 <= i < m.len(),
    ensures
        m.take(i + 1).drop_last() == m.take(i),
        m.take(i + 1).last() == m[i],
{
    assert(m.take(i + 1).drop_last() =~= m.take(i));
}

impl Marks {
    /// No marks.
    pub fn new() -> (marks: Marks)
        ensures
            marks@ == Seq::<MarkView>::empty(),
    {
        let marks = Marks { items: Vec::new() };
        assert(marks@ =~= Seq::<MarkView>::empty());
        marks
    }

    /// The same marks again.
    pub fn copy(&self) -> (marks: Marks)
        ensures
            marks@ == self@,
    {
        let mut items: Vec<Mark> = Vec::new();
        let mut i: usize = 0;
        while i < self.items.len()
            invariant
                i <= self.items@.len(),
                mark_views(items@) == self@.take(i as int),
            decreases self.items@.len() - i,
        {
            let mark = &self.items[i];
            let ghost done = items@;
            items.push(Mark { kind: mark.kind.copy(), start: mark.start, end: mark.end });
            proof {
                lemma_views_push(done, items@.last());
                assert(items@ =~= done.push(items@.last()));
                assert(self@.take(i + 1) =~= self@.take(i as int).push(self@[i as int]));
            }
            i = i + 1;
        }
        assert(self@.take(i as int) =~= self@);
        Marks { items }
    }

    /// Whether there are none.
    pub fn is_empty(&self) -> (empty: bool)
        ensures
            empty == (self@.len() == 0),
    {
        self.items.len() == 0
    }

    /// Take every mark off.
    pub fn clear(&mut self)
        ensures
            final(self)@ == Seq::<MarkView>::empty(),
    {
        self.items = Vec::new();
        assert(self@ =~= Seq::<MarkView>::empty());
    }

    /// Take the kind of `kind` off the bytes `start..end`.
    pub fn remove(&mut self, kind: &MarkKind, start: usize, end: usize)
        ensures
            final(self)@ == cut_marks(old(self)@, kind@, start as int, end as int),
    {
        if start >= end {
            return;
        }
        let ghost m = self@;
        let ghost k = kind@;
        let mut items: Vec<Mark> = Vec::new();
        let mut i: usize = 0;
        while i < self.items.len()
            invariant
                start < end,
                k == kind@,
                m == self@,
                m == old(self)@,
                i <= self.items@.len(),
                mark_views(items@) == cut_marks(m.take(i as int), k, start as int, end as int),
            decreases self.items@.len() - i,
        {
            let mark = &self.items[i];
            let ghost done = items@;
            proof {
                lemma_take_step(m, i as int);
            }
            if mark.kind.same_kind(kind) && mark.start < end && start < mark.end {
                if mark.start < start {
                    items.push(Mark { kind: mark.kind.copy(), start: mark.start, end: start });
                    proof {
                        lemma_views_push(done, items@.last());
                        assert(items@ =~= done.push(items@.last()));
                    }
                }
                let ghost mid = items@;
                if end < mark.end {
                    items.push(Mark { kind: mark.kind.copy(), start: end, end: mark.end });
                    proof {
                        lemma_views_push(mid, items@.last());
                        assert(items@ =~= mid.push(items@.last()));
                    }
                }
            } else {
                items.push(Mark { kind: mark.kind.copy(), start: mark.start, end: mark.end });
                proof {
                    lemma_views_push(done, items@.last());
                    assert(items@ =~= done.push(items@.last()));
                }
            }
            assert(mark_views(items@) =~= mark_views(done) + cut_one(
                m[i as int],
                k,
                start as int,
                end as int,
            ));
            i = i + 1;
        }
        assert(m.take(i as int) =~= m);
        self.items = items;
    }

    /// Put `kind` on the bytes `start..end`, in place of any mark of its kind.
    pub fn add(&mut self, kind: MarkKind, start: usize, end: usize)
        ensures
            final(self)@ == add_mark(old(self)@, kind@, start as int, end as int),
    {
        if start >= end {
            return;
        }
        self.remove(&kind, start, end);
        let ghost done = self.items@;
        self.items.push(Mark { kind, start, end });
        proof {
            lemma_views_push(done, self.items@.last());
            assert(self.items@ =~= done.push(self.items@.last()));
        }
    }

    /// Cut the marks off at the end of a text of `len` bytes.
    pub fn clamp(&mut self, len: usize)
        ensures
            final(self)@ == clamp_marks(old(self)@, len as int),
    {
        let ghost m = self@;
        let mut items: Vec<Mark> = Vec::new();
        let mut i: usize = 0;
        while i < self.items.len()
            invariant
                m == self@,
                m == old(self)@,
                i <= self.items@.len(),
                mark_views(items@) == clamp_marks(m.take(i as int), len as int),
            decreases self.items@.len() - i,
        {
            let mark = &self.items[i];
            let ghost done = items@;
            proof {
                lemma_take_step(m, i as int);
            }
            let end: usize = if mark.end < len {
                mark.end
            } else {
                len
            };
            if mark.start < end {
                items.push(Mark { kind: mark.kind.copy(), start: mark.start, end });
                proof {
                    lemma_views_push(done, items@.last());
                    assert(items@ =~= done.push(items@.last()));
                }
            }
            i = i + 1;
        }
        assert(m.take(i as int) =~= m);
        self.items = items;
    }

    /// Move the marks with an edit of a text of `len` bytes.
    pub fn remap(&mut self, edit: &TextEdit, len: usize)
        requires
            in_range(old(self)@, len as int),
            edit.start <= edit.end <= len,
            len - (edit.end - edit.start) + edit.new_len <= usize::MAX,
        ensures
            final(self)@ == remap_marks(old(self)@, *edit),
    {
        let ghost m = self@;
        let mut items: Vec<Mark> = Vec::new();
        let mut i: usize = 0;
        while i < self.items.len()
            invariant
                m == self@,
                m == old(self)@,
                in_range(m, len as int),
                edit.start <= edit.end <= len,
                len - (edit.end - edit.start) + edit.new_len <= usize::MAX,
                i <= self.items@.len(),
                mark_views(items@) == remap_marks(m.take(i as int), *edit),
            decreases self.items@.len() - i,
        {
            let mark = &self.items[i];
            let ghost done = items@;
            proof {
                lemma_take_step(m, i as int);
                assert(m[i as int] == mark@);
                assert(0 <= m[i as int].start < m[i as int].end <= len);
            }
            let start: usize = if mark.start < edit.start {
                mark.start
            } else if mark.start >= edit.end {
                mark.start - (edit.end - edit.start) + edit.new_len
            } else {
                edit.start + edit.new_len
            };
            let end: usize = if mark.end <= edit.start {
                mark.end
            } else if mark.end >= edit.end {
                mark.end - (edit.end - edit.start) + edit.new_len
            } else {
                edit.start
            };
            if start < end {
                items.push(Mark { kind: mark.kind.copy(), start, end });
                proof {
                    lemma_views_push(done, items@.last());
                    assert(items@ =~= done.push(items@.last()));
                }
            }
            i = i + 1;
        }
        assert(m.take(i as int) =~= m);
        self.items = items;
    }

    /// The kinds that text typed at the offset `at` continues.
    pub fn active(&self, at: usize) -> (kinds: Vec<MarkKind>)
        ensures
            kind_views(kinds@) == active_kinds(self@, at as int),
    {
        let ghost m = self@;
        let mut kinds: Vec<MarkKind> = Vec::new();
        let mut i: usize = 0;
        while i < self.items.len()
            invariant
                m == self@,
                i <= self.items@.len(),
                kind_views(kinds@) == active_kinds(m.take(i as int), at as int),
            decreases self.items@.len() - i,
        {
            let mark = &self.items[i];
            let ghost done = kinds@;
            proof {
                lemma_take_step(m, i as int);
            }
            if mark.start < at && at <= mark.end {
                kinds.push(mark.kind.copy());
                assert(kind_views(kinds@) =~= kind_views(done).push(mark.kind@));
            }
            i = i + 1;
        }
        assert(m.take(i as int) =~= m);
        kinds
    }

    /// The kinds over the byte `at`.
    pub fn kinds_over(&self, at: usize) -> (kinds: Vec<MarkKind>)
        ensures
            kind_views(kinds@) == kinds_at(self@, at as int),
    {
        let ghost m = self@;
        let mut kinds: Vec<MarkKind> = Vec::new();
        let mut i: usize = 0;
        while i < self.items.len()
            invariant
                m == self@,
                i <= self.items@.len(),
                kind_views(kinds@) == kinds_at(m.take(i as int), at as int),
            decreases self.items@.len() - i,
        {
            let mark = &self.items[i];
            let ghost done = kinds@;
            proof {
                lemma_take_step(m, i as int);
            }
            if mark.start <= at && at < mark.end {
                kinds.push(mark.kind.copy());
                assert(kind_views(kinds@) =~= kind_views(done).push(mark.kind@));
            }
            i = i + 1;
        }
        assert(m.take(i as int) =~= m);
        kinds
    }

    /// The mark of the kind of `kind` over the byte `at`, if there is one.
    pub fn mark_at(&self, kind: &MarkKind, at: usize) -> (found: Option<&Mark>)
        ensures
            match found {
                Some(mark) => exists|i: int|
                    0 <= i < self.items@.len() && self.items@[i] == *mark
                        && marked_at(self@, kind@, at as int, i),
                None => forall|i: int| !marked_at(self@, kind@, at as int, i),
            },
    {
        let mut i: usize = 0;
        while i < self.items.len()
            invariant
                i <= self.items@.len(),
                forall|j: int| 0 <= j < i ==> !marked_at(self@, kind@, at as int, j),
            decreases self.items@.len() - i,
        {
            let mark = &self.items[i];
            assert(self@[i as int] == mark@);
            if mark.kind.same_kind(kind) && mark.start <= at && at < mark.end {
                assert(marked_at(self@, kind@, at as int, i as int));
                return Some(mark);
            }
            i = i + 1;
        }
        None
    }

    /// Whether every byte of `start..end` carries a mark of the kind of
    /// `kind`. An empty range carries none.
    pub fn has(&self, kind: &MarkKind, start: usize, end: usize) -> (found: bool)
        ensures
            found == has_mark(self@, kind@, start as int, end as int),
    {
        if start >= end {
            return false;
        }
        let mut at: usize = start;
        while at < end
            invariant
                start <= at <= end,
                forall|o: int| start <= o < at ==> byte_marked(self@, kind@, o),
            decreases end - at,
        {
            if self.mark_at(kind, at).is_none() {
                assert(!byte_marked(self@, kind@, at as int));
                return false;
            }
            assert(byte_marked(self@, kind@, at as int));
            at = at + 1;
        }
        true
    }
}

/// Whether the mark `i` is of the kind of `k` and covers the byte `o`.
pub open spec fn marked_at(m: Seq<MarkView>, k: KindView, o: int, i: int) -> bool {
    0 <= i < m.len() && m[i].kind.tag() == k.tag() && m[i].start <= o < m[i].end
}

/// Whether some mark of the kind of `k` covers the byte `o`.
pub open spec fn byte_marked(m: Seq<MarkView>, k: KindView, o: int) -> bool {
    exists|i: int| marked_at(m, k, o, i)
}

/// Whether every byte of the non-empty range `s..e` carries the kind of `k`.
pub open spec fn has_mark(m: Seq<MarkView>, k: KindView, s: int, e: int) -> bool {
    s < e && forall|o: int| s <= o < e ==> #[trigger] byte_marked(m, k, o)
}

/// The nearer of `best` and the edge `p`, where `p` lies past `o`.
pub open spec fn nearer(best: Option<int>, p: int, o: int) -> Option<int> {
    if p > o && (best is None || p < best->0) {
        Some(p)
    } else {
        best
    }
}

/// The first place past `o` where a mark starts or ends.
pub open spec fn next_edge(m: Seq<MarkView>, o: int) -> Option<int>
    decreases m.len(),
{
    if m.len() == 0 {
        None
    } else {
        nearer(nearer(next_edge(m.drop_last(), o), m.last().start, o), m.last().end, o)
    }
}

/// A stretch of text whose bytes all carry the same marks.
#[derive(Clone, Debug, PartialEq, Eq)]
pub struct Run {
    pub start: usize,
    pub end: usize,
    pub kinds: Vec<MarkKind>,
}

/// A [`Run`] as the contracts see it.
pub struct RunView {
    pub start: int,
    pub end: int,
    pub kinds: Seq<KindView>,
}

impl View for Run {
    type V = RunView;

    open spec fn view(&self) -> RunView {
        RunView { start: self.start as int, end: self.end as int, kinds: kind_views(self.kinds@) }
    }
}

/// The views of a list of runs.
pub open spec fn run_views(runs: Seq<Run>) -> Seq<RunView> {
    runs.map_values(|run: Run| run@)
}

/// The runs of a text of `len` bytes from the offset `o` on: from each edge of
/// a mark to the next, where anything is marked in between.
pub open spec fn runs_from(m: Seq<MarkView>, o: int, len: int) -> Seq<RunView>
    decreases len - o,
{
    match next_edge(m, o) {
        Some(n) => if o < n <= len {
            let kinds = kinds_at(m, o);
            if kinds.len() > 0 {
                seq![RunView { start: o, end: n, kinds }] + runs_from(m, n, len)
            } else {
                runs_from(m, n, len)
            }
        } else {
            Seq::empty()
        },
        None => Seq::empty(),
    }
}

/// The runs of a text of `len` bytes.
pub open spec fn mark_runs(m: Seq<MarkView>, len: int) -> Seq<RunView> {
    runs_from(m, 0, len)
}

proof fn lemma_next_edge(m: Seq<MarkView>, o: int)
    ensures
        next_edge(m, o) matches Some(n) ==> n > o,
        next_edge(m, o) matches Some(n) ==> exists|i: int|
            0 <= i < m.len() && ((#[trigger] m[i]).start == n || m[i].end == n),
        forall|i: int|
            0 <= i < m.len() && (#[trigger] m[i]).start > o ==> (next_edge(m, o) matches Some(n)
                && n <= m[i].start),
        forall|i: int|
            0 <= i < m.len() && (#[trigger] m[i]).end > o ==> (next_edge(m, o) matches Some(n) && n
                <= m[i].end),
    decreases m.len(),
{
    if m.len() > 0 {
        let prior = m.drop_last();
        lemma_next_edge(prior, o);
        let a = next_edge(prior, o);
        let b = nearer(a, m.last().start, o);
        let c = nearer(b, m.last().end, o);
        if c is Some {
            if c == a {
                let i = choose|i: int|
                    0 <= i < prior.len() && ((#[trigger] prior[i]).start == a->0 || prior[i].end
                        == a->0);
                assert(m[i] == prior[i]);
            } else {
                assert(m[m.len() - 1] == m.last());
            }
        }
        assert forall|i: int| 0 <= i < m.len() && (#[trigger] m[i]).start > o implies (next_edge(
            m,
            o,
        ) matches Some(n) && n <= m[i].start) by {
            if i < prior.len() {
                assert(m[i] == prior[i]);
            }
        }
        assert forall|i: int| 0 <= i < m.len() && (#[trigger] m[i]).end > o implies (next_edge(
            m,
            o,
        ) matches Some(n) && n <= m[i].end) by {
            if i < prior.len() {
                assert(m[i] == prior[i]);
            }
        }
    }
}

proof fn lemma_kinds_same(m: Seq<MarkView>, o: int, x: int)
    requires
        o <= x,
        forall|i: int|
            0 <= i < m.len() ==> ((#[trigger] m[i]).start <= o <==> m[i].start <= x) && (m[i].end <= o
                <==> m[i].end <= x),
    ensures
        kinds_at(m, x) == kinds_at(m, o),
    decreases m.len(),
{
    if m.len() > 0 {
        assert forall|i: int| 0 <= i < m.drop_last().len() implies ((
        #[trigger] m.drop_last()[i]).start <= o <==> m.drop_last()[i].start <= x) && (
        m.drop_last()[i].end <= o <==> m.drop_last()[i].end <= x) by {
            assert(m.drop_last()[i] == m[i]);
        }
        lemma_kinds_same(m.drop_last(), o, x);
        assert(m[m.len() - 1] == m.last());
    }
}

proof fn lemma_kinds_none(m: Seq<MarkView>, x: int)
    requires
        forall|i: int| 0 <= i < m.len() ==> (#[trigger] m[i]).end <= x,
    ensures
        kinds_at(m, x).len() == 0,
    decreases m.len(),
{
    if m.len() > 0 {
        assert forall|i: int| 0 <= i < m.drop_last().len() implies (
        #[trigger] m.drop_last()[i]).end <= x by {
            assert(m.drop_last()[i] == m[i]);
        }
        lemma_kinds_none(m.drop_last(), x);
        assert(m[m.len() - 1].end <= x);
    }
}

/// Whether the byte `o` lies in the run `i`.
pub open spec fn in_run(runs: Seq<RunView>, i: int, o: int) -> bool {
    0 <= i < runs.len() && runs[i].start <= o < runs[i].end
}

/// Whether `runs` are non-empty stretches of `from..len`, in order and apart.
pub open spec fn runs_ordered(runs: Seq<RunView>, from: int, len: int) -> bool {
    &&& forall|i: int|
        0 <= i < runs.len() ==> from <= (#[trigger] runs[i]).start < runs[i].end <= len
            && runs[i].kinds.len() > 0
    &&& forall|i: int, j: int|
        0 <= i < j < runs.len() ==> (#[trigger] runs[i]).end <= (#[trigger] runs[j]).start
}

proof fn lemma_runs_from(m: Seq<MarkView>, from: int, len: int)
    requires
        in_range(m, len),
        0 <= from,
    ensures
        runs_ordered(runs_from(m, from, len), from, len),
        forall|i: int, o: int| #[trigger]
            in_run(runs_from(m, from, len), i, o) ==> kinds_at(m, o) == runs_from(
                m,
                from,
                len,
            )[i].kinds,
        forall|o: int|
            from <= o && (#[trigger] kinds_at(m, o)).len() > 0 ==> exists|i: int|
                in_run(runs_from(m, from, len), i, o),
    decreases len - from,
{
    let runs = runs_from(m, from, len);
    lemma_next_edge(m, from);
    match next_edge(m, from) {
        Some(n) => {
            let e = choose|i: int|
                0 <= i < m.len() && ((#[trigger] m[i]).start == n || m[i].end == n);
            assert(m[e].start < m[e].end <= len);
            lemma_runs_from(m, n, len);
            let rest = runs_from(m, n, len);
            let kinds = kinds_at(m, from);
            assert forall|o: int| from <= o < n implies kinds_at(m, o) == kinds by {
                assert forall|i: int| 0 <= i < m.len() implies ((#[trigger] m[i]).start <= from
                    <==> m[i].start <= o) && (m[i].end <= from <==> m[i].end <= o) by {}
                lemma_kinds_same(m, from, o);
            }
            if kinds.len() > 0 {
                let first = RunView { start: from, end: n, kinds };
                assert(runs =~= seq![first] + rest);
                assert forall|i: int, o: int| #[trigger] in_run(runs, i, o) implies kinds_at(m, o)
                    == runs[i].kinds by {
                    if i > 0 {
                        assert(runs[i] == rest[i - 1]);
                        assert(in_run(rest, i - 1, o));
                    }
                }
                assert forall|o: int| from <= o && (#[trigger] kinds_at(m, o)).len()
                    > 0 implies exists|i: int| in_run(runs, i, o) by {
                    if o < n {
                        assert(in_run(runs, 0, o));
                    } else {
                        let i = choose|i: int| in_run(rest, i, o);
                        assert(runs[i + 1] == rest[i]);
                        assert(in_run(runs, i + 1, o));
                    }
                }
                assert forall|i: int| 0 <= i < runs.len() implies from <= (#[trigger] runs[i]).start
                    < runs[i].end <= len && runs[i].kinds.len() > 0 by {
                    if i > 0 {
                        assert(runs[i] == rest[i - 1]);
                    }
                }
                assert forall|i: int, j: int| 0 <= i < j < runs.len() implies (
                #[trigger] runs[i]).end <= (#[trigger] runs[j]).start by {
                    assert(runs[j] == rest[j - 1]);
                    if i > 0 {
                        assert(runs[i] == rest[i - 1]);
                    }
                }
            } else {
                assert(runs == rest);
            }
        },
        None => {
            assert forall|o: int| from <= o implies (#[trigger] kinds_at(m, o)).len() == 0 by {
                lemma_kinds_none(m, o);
            }
        },
    }
}

/// The runs of a text paint every byte with exactly the marks over it: within
/// a run every byte carries the run's kinds, in order, and a byte that carries
/// any lies in a run. The runs are in order and do not overlap.
pub proof fn law_runs(m: Seq<MarkView>, len: int)
    requires
        in_range(m, len),
    ensures
        runs_ordered(mark_runs(m, len), 0, len),
        forall|i: int, o: int| #[trigger]
            in_run(mark_runs(m, len), i, o) ==> kinds_at(m, o) == mark_runs(m, len)[i].kinds,
        forall|o: int|
            0 <= o && (#[trigger] kinds_at(m, o)).len() > 0 ==> exists|i: int|
                in_run(mark_runs(m, len), i, o),
{
    lemma_runs_from(m, 0, len);
    let runs = runs_from(m, 0, len);
    assert(mark_runs(m, len) == runs);
    assert forall|o: int| 0 <= o && (#[trigger] kinds_at(m, o)).len() > 0 implies exists|i: int|
        in_run(mark_runs(m, len), i, o) by {
        let i = choose|i: int| in_run(runs, i, o);
        assert(in_run(mark_runs(m, len), i, o));
    }
}

impl Marks {
    fn next_edge(&self, o: usize) -> (edge: Option<usize>)
        ensures
            match edge {
                Some(n) => next_edge(self@, o as int) == Some(n as int),
                None => next_edge(self@, o as int) is None,
            },
    {
        let ghost m = self@;
        let mut edge: Option<usize> = None;
        let mut i: usize = 0;
        while i < self.items.len()
            invariant
                m == self@,
                i <= self.items@.len(),
                match edge {
                    Some(n) => next_edge(m.take(i as int), o as int) == Some(n as int),
                    None => next_edge(m.take(i as int), o as int) is None,
                },
            decreases self.items@.len() - i,
        {
            let mark = &self.items[i];
            proof {
                lemma_take_step(m, i as int);
                assert(m[i as int] == mark@);
            }
            if mark.start > o && (edge.is_none() || mark.start < edge.unwrap()) {
                edge = Some(mark.start);
            }
            if mark.end > o && (edge.is_none() || mark.end < edge.unwrap()) {
                edge = Some(mark.end);
            }
            i = i + 1;
        }
        assert(m.take(i as int) =~= m);
        edge
    }

    /// The runs of a text of `len` bytes, for painting.
    pub fn runs(&self, len: usize) -> (runs: Vec<Run>)
        ensures
            run_views(runs@) == mark_runs(self@, len as int),
    {
        let ghost m = self@;
        let mut runs: Vec<Run> = Vec::new();
        let mut at: usize = 0;
        assert(run_views(runs@) + runs_from(m, 0, len as int) =~= mark_runs(m, len as int));
        loop
            invariant
                m == self@,
                run_views(runs@) + runs_from(m, at as int, len as int) == mark_runs(m, len as int),
            decreases len - at,
        {
            let ghost done = runs@;
            proof {
                lemma_next_edge(m, at as int);
            }
            match self.next_edge(at) {
                Some(next) => {
                    if next > len {
                        assert(run_views(runs@) + Seq::empty() =~= run_views(runs@));
                        return runs;
                    }
                    let kinds = self.kinds_over(at);
                    if kinds.len() > 0 {
                        runs.push(Run { start: at, end: next, kinds });
                        let ghost first = runs@.last()@;
                        assert(run_views(runs@) =~= run_views(done) + seq![first]);
                        assert(run_views(done) + (seq![first] + runs_from(
                            m,
                            next as int,
                            len as int,
                        )) =~= run_views(runs@) + runs_from(m, next as int, len as int));
                    }
                    at = next;
                },
                None => {
                    assert(run_views(runs@) + Seq::empty() =~= run_views(runs@));
                    return runs;
                },
            }
        }
    }
}

/// How many characters `a` and `b` have in common at their start.
pub open spec fn common_prefix(a: Seq<char>, b: Seq<char>) -> int
    decreases a.len(),
{
    if a.len() > 0 && b.len() > 0 && a[0] == b[0] {
        1 + common_prefix(a.drop_first(), b.drop_first())
    } else {
        0
    }
}

/// How many characters `a` and `b` have in common at their end.
pub open spec fn common_suffix(a: Seq<char>, b: Seq<char>) -> int
    decreases a.len(),
{
    if a.len() > 0 && b.len() > 0 && a.last() == b.last() {
        1 + common_suffix(a.drop_last(), b.drop_last())
    } else {
        0
    }
}

/// How many characters of `b` are new, given that it was `a`: those between
/// what the two have in common at their start and at their end.
pub open spec fn new_chars(a: Seq<char>, b: Seq<char>) -> int {
    b.len() - common_prefix(a, b) - common_suffix(
        a.skip(common_prefix(a, b)),
        b.skip(common_prefix(a, b)),
    )
}

/// The edit that turns `a` into `b`.
pub open spec fn edit_between(a: Seq<char>, b: Seq<char>) -> TextEdit {
    let p = common_prefix(a, b);
    let n = new_chars(a, b);
    TextEdit {
        start: crate::text::blen(a.take(p)) as usize,
        end: crate::text::blen(a.take(a.len() - (b.len() - p - n))) as usize,
        new_len: crate::text::blen(b.subrange(p, p + n)) as usize,
    }
}

proof fn lemma_common_prefix(a: Seq<char>, b: Seq<char>)
    ensures
        0 <= common_prefix(a, b) <= a.len(),
        common_prefix(a, b) <= b.len(),
        a.take(common_prefix(a, b)) == b.take(common_prefix(a, b)),
    decreases a.len(),
{
    let p = common_prefix(a, b);
    if a.len() > 0 && b.len() > 0 && a[0] == b[0] {
        let x = a.drop_first();
        let y = b.drop_first();
        lemma_common_prefix(x, y);
        assert forall|i: int| 0 <= i < p implies a[i] == b[i] by {
            if i > 0 {
                assert(x.take(p - 1)[i - 1] == y.take(p - 1)[i - 1]);
            }
        }
    }
    assert(a.take(p) =~= b.take(p));
}

proof fn lemma_common_suffix(a: Seq<char>, b: Seq<char>)
    ensures
        0 <= common_suffix(a, b) <= a.len(),
        common_suffix(a, b) <= b.len(),
        a.skip(a.len() - common_suffix(a, b)) == b.skip(b.len() - common_suffix(a, b)),
    decreases a.len(),
{
    let q = common_suffix(a, b);
    if a.len() > 0 && b.len() > 0 && a.last() == b.last() {
        let x = a.drop_last();
        let y = b.drop_last();
        lemma_common_suffix(x, y);
        assert forall|i: int| 0 <= i < q implies (#[trigger] a.skip(a.len() - q)[i]) == b.skip(
            b.len() - q,
        )[i] by {
            if i < q - 1 {
                let u = x.skip(x.len() - (q - 1));
                let v = y.skip(y.len() - (q - 1));
                assert(u[i] == v[i]);
            }
        }
    }
    assert(a.skip(a.len() - q) =~= b.skip(b.len() - q));
}

/// The edit between two texts turns the one into the other: replacing its
/// range in `a` by the stretch of `b` it names gives `b`.
#[verifier::spinoff_prover]
#[verifier::rlimit(40)]
pub proof fn law_edit_between(a: Seq<char>, b: Seq<char>)
    requires
        crate::text::blen(a) <= usize::MAX,
        crate::text::blen(b) <= usize::MAX,
    ensures
        ({
            let e = edit_between(a, b);
            let new = crate::text::slice(b, e.start as int, e.start + e.new_len);
            &&& e.start <= e.end <= crate::text::blen(a)
            &&& crate::text::boundary(a, e.start as int)
            &&& crate::text::boundary(a, e.end as int)
            &&& crate::text::boundary(b, e.start as int)
            &&& crate::text::boundary(b, e.start + e.new_len)
            &&& crate::text::blen(b) == crate::text::blen(a) - (e.end - e.start) + e.new_len
            &&& crate::text::splice(a, e.start as int, e.end as int, new) == b
        }),
{
    let p = common_prefix(a, b);
    lemma_common_prefix(a, b);
    let q = common_suffix(a.skip(p), b.skip(p));
    lemma_common_suffix(a.skip(p), b.skip(p));
    let n = b.len() - p - q;
    assert(n == new_chars(a, b));
    let x = a.take(p);
    let old_mid = a.subrange(p, a.len() - q);
    let new_mid = b.subrange(p, p + n);
    let tail = a.skip(a.len() - q);
    assert(tail =~= a.skip(p).skip(a.skip(p).len() - q));
    assert(b.skip(b.len() - q) =~= b.skip(p).skip(b.skip(p).len() - q));
    assert(a =~= x + old_mid + tail);
    assert(b =~= x + new_mid + tail);
    assert(a.take(a.len() - q) =~= x + old_mid);
    crate::text::lemma_join(x + old_mid, tail);
    crate::text::lemma_join(x, old_mid);
    crate::text::lemma_join(x, old_mid + tail);
    assert(x + (old_mid + tail) =~= a);
    crate::text::lemma_join(x + new_mid, tail);
    crate::text::lemma_join(x, new_mid);
    crate::text::lemma_join(x, new_mid + tail);
    assert(x + (new_mid + tail) =~= b);
}

/// The edit that turned `old_text` into `new_text`, if they differ.
pub fn diff_edit(old_text: &str, new_text: &str) -> (edit: Option<TextEdit>)
    ensures
        edit is None <==> old_text@ == new_text@,
        edit matches Some(e) ==> e == edit_between(old_text@, new_text@),
{
    let a = crate::text::to_chars(old_text);
    let b = crate::text::to_chars(new_text);
    let mut p: usize = 0;
    assert(a@.skip(0) =~= a@ && b@.skip(0) =~= b@);
    while p < a.len() && p < b.len() && a[p] == b[p]
        invariant
            p <= a@.len(),
            p <= b@.len(),
            common_prefix(a@, b@) == p + common_prefix(a@.skip(p as int), b@.skip(p as int)),
            a@.take(p as int) == b@.take(p as int),
        decreases a@.len() - p,
    {
        assert(a@.skip(p as int).drop_first() =~= a@.skip(p + 1));
        assert(b@.skip(p as int).drop_first() =~= b@.skip(p + 1));
        assert(a@.take(p + 1) =~= a@.take(p as int).push(a@[p as int]));
        assert(b@.take(p + 1) =~= b@.take(p as int).push(b@[p as int]));
        p = p + 1;
    }
    assert(common_prefix(a@, b@) == p);
    if p == a.len() && p == b.len() {
        assert(a@.take(p as int) =~= a@);
        assert(b@.take(p as int) =~= b@);
        return None;
    }
    let ghost x = a@.skip(p as int);
    let ghost y = b@.skip(p as int);
    let mut q: usize = 0;
    assert(x.take(x.len() as int) =~= x && y.take(y.len() as int) =~= y);
    while q < a.len() - p && q < b.len() - p && a[a.len() - 1 - q] == b[b.len() - 1 - q]
        invariant
            p <= a@.len(),
            p <= b@.len(),
            x == a@.skip(p as int),
            y == b@.skip(p as int),
            q <= a@.len() - p,
            q <= b@.len() - p,
            common_suffix(x, y) == q + common_suffix(x.take(x.len() - q), y.take(y.len() - q)),
        decreases a@.len() - p - q,
    {
        assert(x.take(x.len() - q).drop_last() =~= x.take(x.len() - q - 1));
        assert(y.take(y.len() - q).drop_last() =~= y.take(y.len() - q - 1));
        q = q + 1;
    }
    assert(common_suffix(x, y) == q);
    let last: usize = a.len() - q;
    let fresh: usize = b.len() - q;
    proof {
        if a@ == b@ {
            assert(a@[p as int] == b@[p as int]);
        }
        assert(old_text@.subrange(0, p as int) =~= a@.take(p as int));
        assert(old_text@.subrange(0, last as int) =~= a@.take(last as int));
    }
    Some(
        TextEdit {
            start: crate::text::text_len(old_text.substring_char(0, p)),
            end: crate::text::text_len(old_text.substring_char(0, last)),
            new_len: crate::text::text_len(new_text.substring_char(p, fresh)),
        },
    )
}

/// The kinds that text typed after them joins.
pub fn inclusive_kinds(kinds: &Vec<MarkKind>) -> (kept: Vec<MarkKind>)
    ensures
        kind_views(kept@) == inclusive_only(kind_views(kinds@)),
{
    let ghost all = kind_views(kinds@);
    let mut kept: Vec<MarkKind> = Vec::new();
    let mut i: usize = 0;
    assert(kind_views(kept@) =~= Seq::empty());
    assert(all.take(0) =~= Seq::empty());
    while i < kinds.len()
        invariant
            all == kind_views(kinds@),
            i <= kinds@.len(),
            kind_views(kept@) == inclusive_only(all.take(i as int)),
        decreases kinds@.len() - i,
    {
        let ghost done = kept@;
        assert(all.take(i + 1).drop_last() =~= all.take(i as int));
        assert(all.take(i + 1).last() == kinds@[i as int]@);
        if kinds[i].is_inclusive() {
            kept.push(kinds[i].copy());
            assert(kind_views(kept@) =~= kind_views(done).push(kinds@[i as int]@));
        }
        i = i + 1;
    }
    assert(all.take(i as int) =~= all);
    kept
}

impl Marks {
    /// Put each of `kinds` on the bytes `start..end`, in turn.
    pub fn add_all(&mut self, kinds: &Vec<MarkKind>, start: usize, end: usize)
        ensures
            final(self)@ == add_marks(old(self)@, kind_views(kinds@), start as int, end as int),
    {
        let ghost all = kind_views(kinds@);
        let ghost m = self@;
        let mut i: usize = 0;
        assert(all.take(0) =~= Seq::empty());
        while i < kinds.len()
            invariant
                all == kind_views(kinds@),
                m == old(self)@,
                i <= kinds@.len(),
                self@ == add_marks(m, all.take(i as int), start as int, end as int),
            decreases kinds@.len() - i,
        {
            assert(all.take(i + 1).drop_last() =~= all.take(i as int));
            assert(all.take(i + 1).last() == kinds@[i as int]@);
            self.add(kinds[i].copy(), start, end);
            i = i + 1;
        }
        assert(all.take(i as int) =~= all);
    }
}

impl MarkKind {
    /// Whether two marks are of one kind and carry the same.
    pub fn same(&self, other: &MarkKind) -> (same: bool)
        ensures
            same == (self@ == other@),
    {
        match (self, other) {
            (MarkKind::Link(a), MarkKind::Link(b)) => crate::text::text_eq(a, b),
            (MarkKind::Mention(a), MarkKind::Mention(b)) => crate::text::text_eq(a, b),
            (MarkKind::Highlight(a), MarkKind::Highlight(b)) => match (a, b) {
                (Some(a), Some(b)) => *a == *b,
                (None, None) => true,
                _ => false,
            },
            (MarkKind::TextColor(a), MarkKind::TextColor(b)) => *a == *b,
            (MarkKind::Comment(a), MarkKind::Comment(b)) => *a == *b,
            _ => self.same_kind(other),
        }
    }
}

impl Marks {
    /// Whether two texts carry the same marks, put on in the same order.
    pub fn same(&self, other: &Marks) -> (same: bool)
        ensures
            same == (self@ == other@),
    {
        if self.items.len() != other.items.len() {
            assert(self@.len() != other@.len());
            return false;
        }
        let mut i: usize = 0;
        while i < self.items.len()
            invariant
                i <= self.items@.len(),
                self.items@.len() == other.items@.len(),
                forall|j: int| 0 <= j < i ==> self@[j] == other@[j],
            decreases self.items@.len() - i,
        {
            let a = &self.items[i];
            let b = &other.items[i];
            assert(self@[i as int] == a@ && other@[i as int] == b@);
            if a.start != b.start || a.end != b.end || !a.kind.same(&b.kind) {
                return false;
            }
            i = i + 1;
        }
        assert(self@ =~= other@);
        true
    }
}

} // verus!
