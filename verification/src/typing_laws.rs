//! What typing does to a document, byte by byte: which text a change leaves, and
//! which marks it carries.

use vstd::prelude::*;

use crate::block::{BlockId, Selection};
use crate::view::{Caret, EditorView};

verus! {

/// Whether the marks `new` are the marks `old` over every byte that was not
/// replaced, the bytes `s..e` having given way to `len` others: in front of them
/// a byte is marked as it was, and behind them as it was before it moved.
pub open spec fn kept_outside(
    old_marks: Seq<crate::mark::MarkView>,
    new_marks: Seq<crate::mark::MarkView>,
    s: int,
    e: int,
    len: int,
    k: crate::mark::KindView,
    o: int,
) -> bool {
    &&& o < s ==> (crate::mark::covers(new_marks, k, o) <==> crate::mark::covers(old_marks, k, o))
    &&& o >= s + len ==> (crate::mark::covers(new_marks, k, o) <==> crate::mark::covers(
        old_marks,
        k,
        o - len + (e - s),
    ))
}

/// Whether a mark of kind `k` begins in front of the bytes `s..e` and reaches to
/// their end or past it.
pub open spec fn reaches_over(
    marks: Seq<crate::mark::MarkView>,
    s: int,
    e: int,
    k: crate::mark::KindView,
) -> bool {
    exists|i: int|
        0 <= i < marks.len() && (#[trigger] marks[i]).kind == k && marks[i].start < s && s
            < marks[i].end && e <= marks[i].end
}

/// Whether what is typed at the byte `at` of a block takes the mark `k` on: it
/// is armed there or, where nothing was armed or disarmed, it is on the text
/// just in front and is no link, mention or comment.
pub open spec fn takes_on(
    block: crate::block::BlockView,
    at: int,
    k: crate::mark::KindView,
) -> bool {
    match block.stored_marks {
        Some(kinds) => kinds.contains(k),
        None => !(k is Link) && !(k is Mention) && !(k is Comment) && exists|i: int|
            0 <= i < block.marks.len() && (#[trigger] block.marks[i]).kind == k
                && block.marks[i].start < at <= block.marks[i].end,
    }
}

/// How two texts differ: they have their first `p` and their last `q` characters
/// in common and no more, and `edit` replaces the bytes between.
pub open spec fn differ_between(
    a: Seq<char>,
    b: Seq<char>,
    p: int,
    q: int,
    edit: crate::mark::TextEdit,
) -> bool {
    &&& 0 <= p && 0 <= q && p + q <= a.len() && p + q <= b.len()
    &&& a.take(p) == b.take(p)
    &&& a.skip(a.len() - q) == b.skip(b.len() - q)
    &&& p < a.len() && p < b.len() ==> a[p] != b[p]
    &&& p + q < a.len() && p + q < b.len() ==> a[a.len() - q - 1] != b[b.len() - q - 1]
    &&& edit.start == crate::text::blen(a.take(p))
    &&& edit.end == crate::text::blen(a.take(a.len() - q))
    &&& edit.start + edit.new_len == crate::text::blen(b.take(b.len() - q))
}

proof fn lemma_prefix_ends(a: Seq<char>, b: Seq<char>)
    ensures
        ({
            let p = crate::mark::common_prefix(a, b);
            &&& 0 <= p <= a.len() && p <= b.len()
            &&& a.take(p) == b.take(p)
            &&& p < a.len() && p < b.len() ==> a[p] != b[p]
        }),
    decreases a.len(),
{
    let p = crate::mark::common_prefix(a, b);
    if a.len() > 0 && b.len() > 0 && a[0] == b[0] {
        let x = a.drop_first();
        let y = b.drop_first();
        lemma_prefix_ends(x, y);
        assert forall|i: int| 0 <= i < p implies a[i] == b[i] by {
            if i > 0 {
                assert(x.take(p - 1)[i - 1] == y.take(p - 1)[i - 1]);
            }
        }
        if p < a.len() && p < b.len() {
            assert(x[p - 1] == a[p] && y[p - 1] == b[p]);
        }
    }
    assert(a.take(p) =~= b.take(p));
}

proof fn lemma_suffix_ends(a: Seq<char>, b: Seq<char>)
    ensures
        ({
            let q = crate::mark::common_suffix(a, b);
            &&& 0 <= q <= a.len() && q <= b.len()
            &&& a.skip(a.len() - q) == b.skip(b.len() - q)
            &&& q < a.len() && q < b.len() ==> a[a.len() - q - 1] != b[b.len() - q - 1]
        }),
    decreases a.len(),
{
    let q = crate::mark::common_suffix(a, b);
    if a.len() > 0 && b.len() > 0 && a.last() == b.last() {
        let x = a.drop_last();
        let y = b.drop_last();
        lemma_suffix_ends(x, y);
        assert forall|i: int| 0 <= i < q implies (#[trigger] a.skip(a.len() - q)[i]) == b.skip(
            b.len() - q,
        )[i] by {
            if i < q - 1 {
                assert(x.skip(x.len() - (q - 1))[i] == y.skip(y.len() - (q - 1))[i]);
            }
        }
        if q < a.len() && q < b.len() {
            assert(x[x.len() - (q - 1) - 1] == a[a.len() - q - 1]);
            assert(y[y.len() - (q - 1) - 1] == b[b.len() - q - 1]);
        }
    }
    assert(a.skip(a.len() - q) =~= b.skip(b.len() - q));
}

/// The bytes between a common start and a common end.
proof fn lemma_between(a: Seq<char>, b: Seq<char>, p: int, q: int)
    requires
        0 <= p && 0 <= q && p + q <= a.len() && p + q <= b.len(),
        crate::text::blen(a) <= usize::MAX,
        crate::text::blen(b) <= usize::MAX,
    ensures
        crate::text::blen(a.take(p)) <= usize::MAX,
        crate::text::blen(a.take(a.len() - q)) <= usize::MAX,
        0 <= crate::text::blen(b.subrange(p, b.len() - q)) <= usize::MAX,
        crate::text::blen(b.take(p)) + crate::text::blen(b.subrange(p, b.len() - q))
            == crate::text::blen(b.take(b.len() - q)),
{
    crate::text::lemma_prefix_boundary(a, p);
    crate::text::lemma_prefix_boundary(a, a.len() - q);
    crate::text::lemma_prefix_boundary(b, b.len() - q);
    crate::text::lemma_ends(a.skip(p));
    crate::text::lemma_ends(a.skip(a.len() - q));
    crate::text::lemma_ends(b.skip(b.len() - q));
    crate::text::lemma_ends(b.take(p));
    crate::text::lemma_ends(b.subrange(p, b.len() - q));
    assert(b.take(b.len() - q) =~= b.take(p) + b.subrange(p, b.len() - q));
    crate::text::lemma_join(b.take(p), b.subrange(p, b.len() - q));
}

/// How far two texts have characters in common at their start and, behind
/// that, at their end.
proof fn lemma_common(a: Seq<char>, b: Seq<char>)
    ensures
        ({
            let p = crate::mark::common_prefix(a, b);
            let q = crate::mark::common_suffix(a.skip(p), b.skip(p));
            &&& 0 <= p && 0 <= q && p + q <= a.len() && p + q <= b.len()
            &&& a.take(p) == b.take(p)
            &&& a.skip(a.len() - q) == b.skip(b.len() - q)
            &&& p < a.len() && p < b.len() ==> a[p] != b[p]
            &&& p + q < a.len() && p + q < b.len() ==> a[a.len() - q - 1] != b[b.len() - q - 1]
        }),
{
    let p = crate::mark::common_prefix(a, b);
    lemma_prefix_ends(a, b);
    let x = a.skip(p);
    let y = b.skip(p);
    let q = crate::mark::common_suffix(x, y);
    lemma_suffix_ends(x, y);
    assert(a.skip(a.len() - q) =~= x.skip(x.len() - q));
    assert(b.skip(b.len() - q) =~= y.skip(y.len() - q));
    if p + q < a.len() && p + q < b.len() {
        assert(x[x.len() - q - 1] == a[a.len() - q - 1]);
        assert(y[y.len() - q - 1] == b[b.len() - q - 1]);
    }
}

/// The edit between two texts leaves alone as much as the two have in common: at
/// their start, and then at their end.
pub proof fn law_edit_is_least(a: Seq<char>, b: Seq<char>)
    requires
        crate::text::blen(a) <= usize::MAX,
        crate::text::blen(b) <= usize::MAX,
    ensures
        exists|p: int, q: int| #[trigger]
            differ_between(a, b, p, q, crate::mark::edit_between(a, b)),
{
    let p = crate::mark::common_prefix(a, b);
    let q = crate::mark::common_suffix(a.skip(p), b.skip(p));
    lemma_common(a, b);
    lemma_between(a, b, p, q);
    crate::text::lemma_ends(a.take(p));
    crate::text::lemma_ends(a.take(a.len() - q));
    assert(crate::mark::new_chars(a, b) == b.len() - p - q);
    assert(differ_between(a, b, p, q, crate::mark::edit_between(a, b)));
}

proof fn lemma_continued(m: Seq<crate::mark::MarkView>, at: int, k: crate::mark::KindView)
    ensures
        crate::mark::active_kinds(m, at).contains(k) <==> exists|i: int|
            0 <= i < m.len() && (#[trigger] m[i]).kind == k && m[i].start < at <= m[i].end,
    decreases m.len(),
{
    if m.len() > 0 {
        let prior = m.drop_last();
        let up = crate::mark::active_kinds(prior, at);
        let all = crate::mark::active_kinds(m, at);
        let mark = m.last();
        lemma_continued(prior, at, k);
        if all.contains(k) {
            let j = choose|j: int| 0 <= j < all.len() && all[j] == k;
            if j < up.len() {
                assert(up[j] == k);
                let i = choose|i: int|
                    0 <= i < prior.len() && (#[trigger] prior[i]).kind == k && prior[i].start < at
                        <= prior[i].end;
                assert(m[i] == prior[i]);
            } else {
                assert(m[m.len() - 1] == mark);
            }
        }
        if exists|i: int|
            0 <= i < m.len() && (#[trigger] m[i]).kind == k && m[i].start < at <= m[i].end {
            let i = choose|i: int|
                0 <= i < m.len() && (#[trigger] m[i]).kind == k && m[i].start < at <= m[i].end;
            if i < prior.len() {
                assert(prior[i] == m[i]);
                let j = choose|j: int| 0 <= j < up.len() && up[j] == k;
                assert(all[j] == k);
            } else {
                assert(all[all.len() - 1] == k);
            }
        }
    }
}

proof fn lemma_growing(kinds: Seq<crate::mark::KindView>, k: crate::mark::KindView)
    ensures
        crate::mark::inclusive_only(kinds).contains(k) <==> kinds.contains(k) && !(k is Link) && !(
        k is Mention) && !(k is Comment),
    decreases kinds.len(),
{
    if kinds.len() > 0 {
        let rest = kinds.drop_last();
        let up = crate::mark::inclusive_only(rest);
        let all = crate::mark::inclusive_only(kinds);
        lemma_growing(rest, k);
        if all.contains(k) {
            let j = choose|j: int| 0 <= j < all.len() && all[j] == k;
            if j < up.len() {
                assert(up[j] == k);
                let i = choose|i: int| 0 <= i < rest.len() && rest[i] == k;
                assert(kinds[i] == k);
            } else {
                assert(kinds[kinds.len() - 1] == k);
            }
        }
        if kinds.contains(k) && !(k is Link) && !(k is Mention) && !(k is Comment) {
            let i = choose|i: int| 0 <= i < kinds.len() && kinds[i] == k;
            if i < rest.len() {
                assert(rest[i] == k);
                let j = choose|j: int| 0 <= j < up.len() && up[j] == k;
                assert(all[j] == k);
            } else {
                assert(all[all.len() - 1] == k);
            }
        }
    }
}

/// Whether one of `kinds` is of the kind of `k`.
pub open spec fn holds_kind(
    kinds: Seq<crate::mark::KindView>,
    k: crate::mark::KindView,
) -> bool {
    exists|i: int| 0 <= i < kinds.len() && (#[trigger] kinds[i]).tag() == k.tag()
}

proof fn lemma_adds_covers(
    m: Seq<crate::mark::MarkView>,
    kinds: Seq<crate::mark::KindView>,
    s: int,
    e: int,
    k: crate::mark::KindView,
    o: int,
)
    ensures
        ({
            let n = crate::mark::add_marks(m, kinds, s, e);
            &&& !(s <= o < e) ==> (crate::mark::covers(n, k, o) <==> crate::mark::covers(m, k, o))
            &&& s <= o < e && !holds_kind(kinds, k) ==> (crate::mark::covers(n, k, o)
                <==> crate::mark::covers(m, k, o))
            &&& s <= o < e && holds_kind(kinds, k) && crate::mark::covers(n, k, o)
                ==> kinds.contains(k)
        }),
    decreases kinds.len(),
{
    if kinds.len() > 0 {
        let rest = kinds.drop_last();
        let last = kinds.last();
        let done = crate::mark::add_marks(m, rest, s, e);
        lemma_adds_covers(m, rest, s, e, k, o);
        crate::mark::law_add(done, last, s, e, k, o);
        assert(kinds[kinds.len() - 1] == last);
        assert(holds_kind(rest, k) ==> holds_kind(kinds, k)) by {
            if holds_kind(rest, k) {
                let i = choose|i: int| 0 <= i < rest.len() && (#[trigger] rest[i]).tag() == k.tag();
                assert(kinds[i].tag() == k.tag());
            }
        }
        assert(rest.contains(k) ==> kinds.contains(k)) by {
            if rest.contains(k) {
                let i = choose|i: int| 0 <= i < rest.len() && rest[i] == k;
                assert(kinds[i] == k);
            }
        }
        if holds_kind(kinds, k) && !holds_kind(rest, k) {
            let i = choose|i: int| 0 <= i < kinds.len() && (#[trigger] kinds[i]).tag() == k.tag();
            if i < rest.len() {
                assert(rest[i].tag() == k.tag());
            }
        }
    }
}

/// Whether `new` is `old` once its input held `new_text` with its caret at
/// `input`: the text is that of the input, every byte that was not typed is
/// marked as it was, and what was typed carries the marks that were armed or
/// that it took on from the text in front, and otherwise those it was typed
/// into. Nothing stays armed.
pub open spec fn was_typed(
    old_block: crate::block::BlockView,
    new_block: crate::block::BlockView,
    new_text: Seq<char>,
    input: Selection,
    k: crate::mark::KindView,
    o: int,
) -> bool {
    let edit = crate::mark::edit_between(old_block.text, new_text);
    let (s, e, len) = (edit.start as int, edit.end as int, edit.new_len as int);
    &&& new_block.text == new_text
    &&& new_block.input == input
    &&& new_block.stored_marks is None
    &&& new_block.id == old_block.id
    &&& new_block.ty == old_block.ty
    &&& new_block.attrs == old_block.attrs
    &&& new_block.indent == old_block.indent
    &&& kept_outside(old_block.marks, new_block.marks, s, e, len, k, o)
    &&& s <= o < s + len && takes_on(old_block, s, k) ==> crate::mark::byte_marked(
        new_block.marks,
        k,
        o,
    )
    &&& s <= o < s + len && crate::mark::covers(new_block.marks, k, o) ==> takes_on(
        old_block,
        s,
        k,
    ) || reaches_over(old_block.marks, s, e, k)
    &&& s <= o < s + len && reaches_over(old_block.marks, s, e, k) ==> crate::mark::byte_marked(
        new_block.marks,
        k,
        o,
    )
}

proof fn lemma_taken(
    block: crate::block::BlockView,
    new_text: Seq<char>,
    input: Selection,
    k: crate::mark::KindView,
    o: int,
)
    requires
        block.wf(),
        crate::text::blen(new_text) <= usize::MAX,
    ensures
        was_typed(block, crate::edit::changed_block(block, new_text, input), new_text, input, k, o),
{
    let edit = crate::mark::edit_between(block.text, new_text);
    let (s, e) = (edit.start as int, edit.start + edit.new_len);
    let len = crate::text::blen(new_text);
    let applied = match block.stored_marks {
        Some(kinds) => kinds,
        None => crate::mark::inclusive_only(crate::mark::active_kinds(block.marks, s)),
    };
    let n = crate::edit::changed_block(block, new_text, input).marks;
    let moved = crate::mark::remap_marks(block.marks, edit);
    let marks = crate::mark::add_marks(moved, applied, s, e);
    crate::mark::law_edit_between(block.text, new_text);
    crate::text::lemma_split(new_text, e);
    crate::mark::law_remap(block.marks, edit, k, o);
    lemma_adds_covers(moved, applied, s, e, k, o);
    if edit.new_len > 0 {
        crate::mark::law_clamp(marks, len, k, o);
    } else {
        crate::mark::law_clamp(moved, len, k, o);
    }
    lemma_covers_in_range(block.marks, crate::text::blen(block.text), k, o);
    lemma_covers_in_range(
        block.marks,
        crate::text::blen(block.text),
        k,
        o - edit.new_len + (edit.end - edit.start),
    );
    lemma_continued(block.marks, s, k);
    lemma_growing(crate::mark::active_kinds(block.marks, s), k);
    assert(applied.contains(k) <==> takes_on(block, s, k));
    assert(crate::mark::spans_edit(block.marks, edit, k) <==> reaches_over(
        block.marks,
        s,
        edit.end as int,
        k,
    ));
    if s <= o < e && takes_on(block, s, k) {
        crate::laws::law_typed_marks(block, new_text, input, k, o);
    }
    if s <= o < e && reaches_over(block.marks, s, edit.end as int, k) {
        if holds_kind(applied, k) {
            let i = choose|i: int|
                0 <= i < applied.len() && (#[trigger] applied[i]).tag() == k.tag();
            assert(applied.contains(applied[i]));
            crate::laws::law_typed_marks(block, new_text, input, applied[i], o);
            let at = choose|at: int| crate::mark::marked_at(n, applied[i], o, at);
            assert(crate::mark::marked_at(n, k, o, at));
        } else {
            assert(crate::mark::covers(n, k, o));
            lemma_covered_is_marked(n, k, o);
        }
    }
}

proof fn lemma_covered_is_marked(
    m: Seq<crate::mark::MarkView>,
    k: crate::mark::KindView,
    o: int,
)
    requires
        crate::mark::covers(m, k, o),
    ensures
        crate::mark::byte_marked(m, k, o),
{
    let i = choose|i: int|
        0 <= i < m.len() && (#[trigger] m[i]).kind == k && m[i].start <= o < m[i].end;
    assert(crate::mark::marked_at(m, k, o, i));
}

proof fn lemma_covers_in_range(
    m: Seq<crate::mark::MarkView>,
    len: int,
    k: crate::mark::KindView,
    o: int,
)
    requires
        crate::mark::in_range(m, len),
    ensures
        crate::mark::covers(m, k, o) ==> 0 <= o < len,
{
}

/// Taking in what was typed into a block leaves every other block as it was,
/// and first hands out the document as it was, to be gone back to.
pub proof fn law_taken(
    e: EditorView,
    id: BlockId,
    new_text: Seq<char>,
    input: Selection,
    k: crate::mark::KindView,
    o: int,
)
    requires
        e.wf(),
        crate::view::known(e.blocks, id),
        crate::text::blen(new_text) <= usize::MAX,
    ensures
        ({
            let ix = crate::view::find(e.blocks, id)->0;
            let n = e.take_text(id, ix, new_text, input);
            &&& was_typed(e.blocks[ix], n.blocks[ix], new_text, input, k, o)
            &&& n.blocks.len() == e.blocks.len()
            &&& forall|j: int|
                0 <= j < e.blocks.len() && j != ix ==> (#[trigger] n.blocks[j]) == e.blocks[j]
            &&& n.effects.len() > e.effects.len()
            &&& n.effects[e.effects.len() as int] == crate::effect::EffectView::RecordTyping(
                crate::view::contents_of(e.blocks),
            )
        }),
{
    reveal(EditorView::take_text);
    crate::view::lemma_find(e.blocks, id);
    let ix = crate::view::find(e.blocks, id)->0;
    lemma_taken(e.blocks[ix], new_text, input, k, o);
}

/// A change of a block's text that no rule fires on, and that is no paste,
/// leaves the document as it was typed: the block holds the text of its input,
/// every byte that was not typed is marked as it was, what was typed is marked
/// as the text it joins, and no other block changes. A change that is none
/// moves the caret and asks for nothing.
pub proof fn law_typed(
    e: EditorView,
    id: BlockId,
    new_text: Seq<char>,
    input: Selection,
    k: crate::mark::KindView,
    o: int,
)
    requires
        e.wf(),
        crate::text::blen(new_text) <= usize::MAX,
        crate::view::find(e.blocks, id) matches Some(ix) && {
            &&& !crate::edit::pasted(e.blocks[ix].text, new_text)
            &&& e.take_text(id, ix, new_text, input).input_rules(id) is None
        },
    ensures
        ({
            let n = e.on_block_changed(id, new_text, input);
            let ix = crate::view::find(e.blocks, id)->0;
            &&& e.blocks[ix].text != new_text ==> was_typed(
                e.blocks[ix],
                n.blocks[ix],
                new_text,
                input,
                k,
                o,
            )
            &&& e.blocks[ix].text == new_text ==> n == (EditorView { blocks: n.blocks, ..e })
                && n.blocks[ix] == (crate::block::BlockView { input, ..e.blocks[ix] })
            &&& n.blocks.len() == e.blocks.len()
            &&& forall|j: int|
                0 <= j < e.blocks.len() && j != ix ==> (#[trigger] n.blocks[j]) == e.blocks[j]
        }),
{
    crate::view::lemma_find(e.blocks, id);
    let ix = crate::view::find(e.blocks, id)->0;
    if e.blocks[ix].text != new_text {
        law_taken(e, id, new_text, input, k, o);
        let taken = e.take_text(id, ix, new_text, input);
        reveal(EditorView::run_input_rules);
        crate::laws::law_menu_keeps_text(taken, 0);
    }
}

/// A change came as a paste exactly where more than one byte was put in and a
/// line break is among what was put in; a lone line break is none.
pub proof fn law_pasted(a: Seq<char>, b: Seq<char>)
    requires
        crate::text::blen(a) <= usize::MAX,
        crate::text::blen(b) <= usize::MAX,
    ensures
        ({
            let edit = crate::mark::edit_between(a, b);
            let (s, len) = (edit.start as int, edit.new_len as int);
            let put = crate::text::after(crate::text::before(b, s + len), s);
            &&& crate::edit::pasted(a, b) <==> 1 < len && put.contains('\n')
            &&& crate::edit::pasted(a, b) ==> put != seq!['\n']
        }),
{
    let edit = crate::mark::edit_between(a, b);
    let (s, len) = (edit.start as int, edit.new_len as int);
    crate::mark::law_edit_between(a, b);
    crate::text::lemma_slice(b, s, s + len);
    crate::text::lemma_ascii('\n');
}

/// A change of a block's text is taken in first. A paste that falls apart then
/// becomes blocks; on anything else the rules run, and the menu follows the
/// text that they leave.
pub proof fn law_change_stages(e: EditorView, id: BlockId, new_text: Seq<char>, input: Selection)
    requires
        crate::view::find(e.blocks, id) matches Some(ix) && e.blocks[ix].text != new_text,
    ensures
        ({
            let n = e.on_block_changed(id, new_text, input);
            let ix = crate::view::find(e.blocks, id)->0;
            let taken = e.take_text(id, ix, new_text, input);
            let paste = crate::edit::pasted(e.blocks[ix].text, new_text) && new_text.contains('\n')
                && !(e.reg.caps)(e.blocks[ix].ty).multiline;
            &&& paste ==> Some(n) == taken.split_pasted_lines(id)
            &&& !paste ==> n.blocks == taken.run_input_rules(id).blocks
            &&& !paste ==> n.suggestion
                == taken.run_input_rules(id).sync_suggestion_menu().suggestion
        }),
{
    reveal(EditorView::take_text);
    reveal(EditorView::split_pasted_lines);
    crate::view::lemma_find(e.blocks, id);
    let ix = crate::view::find(e.blocks, id)->0;
    let taken = e.take_text(id, ix, new_text, input);
    crate::view::lemma_same_ids(e.blocks, taken.blocks);
    crate::laws::law_menu_keeps_text(taken.run_input_rules(id), 0);
}

/// Whether `n` is `e` with the bytes `a..b` of block `ix` replaced by `r`: every
/// other byte stays, marked as it was, the new ones carry only the marks that
/// reached over them, the caret stands behind them, and nothing else changes.
pub open spec fn was_replaced(
    e: EditorView,
    n: EditorView,
    ix: int,
    a: int,
    b: int,
    r: Seq<char>,
    k: crate::mark::KindView,
    o: int,
) -> bool {
    let (was, now) = (e.blocks[ix], n.blocks[ix]);
    let len = crate::text::blen(r);
    &&& now.text == crate::text::before(was.text, a) + r + crate::text::after(was.text, b)
    &&& now.input.cursor == a + len
    &&& now.input.start == a + len
    &&& now.input.end == a + len
    &&& now.id == was.id
    &&& now.ty == was.ty
    &&& now.attrs == was.attrs
    &&& now.indent == was.indent
    &&& kept_outside(was.marks, now.marks, a, b, len, k, o)
    &&& a <= o < a + len ==> (crate::mark::covers(now.marks, k, o) <==> reaches_over(
        was.marks,
        a,
        b,
        k,
    ))
    &&& n.blocks.len() == e.blocks.len()
    &&& forall|j: int|
        0 <= j < e.blocks.len() && j != ix ==> (#[trigger] n.blocks[j]) == e.blocks[j]
}

/// An edit replaces the bytes it names and no others, and leaves the marks on
/// every other byte as they were.
pub proof fn law_edit_marks(
    e: EditorView,
    ix: int,
    a: int,
    b: int,
    r: Seq<char>,
    k: crate::mark::KindView,
    o: int,
)
    requires
        0 <= ix < e.blocks.len(),
        crate::text::boundary(e.blocks[ix].text, a),
        crate::text::boundary(e.blocks[ix].text, b),
        a <= b,
        crate::text::blen(e.blocks[ix].text) <= usize::MAX,
        a + crate::text::blen(r) <= usize::MAX,
    ensures
        ({
            let n = e.edit_block_text(ix, a, b, r);
            &&& was_replaced(e, n, ix, a, b, r, k, o)
            &&& n.blocks[ix].stored_marks == e.blocks[ix].stored_marks
            &&& n == (EditorView { blocks: n.blocks, effects: n.effects, ..e })
            &&& n.effects[e.effects.len() as int] == crate::effect::EffectView::SetText {
                block: e.blocks[ix].id,
                text: n.blocks[ix].text,
                caret: a + crate::text::blen(r),
            }
        }),
{
    let text = e.blocks[ix].text;
    crate::text::lemma_split(text, a);
    crate::text::lemma_split(text, b);
    crate::text::lemma_ends(r);
    let edit = crate::edit::replacement(a, b, r);
    crate::mark::law_remap(e.blocks[ix].marks, edit, k, o);
    assert(crate::mark::spans_edit(e.blocks[ix].marks, edit, k) <==> reaches_over(
        e.blocks[ix].marks,
        a,
        b,
        k,
    ));
}

/// Giving a block another text leaves its other bytes' marks where they were,
/// as far as the new text goes, and no other block changes.
pub proof fn law_set_text(
    e: EditorView,
    ix: int,
    text: Seq<char>,
    caret: int,
    k: crate::mark::KindView,
    o: int,
)
    requires
        0 <= ix < e.blocks.len(),
        0 <= caret <= usize::MAX,
    ensures
        ({
            let n = e.set_block_text(ix, text, caret);
            &&& n.blocks[ix].text == text
            &&& n.blocks[ix].input.cursor == caret
            &&& n.blocks[ix].input.start == caret
            &&& n.blocks[ix].input.end == caret
            &&& n.blocks[ix].id == e.blocks[ix].id
            &&& n.blocks[ix].ty == e.blocks[ix].ty
            &&& n.blocks[ix].attrs == e.blocks[ix].attrs
            &&& n.blocks[ix].indent == e.blocks[ix].indent
            &&& crate::mark::covers(n.blocks[ix].marks, k, o) <==> crate::mark::covers(
                e.blocks[ix].marks,
                k,
                o,
            ) && o < crate::text::blen(text)
            &&& n.blocks.len() == e.blocks.len()
            &&& forall|j: int|
                0 <= j < e.blocks.len() && j != ix ==> (#[trigger] n.blocks[j]) == e.blocks[j]
            &&& crate::laws::announced(e, n)
        }),
{
    crate::mark::law_clamp(e.blocks[ix].marks, crate::text::blen(text), k, o);
    let n = e.set_block_text(ix, text, caret);
    assert(n.effects[n.effects.len() - 1] == crate::effect::EffectView::Document);
}

/// An inline rule that fires keeps its body in place of the whole match and
/// marks that and nothing else: every byte outside the body is marked as it
/// was, the body carries the rule's mark and the marks that reached over the
/// match, the caret stands behind it, and what follows is plain.
pub proof fn law_inline_marks(
    e: EditorView,
    ix: int,
    kind: crate::mark::KindView,
    caps: crate::pattern::CapturesView,
    k: crate::mark::KindView,
    o: int,
)
    requires
        e.wf(),
        0 <= ix < e.blocks.len(),
        caps.wf(),
        caps.text == crate::text::before(
            e.blocks[ix].text,
            e.blocks[ix].input.cursor as int,
        ),
        e.inline_match(ix, kind, Some(caps)) is Some,
        crate::text::blen(e.blocks[ix].text) + crate::text::blen(e.blocks[ix].text) <= usize::MAX,
    ensures
        ({
            let n = e.inline_match(ix, kind, Some(caps))->0;
            let (was, now) = (e.blocks[ix], n.blocks[ix]);
            let whole = caps.group(1)->0;
            let span = caps.named("body"@)->0;
            let body = crate::text::after(crate::text::before(caps.text, span.1), span.0);
            let end = whole.0 + crate::text::blen(body);
            &&& now.text == crate::text::before(was.text, whole.0) + body + crate::text::after(
                was.text,
                whole.1,
            )
            &&& kept_outside(
                was.marks,
                now.marks,
                whole.0,
                whole.1,
                crate::text::blen(body),
                k,
                o,
            )
            &&& whole.0 <= o < end && k == kind ==> crate::mark::covers(now.marks, k, o)
            &&& whole.0 <= o < end && k != kind && k.tag() == kind.tag() ==> !crate::mark::covers(
                now.marks,
                k,
                o,
            )
            &&& whole.0 <= o < end && k.tag() != kind.tag() ==> (crate::mark::covers(
                now.marks,
                k,
                o,
            ) <==> reaches_over(was.marks, whole.0, whole.1, k))
            &&& now.input == Selection::at(end)
            &&& now.stored_marks == Some(Seq::<crate::mark::KindView>::empty())
            &&& now.id == was.id
            &&& now.ty == was.ty
            &&& now.attrs == was.attrs
            &&& n.blocks.len() == e.blocks.len()
            &&& forall|j: int|
                0 <= j < e.blocks.len() && j != ix ==> (#[trigger] n.blocks[j]) == e.blocks[j]
            &&& exists|i: int| 0 <= i < body.len() && !crate::text::is_white(#[trigger] body[i])
        }),
{
    let was = e.blocks[ix];
    let caret = was.input.cursor as int;
    let whole = caps.group(1)->0;
    let span = caps.named("body"@)->0;
    let body = crate::text::slice(caps.text, span.0, span.1);
    let end = whole.0 + crate::text::blen(body);
    assert(caps.groups[1].1 matches Some(found) ==> crate::pattern::span_in(caps.text, found));
    crate::pattern::lemma_named_span(caps, "body"@);
    crate::text::lemma_within(was.text, caret, whole.0);
    crate::text::lemma_within(was.text, caret, whole.1);
    crate::text::lemma_slice(caps.text, span.0, span.1);
    crate::text::lemma_split(caps.text, span.1);
    crate::text::lemma_split(caps.text, span.0);
    crate::text::lemma_split(was.text, caret);
    let edited = e.edit_block_text(ix, whole.0, whole.1, body);
    law_edit_marks(e, ix, whole.0, whole.1, body, k, o);
    crate::mark::law_add(edited.blocks[ix].marks, kind, whole.0, end, k, o);
}

proof fn lemma_node_step(e: EditorView, ix: int, i: int)
    requires
        0 <= i < e.reg.rules.len(),
    ensures
        e.node_rules(ix, i) == (match node_step(e, ix, i) {
            Some(n) => Some(n),
            None => e.node_rules(ix, i + 1),
        }),
{
    reveal(node_step);
}

/// Of the node rules the first that applies is applied, and no other: each of
/// those before it matched nothing that applies. Where none applies nothing is.
pub proof fn law_first_node_rule(e: EditorView, ix: int, from: int)
    requires
        0 <= from <= e.reg.rules.len(),
    ensures
        match e.node_rules(ix, from) {
            Some(n) => exists|i: int|
                from <= i < e.reg.rules.len() && Some(n) == #[trigger] node_step(e, ix, i)
                    && forall|j: int| from <= j < i ==> (#[trigger] node_step(e, ix, j)) is None,
            None => forall|j: int|
                from <= j < e.reg.rules.len() ==> (#[trigger] node_step(e, ix, j)) is None,
        },
    decreases e.reg.rules.len() - from,
{
    if from < e.reg.rules.len() {
        let step = node_step(e, ix, from);
        lemma_node_step(e, ix, from);
        if step is None {
            law_first_node_rule(e, ix, from + 1);
            if let Some(n) = e.node_rules(ix, from) {
                let i = choose|i: int|
                    from + 1 <= i < e.reg.rules.len() && Some(n) == #[trigger] node_step(e, ix, i)
                        && forall|j: int|
                        from + 1 <= j < i ==> (#[trigger] node_step(e, ix, j)) is None;
                assert(Some(n) == node_step(e, ix, i));
            }
        }
    }
}

/// What node rule `i` makes of block `ix`, matched with the text before its
/// caret.
#[verifier::opaque]
pub open spec fn node_step(e: EditorView, ix: int, i: int) -> Option<EditorView> {
    e.node_match(
        ix,
        e.reg.rules[i],
        crate::pattern::match_of(
            e.reg.rules[i].pattern,
            crate::text::before(e.blocks[ix].text, e.blocks[ix].input.cursor as int),
        ),
    )
}

/// What inline rule `i` makes of block `ix`, matched with the text before its
/// caret.
#[verifier::opaque]
pub open spec fn inline_step(e: EditorView, ix: int, i: int) -> Option<EditorView> {
    let rule = crate::input_rules::inline_rule(i);
    e.inline_match(
        ix,
        rule.1,
        crate::pattern::match_of(
            rule.0,
            crate::text::before(e.blocks[ix].text, e.blocks[ix].input.cursor as int),
        ),
    )
}

proof fn lemma_inline_step(e: EditorView, ix: int, i: int)
    requires
        0 <= i < crate::input_rules::INLINE_RULES,
    ensures
        e.inline_rules(ix, i) == (match inline_step(e, ix, i) {
            Some(n) => Some(n),
            None => e.inline_rules(ix, i + 1),
        }),
{
    reveal(inline_step);
}

/// Of the inline rules the first that applies is applied, and no other.
pub proof fn law_first_inline_rule(e: EditorView, ix: int, from: int)
    requires
        0 <= from <= crate::input_rules::INLINE_RULES,
    ensures
        match e.inline_rules(ix, from) {
            Some(n) => exists|i: int|
                from <= i < crate::input_rules::INLINE_RULES && Some(n) == #[trigger] inline_step(
                    e,
                    ix,
                    i,
                ) && forall|j: int| from <= j < i ==> (#[trigger] inline_step(e, ix, j)) is None,
            None => forall|j: int|
                from <= j < crate::input_rules::INLINE_RULES ==> (#[trigger] inline_step(
                    e,
                    ix,
                    j,
                )) is None,
        },
    decreases crate::input_rules::INLINE_RULES - from,
{
    if from < crate::input_rules::INLINE_RULES {
        let step = inline_step(e, ix, from);
        lemma_inline_step(e, ix, from);
        if step is None {
            law_first_inline_rule(e, ix, from + 1);
            if let Some(n) = e.inline_rules(ix, from) {
                let i = choose|i: int|
                    from + 1 <= i < crate::input_rules::INLINE_RULES && Some(n)
                        == #[trigger] inline_step(e, ix, i) && forall|j: int|
                        from + 1 <= j < i ==> (#[trigger] inline_step(e, ix, j)) is None;
                assert(Some(n) == inline_step(e, ix, i));
            }
        }
    }
}

/// A typography rule that fires replaces the text it looks for, which stands
/// just before the caret, and nothing else: every other byte stays, marked as it
/// was. It is the first of the rules whose text stands there.
pub proof fn law_typography(
    e: EditorView,
    ix: int,
    from: int,
    k: crate::mark::KindView,
    o: int,
)
    requires
        e.wf(),
        0 <= ix < e.blocks.len(),
        0 <= from <= crate::input_rules::TYPOGRAPHY_RULES,
        forall|i: int|
            crate::text::blen(e.blocks[ix].text) + crate::text::blen(
                (#[trigger] crate::input_rules::typography_rule(i)).1,
            ) <= usize::MAX,
    ensures
        match e.typography_rules(ix, from) {
            Some(n) => exists|i: int|
                from <= i < crate::input_rules::TYPOGRAPHY_RULES && #[trigger] typography_fires(
                    e,
                    ix,
                    i,
                ) && was_replaced(
                    e,
                    n,
                    ix,
                    e.blocks[ix].input.cursor - crate::text::blen(
                        crate::input_rules::typography_rule(i).0,
                    ),
                    e.blocks[ix].input.cursor as int,
                    crate::input_rules::typography_rule(i).1,
                    k,
                    o,
                ) && forall|j: int| from <= j < i ==> !#[trigger] typography_fires(e, ix, j),
            None => forall|j: int|
                from <= j < crate::input_rules::TYPOGRAPHY_RULES ==> !#[trigger] typography_fires(
                    e,
                    ix,
                    j,
                ),
        },
    decreases crate::input_rules::TYPOGRAPHY_RULES - from,
{
    if from < crate::input_rules::TYPOGRAPHY_RULES {
        let block = e.blocks[ix];
        let caret = block.input.cursor as int;
        let head = crate::text::before(block.text, caret);
        let rule = crate::input_rules::typography_rule(from);
        crate::text::lemma_split(block.text, caret);
        if crate::text::ends_with(head, rule.0) {
            let x = head.take(head.len() - rule.0.len());
            assert(head =~= x + rule.0);
            assert(typography_fires(e, ix, from));
            crate::text::lemma_suffix(head, rule.0);
            let at = caret - crate::text::blen(rule.0);
            crate::text::lemma_within(block.text, caret, at);
            law_edit_marks(e, ix, at, caret, rule.1, k, o);
        } else {
            assert(!typography_fires(e, ix, from)) by {
                if typography_fires(e, ix, from) {
                    let y = choose|y: Seq<char>| head == #[trigger] (y + rule.0);
                    assert(head.skip(head.len() - rule.0.len()) =~= rule.0);
                    assert(head.subrange(head.len() - rule.0.len(), head.len() as int)
                        =~= rule.0);
                }
            }
            law_typography(e, ix, from + 1, k, o);
            if let Some(n) = e.typography_rules(ix, from) {
                let i = choose|i: int|
                    from + 1 <= i < crate::input_rules::TYPOGRAPHY_RULES
                        && #[trigger] typography_fires(e, ix, i) && was_replaced(
                        e,
                        n,
                        ix,
                        caret - crate::text::blen(crate::input_rules::typography_rule(i).0),
                        caret,
                        crate::input_rules::typography_rule(i).1,
                        k,
                        o,
                    ) && forall|j: int|
                        from + 1 <= j < i ==> !#[trigger] typography_fires(e, ix, j);
                assert(typography_fires(e, ix, i));
            }
        }
    }
}

/// Whether the text that typography rule `i` looks for stands just before the
/// caret of block `ix`.
pub open spec fn typography_fires(e: EditorView, ix: int, i: int) -> bool {
    exists|x: Seq<char>|
        crate::text::before(e.blocks[ix].text, e.blocks[ix].input.cursor as int) == #[trigger] (x
            + crate::input_rules::typography_rule(i).0)
}

/// The rules run where the editor interprets what is typed, in blocks whose type
/// takes shortcuts, and nowhere else. Node rules come first, inline rules next,
/// typography last, and at most one of them fires.
pub proof fn law_rules_run(e: EditorView, id: BlockId)
    ensures
        ({
            let n = e.run_input_rules(id);
            match crate::view::find(e.blocks, id) {
                Some(ix) if e.input_rule_mode == crate::input_rules::InputRuleMode::BuiltIn && (
                e.reg.caps)(e.blocks[ix].ty).input_rules => {
                    match (e.node_rules(ix, 0), e.inline_rules(ix, 0), e.typography_rules(ix, 0)) {
                        (Some(m), _, _) => n == m,
                        (None, Some(m), _) => n == m,
                        (None, None, Some(m)) => n == m,
                        (None, None, None) => n == e,
                    }
                },
                _ => n == e,
            }
        }),
{
    reveal(EditorView::run_input_rules);
}

/// A node rule fires exactly where its match is all that stands before the
/// caret, and asks for something that the block is not already.
pub proof fn law_node_fires(
    e: EditorView,
    ix: int,
    rule: crate::block::RuleView,
    found: Option<crate::pattern::CapturesView>,
)
    ensures
        e.node_match(ix, rule, found) is Some <==> {
            &&& found is Some
            &&& (found->0.groups[0].1->0).0 == 0
            &&& (found->0.groups[0].1->0).1 == e.blocks[ix].input.cursor
            &&& (rule.build)(found->0) is Some
            &&& (((rule.build)(found->0)->0).0 != e.blocks[ix].ty || ((rule.build)(found->0)->0).1
                != e.blocks[ix].attrs)
        },
{
}

/// An inline rule fires exactly where its match has a body, and the body holds
/// more than white space.
pub proof fn law_inline_fires(
    e: EditorView,
    ix: int,
    kind: crate::mark::KindView,
    found: Option<crate::pattern::CapturesView>,
)
    ensures
        e.inline_match(ix, kind, found) is Some <==> {
            &&& found is Some
            &&& found->0.group(1) is Some
            &&& found->0.named("body"@) is Some
            &&& ({
                let span = found->0.named("body"@)->0;
                let body = crate::text::after(
                    crate::text::before(found->0.text, span.1),
                    span.0,
                );
                exists|i: int| 0 <= i < body.len() && !crate::text::is_white(#[trigger] body[i])
            })
        },
{
}

/// Going on below a block uses the empty paragraph that stands there, or puts
/// one in; no other block changes.
pub proof fn law_paragraph_after(e: EditorView, ix: int)
    requires
        0 <= ix < e.blocks.len(),
    ensures
        ({
            let n = e.ensure_paragraph_after(ix);
            let there = ix + 1 < e.blocks.len() && e.blocks[ix + 1].ty == "paragraph"@
                && e.blocks[ix + 1].text.len() == 0;
            let at = n.blocks[ix + 1];
            &&& there ==> n == e
            &&& !there ==> n.blocks == e.blocks.insert(ix + 1, at) && at.ty == "paragraph"@
                && at.text.len() == 0 && at.marks.len() == 0 && at.indent == 0 && !at.attrs.collapsed
            &&& e.paragraph_after(ix) == BlockId(
                if there {
                    e.blocks[ix + 1].id.0
                } else {
                    e.next_id as u64
                },
            )
            &&& at.id == e.paragraph_after(ix)
        }),
{
    reveal_strlit("");
    if !e.empty_paragraph(ix + 1) {
        let n = e.ensure_paragraph_after(ix);
        assert(n.blocks =~= e.blocks.insert(ix + 1, n.blocks[ix + 1]));
    }
}

/// A node rule that fires leaves the other blocks' content alone and the marks
/// on what was not typed for it as they were. The caret goes to the start of
/// the block or, where that holds no text any more, to an empty paragraph below
/// it.
pub proof fn law_node_moves(
    e: EditorView,
    ix: int,
    rule: crate::block::RuleView,
    caps: crate::pattern::CapturesView,
    k: crate::mark::KindView,
    o: int,
)
    requires
        e.wf(),
        e.next_id < u64::MAX,
        0 <= ix < e.blocks.len(),
        e.node_match(ix, rule, Some(caps)) is Some,
    ensures
        ({
            let n = e.node_match(ix, rule, Some(caps))->0;
            let target = (rule.build)(caps)->0;
            let caret = e.blocks[ix].input.cursor as int;
            let textual = (e.reg.caps)(target.0).textual;
            let there = ix + 1 < e.blocks.len() && e.blocks[ix + 1].ty == "paragraph"@
                && e.blocks[ix + 1].text.len() == 0;
            let more: int = if textual || there {
                0
            } else {
                1
            };
            &&& n.blocks.len() == e.blocks.len() + more
            &&& n.blocks[ix].text == crate::text::after(e.blocks[ix].text, caret)
            &&& n.blocks[ix].ty == target.0
            &&& n.blocks[ix].attrs == target.1
            &&& kept_outside(e.blocks[ix].marks, n.blocks[ix].marks, 0, caret, 0, k, o)
            &&& forall|j: int|
                0 <= j < ix ==> (#[trigger] n.blocks[j]).content() == e.blocks[j].content()
            &&& forall|j: int|
                ix + more < j < n.blocks.len() ==> (#[trigger] n.blocks[j]).content() == e.blocks[j
                    - more].content()
            &&& textual ==> n.focused == Some(e.blocks[ix].id) && n.blocks[ix].input
                == Selection::at(0)
            &&& !textual ==> n.blocks[ix + 1].ty == "paragraph"@ && n.blocks[ix + 1].text.len() == 0
            &&& !textual && (e.reg.caps)("paragraph"@).textual ==> n.focused == Some(
                n.blocks[ix + 1].id,
            ) && n.blocks[ix + 1].input == Selection::at(0)
        }),
{
    let id = e.blocks[ix].id;
    let caret = e.blocks[ix].input.cursor as int;
    let target = (rule.build)(caps)->0;
    let textual = (e.reg.caps)(target.0).textual;
    let edited = e.edit_block_text(ix, 0, caret, ""@);
    let turned = edited.set_block_type(id, target.0, target.1);
    let n = e.node_match(ix, rule, Some(caps))->0;
    reveal_strlit("");
    crate::text::lemma_ends(e.blocks[ix].text);
    crate::text::lemma_ends(""@);
    crate::text::lemma_split(e.blocks[ix].text, caret);
    law_edit_marks(e, ix, 0, caret, ""@, k, o);
    assert(edited.blocks[ix].text =~= crate::text::after(e.blocks[ix].text, caret));
    assert(crate::view::is_index(e.blocks, id, ix));
    crate::view::lemma_find(e.blocks, id);
    crate::view::lemma_same_ids(e.blocks, edited.blocks);
    crate::view::lemma_same_ids(e.blocks, turned.blocks);
    assert(forall|j: int|
        0 <= j < e.blocks.len() && j != ix ==> (#[trigger] turned.blocks[j]) == e.blocks[j]);
    if textual {
        lemma_start(turned, id, ix);
        crate::laws::lemma_focus_contents(turned, id, Caret::Start);
        lemma_contents(turned.blocks, n.blocks);
    } else {
        let below = turned.ensure_paragraph_after(ix);
        let next = turned.paragraph_after(ix);
        law_paragraph_after(turned, ix);
        lemma_first_is(turned, below, ix);
        lemma_start(below, next, ix + 1);
        crate::laws::lemma_focus_contents(below, next, Caret::Start);
        lemma_contents(below.blocks, n.blocks);
    }
}

/// The paragraph below a block is found by its id.
proof fn lemma_first_is(e: EditorView, n: EditorView, ix: int)
    requires
        0 <= ix < e.blocks.len(),
        0 <= e.next_id < u64::MAX,
        forall|j: int| 0 <= j < e.blocks.len() ==> (#[trigger] e.blocks[j]).id.0 < e.next_id,
        forall|i: int, j: int|
            0 <= i < j < e.blocks.len() ==> (#[trigger] e.blocks[i]).id != (
            #[trigger] e.blocks[j]).id,
        n == e.ensure_paragraph_after(ix),
    ensures
        crate::view::find(n.blocks, e.paragraph_after(ix)) == Some(ix + 1),
{
    law_paragraph_after(e, ix);
    let id = e.paragraph_after(ix);
    assert forall|j: int| 0 <= j < ix + 1 implies (#[trigger] n.blocks[j]).id != id by {
        assert(n.blocks[j] == e.blocks[j]);
    }
    assert(crate::view::is_index(n.blocks, id, ix + 1));
    crate::view::lemma_find(n.blocks, id);
}

/// The caret at the start of a block of text.
proof fn lemma_start(e: EditorView, id: BlockId, ix: int)
    requires
        crate::view::find(e.blocks, id) == Some(ix),
    ensures
        ({
            let n = e.focus_block(id, Caret::Start);
            e.caps_at(ix).textual ==> n.focused == Some(id) && n.blocks[ix].input == Selection::at(
                0,
            )
        }),
{
    crate::view::lemma_find(e.blocks, id);
}

/// Documents of the same content agree block by block.
proof fn lemma_contents(
    a: Seq<crate::block::BlockView>,
    b: Seq<crate::block::BlockView>,
)
    requires
        crate::view::contents_of(a) == crate::view::contents_of(b),
    ensures
        a.len() == b.len(),
        forall|j: int| 0 <= j < a.len() ==> (#[trigger] b[j]).content() == a[j].content(),
{
    assert(crate::view::contents_of(a).len() == a.len());
    assert(crate::view::contents_of(b).len() == b.len());
    assert forall|j: int| 0 <= j < a.len() implies (#[trigger] b[j]).content() == a[j].content() by {
        assert(crate::view::contents_of(a)[j] == a[j].content());
        assert(crate::view::contents_of(b)[j] == b[j].content());
    }
}

/// A line is read as markdown where rules apply to it: the first rule whose
/// pattern, without the `$` at its end, matches a prefix that is not empty and
/// that asks for something new takes that prefix off and gives its type.
/// Otherwise the line stays as it is.
pub proof fn law_line_read(
    e: EditorView,
    ty: Seq<char>,
    attrs: crate::block::AttrsView,
    line: Seq<char>,
)
    ensures
        ({
            let read = e.read_line(ty, attrs, line);
            let applies = e.input_rule_mode == crate::input_rules::InputRuleMode::BuiltIn && (
            e.reg.caps)(ty).input_rules;
            ||| read.ty == ty && read.attrs == attrs && read.text == line && (applies
                ==> forall|j: int|
                0 <= j < e.reg.rules.len() ==> !#[trigger] line_rule_fires(e, j, ty, attrs, line))
            ||| applies && exists|i: int|
                0 <= i < e.reg.rules.len() && #[trigger] line_rule_fires(e, i, ty, attrs, line) && {
                    let caps = line_match(e, i, line)->0;
                    let built = (e.reg.rules[i].build)(caps)->0;
                    &&& read.ty == built.0
                    &&& read.attrs == built.1
                    &&& read.text == crate::text::after(line, (caps.groups[0].1->0).1)
                    &&& forall|j: int|
                        0 <= j < i ==> !#[trigger] line_rule_fires(e, j, ty, attrs, line)
                }
        }),
{
    lemma_line_read(e, ty, attrs, line, 0);
    if let Some(target) = crate::ready::first_target(e.reg, ty, attrs, line, 0) {
        let i = choose|i: int|
            0 <= i < e.reg.rules.len() && #[trigger] line_rule_fires(e, i, ty, attrs, line)
                && Some(target) == crate::ready::line_target(e.reg.rules[i], ty, attrs, line)
                && forall|j: int| 0 <= j < i ==> !#[trigger] line_rule_fires(e, j, ty, attrs, line);
        assert(line_rule_fires(e, i, ty, attrs, line));
    }
}

/// The match of rule `i` in a line.
pub open spec fn line_match(e: EditorView, i: int, line: Seq<char>) -> Option<
    crate::pattern::CapturesView,
> {
    crate::pattern::match_of(crate::input_rules::open_ended(e.reg.rules[i].pattern), line)
}

/// Whether rule `i` fires on a line in a block of type `ty`.
pub open spec fn line_rule_fires(
    e: EditorView,
    i: int,
    ty: Seq<char>,
    attrs: crate::block::AttrsView,
    line: Seq<char>,
) -> bool {
    let found = line_match(e, i, line);
    &&& found is Some
    &&& (found->0.groups[0].1->0).0 == 0
    &&& (found->0.groups[0].1->0).1 != 0
    &&& (e.reg.rules[i].build)(found->0) is Some
    &&& (((e.reg.rules[i].build)(found->0)->0).0 != ty || ((e.reg.rules[i].build)(found->0)->0).1
        != attrs)
}

proof fn lemma_line_read(
    e: EditorView,
    ty: Seq<char>,
    attrs: crate::block::AttrsView,
    line: Seq<char>,
    from: int,
)
    requires
        0 <= from <= e.reg.rules.len(),
    ensures
        match crate::ready::first_target(e.reg, ty, attrs, line, from) {
            Some(target) => exists|i: int|
                from <= i < e.reg.rules.len() && #[trigger] line_rule_fires(e, i, ty, attrs, line)
                    && Some(target) == crate::ready::line_target(e.reg.rules[i], ty, attrs, line)
                    && forall|j: int|
                    from <= j < i ==> !#[trigger] line_rule_fires(e, j, ty, attrs, line),
            None => forall|j: int|
                from <= j < e.reg.rules.len() ==> !#[trigger] line_rule_fires(
                    e,
                    j,
                    ty,
                    attrs,
                    line,
                ),
        },
    decreases e.reg.rules.len() - from,
{
    if from < e.reg.rules.len() {
        if crate::ready::line_target(e.reg.rules[from], ty, attrs, line) is Some {
            assert(line_rule_fires(e, from, ty, attrs, line));
        } else {
            assert(!line_rule_fires(e, from, ty, attrs, line));
            lemma_line_read(e, ty, attrs, line, from + 1);
            if let Some(target) = crate::ready::first_target(e.reg, ty, attrs, line, from) {
                let i = choose|i: int|
                    from + 1 <= i < e.reg.rules.len() && #[trigger] line_rule_fires(
                        e,
                        i,
                        ty,
                        attrs,
                        line,
                    ) && Some(target) == crate::ready::line_target(
                        e.reg.rules[i],
                        ty,
                        attrs,
                        line,
                    ) && forall|j: int|
                        from + 1 <= j < i ==> !#[trigger] line_rule_fires(e, j, ty, attrs, line);
                assert(line_rule_fires(e, i, ty, attrs, line));
            }
        }
    }
}

/// A pattern without the `$` at its end: what is left ends with no `$`, and the
/// rest is nothing else.
pub proof fn law_open_ended(pattern: Seq<char>)
    ensures
        ({
            let open = crate::input_rules::open_ended(pattern);
            &&& open.len() <= pattern.len()
            &&& open == pattern.take(open.len() as int)
            &&& open.len() > 0 ==> open[open.len() - 1] != '$'
            &&& forall|i: int| open.len() <= i < pattern.len() ==> (#[trigger] pattern[i]) == '$'
        }),
    decreases pattern.len(),
{
    let open = crate::input_rules::open_ended(pattern);
    if pattern.len() > 0 && pattern.last() == '$' {
        let rest = pattern.drop_last();
        law_open_ended(rest);
        assert(open =~= pattern.take(open.len() as int));
        assert forall|i: int| open.len() <= i < pattern.len() implies (#[trigger] pattern[i])
            == '$' by {
            if i < rest.len() {
                assert(rest[i] == '$');
            }
        }
    } else {
        assert(open =~= pattern.take(open.len() as int));
    }
}

/// After a paste the caret stands at the end of the last of its blocks, where
/// that holds text, and that block is selected where it does not.
pub proof fn law_paste_caret(e: EditorView, id: BlockId)
    requires
        e.wf(),
        e.split_pasted_lines(id) is Some,
        crate::view::find(e.blocks, id) matches Some(ix) ==> e.next_id + crate::text::lines(
            e.blocks[ix].text,
        ).len() <= u64::MAX,
    ensures
        ({
            let n = e.split_pasted_lines(id)->0;
            let ix = crate::view::find(e.blocks, id)->0;
            let at = ix + crate::text::lines(e.blocks[ix].text).len() - 1;
            let last = n.blocks[at];
            &&& (e.reg.caps)(last.ty).textual ==> n.focused == Some(last.id) && last.input
                == Selection::at(crate::text::blen(last.text))
            &&& !(e.reg.caps)(last.ty).textual ==> n.focused is None && n.selected == seq![last.id]
        }),
{
    reveal(EditorView::split_pasted_lines);
    crate::view::lemma_find(e.blocks, id);
    let ix = crate::view::find(e.blocks, id)->0;
    let lines = crate::text::lines(e.blocks[ix].text);
    crate::text::lemma_lines_from(e.blocks[ix].text, 0);
    crate::text::lemma_many_lines(e.blocks[ix].text);
    let set = e.set_block_text(ix, lines[0], crate::text::blen(lines[0]));
    crate::view::lemma_same_ids(e.blocks, set.blocks);
    crate::edit::lemma_markdown_frame(set, id);
    let head = set.read_markdown(id);
    assert forall|j: int| 0 <= j < head.blocks.len() implies (#[trigger] head.blocks[j]).id.0
        < head.next_id by {
        assert(set.blocks[j].id == e.blocks[j].id);
        assert(j != ix ==> head.blocks[j] == set.blocks[j]);
    }
    let rest = lines.drop_first();
    let put = head.insert_lines(ix, rest);
    let last = BlockId((head.next_id + rest.len() - 1) as u64);
    crate::laws::lemma_last_line(head, ix, rest);
    crate::view::lemma_find(put.blocks, last);
    let text = put.blocks[ix + rest.len()].text;
    crate::text::lemma_ends(text);
    crate::text::lemma_snap(text, crate::text::blen(text));
}

/// Whether node rule `i` fires on a block of type `ty` into which `head` was
/// typed: its match is all of `head`, and it asks for something new.
pub open spec fn stops_typing(
    reg: crate::block::RegistryView,
    ty: Seq<char>,
    attrs: crate::block::AttrsView,
    head: Seq<char>,
    i: int,
) -> bool {
    let found = crate::pattern::match_of(reg.rules[i].pattern, head);
    let built = (reg.rules[i].build)(found->0);
    &&& found is Some
    &&& (found->0.groups[0].1->0).0 == 0
    &&& (found->0.groups[0].1->0).1 == crate::text::blen(head)
    &&& built is Some
    &&& ((built->0).0 != ty || (built->0).1 != attrs)
}

/// Whether inline rule `i` fires on `head`: it has a match with a body that
/// holds more than white space.
pub open spec fn stops_inline(head: Seq<char>, i: int) -> bool {
    let found = crate::pattern::match_of(crate::input_rules::inline_rule(i).0, head);
    &&& found is Some
    &&& found->0.group(1) is Some
    &&& found->0.named("body"@) is Some
    &&& ({
        let span = found->0.named("body"@)->0;
        let body = crate::text::after(crate::text::before(found->0.text, span.1), span.0);
        exists|c: int| 0 <= c < body.len() && !crate::text::is_white(#[trigger] body[c])
    })
}

proof fn lemma_node_ready(
    reg: crate::block::RegistryView,
    ty: Seq<char>,
    attrs: crate::block::AttrsView,
    head: Seq<char>,
    from: int,
)
    requires
        0 <= from <= reg.rules.len(),
    ensures
        crate::ready::node_ready(reg, ty, attrs, head, from) <==> forall|i: int|
            from <= i < reg.rules.len() && (forall|j: int|
                from <= j < i ==> !#[trigger] stops_typing(reg, ty, attrs, head, j))
                ==> crate::pattern::pattern_compiles((#[trigger] reg.rules[i]).pattern),
        crate::ready::node_fires(reg, ty, attrs, head, from) <==> exists|i: int|
            from <= i < reg.rules.len() && #[trigger] stops_typing(reg, ty, attrs, head, i),
    decreases reg.rules.len() - from,
{
    if from < reg.rules.len() {
        lemma_node_ready(reg, ty, attrs, head, from + 1);
        let stops = stops_typing(reg, ty, attrs, head, from);
        assert(stops <==> crate::ready::typed_target(reg.rules[from], ty, attrs, head) is Some);
        if crate::ready::node_ready(reg, ty, attrs, head, from) {
            assert forall|i: int|
                from <= i < reg.rules.len() && (forall|j: int|
                    from <= j < i ==> !#[trigger] stops_typing(
                        reg,
                        ty,
                        attrs,
                        head,
                        j,
                    )) implies crate::pattern::pattern_compiles((#[trigger] reg.rules[i]).pattern) by {
                if i > from {
                    assert(!stops_typing(reg, ty, attrs, head, from));
                }
            }
        }
        if forall|i: int|
            from <= i < reg.rules.len() && (forall|j: int|
                from <= j < i ==> !#[trigger] stops_typing(reg, ty, attrs, head, j))
                ==> crate::pattern::pattern_compiles((#[trigger] reg.rules[i]).pattern) {
            assert(crate::pattern::pattern_compiles(reg.rules[from].pattern));
            if !stops {
                assert forall|i: int|
                    from + 1 <= i < reg.rules.len() && (forall|j: int|
                        from + 1 <= j < i ==> !#[trigger] stops_typing(
                            reg,
                            ty,
                            attrs,
                            head,
                            j,
                        )) implies crate::pattern::pattern_compiles(
                    (#[trigger] reg.rules[i]).pattern,
                ) by {
                    assert forall|j: int| from <= j < i implies !#[trigger] stops_typing(
                        reg,
                        ty,
                        attrs,
                        head,
                        j,
                    ) by {}
                }
            }
        }
        if exists|i: int|
            from <= i < reg.rules.len() && #[trigger] stops_typing(reg, ty, attrs, head, i) {
            let i = choose|i: int|
                from <= i < reg.rules.len() && #[trigger] stops_typing(reg, ty, attrs, head, i);
            if i > from {
                assert(stops_typing(reg, ty, attrs, head, i));
            }
        }
    }
}

proof fn lemma_inline_ready(head: Seq<char>, from: int)
    requires
        0 <= from <= crate::input_rules::INLINE_RULES,
    ensures
        crate::ready::inline_ready(head, from) <==> forall|i: int|
            from <= i < crate::input_rules::INLINE_RULES && (forall|j: int|
                from <= j < i ==> !#[trigger] stops_inline(head, j))
                ==> crate::pattern::pattern_compiles(
                (#[trigger] crate::input_rules::inline_rule(i)).0,
            ),
    decreases crate::input_rules::INLINE_RULES - from,
{
    if from < crate::input_rules::INLINE_RULES {
        lemma_inline_ready(head, from + 1);
        let pattern = crate::input_rules::inline_rule(from).0;
        let stops = stops_inline(head, from);
        assert(stops <==> crate::ready::inline_applies(crate::pattern::match_of(pattern, head)));
        if crate::ready::inline_ready(head, from) {
            assert forall|i: int|
                from <= i < crate::input_rules::INLINE_RULES && (forall|j: int|
                    from <= j < i ==> !#[trigger] stops_inline(
                        head,
                        j,
                    )) implies crate::pattern::pattern_compiles(
                (#[trigger] crate::input_rules::inline_rule(i)).0,
            ) by {
                if i > from {
                    assert(!stops_inline(head, from));
                }
            }
        }
        if forall|i: int|
            from <= i < crate::input_rules::INLINE_RULES && (forall|j: int|
                from <= j < i ==> !#[trigger] stops_inline(head, j))
                ==> crate::pattern::pattern_compiles(
                (#[trigger] crate::input_rules::inline_rule(i)).0,
            ) {
            assert(crate::pattern::pattern_compiles(crate::input_rules::inline_rule(from).0));
            if !stops {
                assert forall|i: int|
                    from + 1 <= i < crate::input_rules::INLINE_RULES && (forall|j: int|
                        from + 1 <= j < i ==> !#[trigger] stops_inline(
                            head,
                            j,
                        )) implies crate::pattern::pattern_compiles(
                    (#[trigger] crate::input_rules::inline_rule(i)).0,
                ) by {
                    assert forall|j: int| from <= j < i implies !#[trigger] stops_inline(
                        head,
                        j,
                    ) by {}
                }
            }
        }
    }
}

/// Typed text can be matched exactly where every pattern that gets its turn is a
/// regular expression. Those of the node rules get theirs until one fires, and
/// those of the inline rules, where none does, until one of them fires.
pub proof fn law_typed_ready(
    reg: crate::block::RegistryView,
    ty: Seq<char>,
    attrs: crate::block::AttrsView,
    head: Seq<char>,
)
    ensures
        crate::ready::typed_ready(reg, ty, attrs, head) <==> {
            &&& forall|i: int|
                0 <= i < reg.rules.len() && (forall|j: int|
                    0 <= j < i ==> !#[trigger] stops_typing(reg, ty, attrs, head, j))
                    ==> crate::pattern::pattern_compiles((#[trigger] reg.rules[i]).pattern)
            &&& (forall|j: int|
                0 <= j < reg.rules.len() ==> !#[trigger] stops_typing(reg, ty, attrs, head, j))
                ==> forall|i: int|
                0 <= i < crate::input_rules::INLINE_RULES && (forall|j: int|
                    0 <= j < i ==> !#[trigger] stops_inline(head, j))
                    ==> crate::pattern::pattern_compiles(
                    (#[trigger] crate::input_rules::inline_rule(i)).0,
                )
        },
{
    lemma_node_ready(reg, ty, attrs, head, 0);
    lemma_inline_ready(head, 0);
}

/// Whether every pattern that gets its turn on a line in a block of type `ty` is
/// a regular expression: those of the rules until one fires, where rules apply
/// at all.
pub open spec fn line_can_be_read(
    e: EditorView,
    ty: Seq<char>,
    attrs: crate::block::AttrsView,
    line: Seq<char>,
) -> bool {
    e.input_rule_mode == crate::input_rules::InputRuleMode::BuiltIn && (e.reg.caps)(ty).input_rules
        ==> forall|i: int|
        0 <= i < e.reg.rules.len() && (forall|j: int|
            0 <= j < i ==> !#[trigger] line_rule_fires(e, j, ty, attrs, line))
            ==> crate::pattern::pattern_compiles(
            crate::input_rules::open_ended((#[trigger] e.reg.rules[i]).pattern),
        )
}

proof fn lemma_prefix_ready(
    e: EditorView,
    ty: Seq<char>,
    attrs: crate::block::AttrsView,
    line: Seq<char>,
    from: int,
)
    requires
        0 <= from <= e.reg.rules.len(),
    ensures
        crate::ready::prefix_ready(e.reg, ty, attrs, line, from) <==> forall|i: int|
            from <= i < e.reg.rules.len() && (forall|j: int|
                from <= j < i ==> !#[trigger] line_rule_fires(e, j, ty, attrs, line))
                ==> crate::pattern::pattern_compiles(
                crate::input_rules::open_ended((#[trigger] e.reg.rules[i]).pattern),
            ),
    decreases e.reg.rules.len() - from,
{
    if from < e.reg.rules.len() {
        lemma_prefix_ready(e, ty, attrs, line, from + 1);
        let stops = line_rule_fires(e, from, ty, attrs, line);
        assert(stops <==> crate::ready::line_target(e.reg.rules[from], ty, attrs, line) is Some);
        if crate::ready::prefix_ready(e.reg, ty, attrs, line, from) {
            assert forall|i: int|
                from <= i < e.reg.rules.len() && (forall|j: int|
                    from <= j < i ==> !#[trigger] line_rule_fires(
                        e,
                        j,
                        ty,
                        attrs,
                        line,
                    )) implies crate::pattern::pattern_compiles(
                crate::input_rules::open_ended((#[trigger] e.reg.rules[i]).pattern),
            ) by {
                if i > from {
                    assert(!line_rule_fires(e, from, ty, attrs, line));
                }
            }
        }
        if forall|i: int|
            from <= i < e.reg.rules.len() && (forall|j: int|
                from <= j < i ==> !#[trigger] line_rule_fires(e, j, ty, attrs, line))
                ==> crate::pattern::pattern_compiles(
                crate::input_rules::open_ended((#[trigger] e.reg.rules[i]).pattern),
            ) {
            assert(crate::pattern::pattern_compiles(
                crate::input_rules::open_ended(e.reg.rules[from].pattern),
            ));
            if !stops {
                assert forall|i: int|
                    from + 1 <= i < e.reg.rules.len() && (forall|j: int|
                        from + 1 <= j < i ==> !#[trigger] line_rule_fires(
                            e,
                            j,
                            ty,
                            attrs,
                            line,
                        )) implies crate::pattern::pattern_compiles(
                    crate::input_rules::open_ended((#[trigger] e.reg.rules[i]).pattern),
                ) by {
                    assert forall|j: int| from <= j < i implies !#[trigger] line_rule_fires(
                        e,
                        j,
                        ty,
                        attrs,
                        line,
                    ) by {}
                }
            }
        }
    }
}

/// A change is taken in exactly where every pattern that it has the rules match
/// with is a regular expression. One that changes nothing, or that no rule
/// applies to, always is; of a paste that falls apart each line has to be
/// readable, those behind the first in blocks like the one that the first
/// becomes.
pub proof fn law_change_taken(e: EditorView, id: BlockId, new_text: Seq<char>, input: Selection)
    requires
        crate::view::known(e.blocks, id),
    ensures
        ({
            let ix = crate::view::find(e.blocks, id)->0;
            let block = e.blocks[ix];
            let caps = (e.reg.caps)(block.ty);
            let lines = crate::text::lines(new_text);
            let first = e.read_line(block.ty, block.attrs, lines[0]);
            e.change_ready(id, new_text, input) <==> if block.text == new_text {
                true
            } else if crate::edit::pasted(block.text, new_text) && new_text.contains('\n')
                && !caps.multiline {
                line_can_be_read(e, block.ty, block.attrs, lines[0]) && forall|k: int|
                    1 <= k < lines.len() ==> line_can_be_read(
                        e,
                        first.ty,
                        first.attrs,
                        #[trigger] lines[k],
                    )
            } else {
                e.input_rule_mode == crate::input_rules::InputRuleMode::BuiltIn && caps.input_rules
                    ==> crate::ready::typed_ready(
                    e.reg,
                    block.ty,
                    block.attrs,
                    crate::text::before(new_text, input.cursor as int),
                )
            }
        }),
{
    crate::view::lemma_find(e.blocks, id);
    let ix = crate::view::find(e.blocks, id)->0;
    let block = e.blocks[ix];
    let lines = crate::text::lines(new_text);
    let first = e.read_line(block.ty, block.attrs, lines[0]);
    lemma_prefix_ready(e, block.ty, block.attrs, lines[0], 0);
    assert forall|k: int| 1 <= k < lines.len() implies (line_can_be_read(
        e,
        first.ty,
        first.attrs,
        #[trigger] lines[k],
    ) <==> e.line_ready(first.ty, first.attrs, lines[k])) by {
        lemma_prefix_ready(e, first.ty, first.attrs, lines[k], 0);
    }
}

/// What a paste does to the block it was made into: the first line carries the
/// marks that were over those bytes, where no rule fires on it, and is nested as
/// the block was.
pub proof fn law_paste_first(e: EditorView, id: BlockId, k: crate::mark::KindView, o: int)
    requires
        e.wf(),
        e.split_pasted_lines(id) is Some,
        crate::view::find(e.blocks, id) matches Some(ix) ==> e.next_id + crate::text::lines(
            e.blocks[ix].text,
        ).len() <= u64::MAX,
    ensures
        ({
            let n = e.split_pasted_lines(id)->0;
            let ix = crate::view::find(e.blocks, id)->0;
            let (was, now) = (e.blocks[ix], n.blocks[ix]);
            let line = crate::text::lines(was.text)[0];
            let read = e.read_line(was.ty, was.attrs, line);
            let same = read.ty == was.ty && read.attrs == was.attrs;
            &&& same ==> (crate::mark::covers(now.marks, k, o) <==> crate::mark::covers(
                was.marks,
                k,
                o,
            ) && o < crate::text::blen(line))
            &&& now.indent == (if same || (e.reg.caps)(read.ty).list {
                was.indent
            } else {
                0
            })
            &&& n.focused is Some ==> n.selected.len() == 0
            &&& crate::laws::announced(e, n)
        }),
{
    reveal(EditorView::split_pasted_lines);
    crate::view::lemma_find(e.blocks, id);
    let ix = crate::view::find(e.blocks, id)->0;
    let lines = crate::text::lines(e.blocks[ix].text);
    crate::text::lemma_lines_from(e.blocks[ix].text, 0);
    crate::text::lemma_many_lines(e.blocks[ix].text);
    let set = e.set_block_text(ix, lines[0], crate::text::blen(lines[0]));
    crate::view::lemma_same_ids(e.blocks, set.blocks);
    crate::edit::lemma_markdown_frame(set, id);
    law_set_text(e, ix, lines[0], 0, k, o);
    let head = set.read_markdown(id);
    assert forall|j: int| 0 <= j < head.blocks.len() implies (#[trigger] head.blocks[j]).id.0
        < head.next_id by {
        assert(set.blocks[j].id == e.blocks[j].id);
        assert(j != ix ==> head.blocks[j] == set.blocks[j]);
    }
    let rest = lines.drop_first();
    let put = head.insert_lines(ix, rest);
    let last = BlockId((head.next_id + rest.len() - 1) as u64);
    crate::laws::lemma_last_line(head, ix, rest);
    crate::laws::lemma_insert_lines_read(head, ix, rest);
    crate::laws::lemma_focus_contents(put, last, Caret::End);
    let n = e.split_pasted_lines(id)->0;
    lemma_contents(put.blocks, n.blocks);
    assert(n.blocks[ix].content() == put.blocks[ix].content());
    crate::laws::lemma_split_grows(e, id);
    assert(n.effects[n.effects.len() - 2] == crate::effect::EffectView::Document);
}

} // verus!
