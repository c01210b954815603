//! Text addressed by byte offset.
//!
//! A block's text is a string, and carets, selections and marks are byte
//! offsets into its UTF-8 encoding. The spec functions here say what such an
//! offset means in terms of characters; the executable ones cut and join
//! strings at offsets.

use vstd::prelude::*;
use vstd::string::*;
use vstd::utf8::*;

verus! {

broadcast use vstd::string::group_string_axioms;

/// Length of `s` in bytes.
pub open spec fn blen(s: Seq<char>) -> int {
    encode_utf8(s).len() as int
}

/// Whether the byte offset `o` falls between two characters of `s`.
pub open spec fn boundary(s: Seq<char>, o: int) -> bool {
    is_char_boundary(encode_utf8(s), o)
}

/// The characters of `s` that end at or before the byte offset `o`.
pub open spec fn before(s: Seq<char>, o: int) -> Seq<char> {
    decode_utf8(encode_utf8(s).subrange(0, o))
}

/// The characters of `s` that start at or after the byte offset `o`.
pub open spec fn after(s: Seq<char>, o: int) -> Seq<char> {
    decode_utf8(encode_utf8(s).subrange(o, blen(s)))
}

/// The characters of `s` between the byte offsets `a` and `b`.
pub open spec fn slice(s: Seq<char>, a: int, b: int) -> Seq<char> {
    after(before(s, b), a)
}

/// `s` with the bytes `a..b` replaced by `r`.
pub open spec fn splice(s: Seq<char>, a: int, b: int, r: Seq<char>) -> Seq<char> {
    before(s, a) + r + after(s, b)
}

proof fn lemma_boundary_range(bytes: Seq<u8>, o: int)
    requires
        valid_utf8(bytes),
        is_char_boundary(bytes, o),
    ensures
        0 <= o <= bytes.len(),
{
}

/// Cutting at a boundary loses nothing, and the first part is `o` bytes long.
pub proof fn lemma_split(s: Seq<char>, o: int)
    requires
        boundary(s, o),
    ensures
        0 <= o <= blen(s),
        before(s, o) + after(s, o) == s,
        blen(before(s, o)) == o,
        blen(after(s, o)) == blen(s) - o,
        before(s, o) == s.take(before(s, o).len() as int),
        after(s, o) == s.skip(before(s, o).len() as int),
        before(s, o).len() <= s.len(),
{
    broadcast use group_utf8_lib;

    let bytes = encode_utf8(s);
    lemma_boundary_range(bytes, o);
    decode_utf8_split(bytes, o);
    valid_utf8_split(bytes, o);
    assert(before(s, o) + after(s, o) =~= s);
    assert(before(s, o) =~= s.take(before(s, o).len() as int));
    assert(after(s, o) =~= s.skip(before(s, o).len() as int));
}

/// The encoding of a concatenation is the concatenation of the encodings.
pub proof fn lemma_encode_concat(x: Seq<char>, y: Seq<char>)
    ensures
        encode_utf8(x + y) == encode_utf8(x) + encode_utf8(y),
        blen(x + y) == blen(x) + blen(y),
    decreases x.len(),
{
    if x.len() == 0 {
        assert(x + y =~= y);
        assert(encode_utf8(x) + encode_utf8(y) =~= encode_utf8(y));
    } else {
        lemma_encode_concat(x.drop_first(), y);
        assert((x + y).drop_first() =~= x.drop_first() + y);
        assert((x + y)[0] == x[0]);
        assert(encode_utf8(x + y) =~= encode_utf8(x) + encode_utf8(y));
    }
}

proof fn lemma_boundary_concat(x: Seq<char>, y: Seq<char>)
    ensures
        boundary(x + y, blen(x)),
    decreases x.len(),
{
    broadcast use group_utf8_lib;

    let bytes = encode_utf8(x + y);
    if x.len() > 0 {
        lemma_boundary_concat(x.drop_first(), y);
        lemma_encode_concat(x, y);
        lemma_encode_concat(x.drop_first(), y);
        assert((x + y).drop_first() =~= x.drop_first() + y);
        encode_utf8_first_scalar(x + y);
        assert((x + y)[0] == x[0]);
        assert(pop_first_scalar(bytes) =~= encode_utf8((x + y).drop_first()));
        assert(blen(x) == encode_scalar(x[0] as u32).len() + blen(x.drop_first()));
    }
}

/// Cutting a concatenation where it was joined gives its two parts back.
pub proof fn lemma_join(x: Seq<char>, y: Seq<char>)
    ensures
        blen(x + y) == blen(x) + blen(y),
        boundary(x + y, blen(x)),
        before(x + y, blen(x)) == x,
        after(x + y, blen(x)) == y,
{
    broadcast use group_utf8_lib;

    lemma_encode_concat(x, y);
    lemma_boundary_concat(x, y);
    assert(encode_utf8(x + y).subrange(0, blen(x)) =~= encode_utf8(x));
    assert(encode_utf8(x + y).subrange(blen(x), blen(x + y)) =~= encode_utf8(y));
}

/// Both ends of a text are boundaries.
pub proof fn lemma_ends(s: Seq<char>)
    ensures
        boundary(s, 0),
        boundary(s, blen(s)),
        blen(s) >= s.len(),
        blen(s) == 0 <==> s.len() == 0,
        before(s, blen(s)) == s,
        after(s, 0) == s,
        before(s, 0) == Seq::<char>::empty(),
        after(s, blen(s)) == Seq::<char>::empty(),
    decreases s.len(),
{
    broadcast use group_utf8_lib;

    let bytes = encode_utf8(s);
    is_char_boundary_start_end_of_seq(bytes);
    if s.len() > 0 {
        lemma_ends(s.drop_first());
        assert(encode_scalar(s[0] as u32).len() >= 1);
    }
    assert(bytes.subrange(0, blen(s)) =~= bytes);
    assert(bytes.subrange(0, 0) =~= encode_utf8(Seq::<char>::empty()));
    assert(bytes.subrange(blen(s), blen(s)) =~= encode_utf8(Seq::<char>::empty()));
}

/// Every prefix of `s` ends at a boundary.
pub proof fn lemma_prefix_boundary(s: Seq<char>, p: int)
    requires
        0 <= p <= s.len(),
    ensures
        boundary(s, blen(s.take(p))),
        before(s, blen(s.take(p))) == s.take(p),
        after(s, blen(s.take(p))) == s.skip(p),
        blen(s.take(p)) + blen(s.skip(p)) == blen(s),
{
    assert(s.take(p) + s.skip(p) =~= s);
    lemma_join(s.take(p), s.skip(p));
}

/// Boundaries are ordered as the characters they fall between.
pub proof fn lemma_order(s: Seq<char>, a: int, b: int)
    requires
        boundary(s, a),
        boundary(s, b),
        a <= b,
    ensures
        before(s, a).len() <= before(s, b).len(),
{
    lemma_split(s, a);
    lemma_split(s, b);
    let p = before(s, a).len() as int;
    let q = before(s, b).len() as int;
    if p > q {
        let mid = s.subrange(q, p);
        assert(s.take(q) + mid =~= s.take(p));
        lemma_encode_concat(s.take(q), mid);
        lemma_ends(mid);
    }
}

/// Two boundaries cut a text in three.
pub proof fn lemma_slice(s: Seq<char>, a: int, b: int)
    requires
        boundary(s, a),
        boundary(s, b),
        a <= b,
    ensures
        boundary(before(s, b), a),
        before(before(s, b), a) == before(s, a),
        before(s, a) + slice(s, a, b) + after(s, b) == s,
        blen(slice(s, a, b)) == b - a,
        before(s, a).len() <= before(s, b).len(),
        slice(s, a, b) == s.subrange(before(s, a).len() as int, before(s, b).len() as int),
{
    lemma_order(s, a, b);
    lemma_split(s, a);
    lemma_split(s, b);
    let p = before(s, a).len() as int;
    let q = before(s, b).len() as int;
    let head = before(s, b);
    assert(head.take(p) =~= s.take(p));
    lemma_prefix_boundary(head, p);
    assert(head.skip(p) =~= s.subrange(p, q));
    assert(before(s, a) + slice(s, a, b) + after(s, b) =~= s);
}

/// Where the parts of a spliced text end up.
pub proof fn lemma_splice(s: Seq<char>, a: int, b: int, r: Seq<char>)
    requires
        boundary(s, a),
        boundary(s, b),
        a <= b,
    ensures
        blen(splice(s, a, b, r)) == blen(s) - (b - a) + blen(r),
        boundary(splice(s, a, b, r), a),
        boundary(splice(s, a, b, r), a + blen(r)),
        before(splice(s, a, b, r), a) == before(s, a),
        before(splice(s, a, b, r), a + blen(r)) == before(s, a) + r,
        after(splice(s, a, b, r), a + blen(r)) == after(s, b),
        slice(splice(s, a, b, r), a, a + blen(r)) == r,
{
    lemma_split(s, a);
    lemma_split(s, b);
    let x = before(s, a);
    let y = after(s, b);
    lemma_join(x + r, y);
    lemma_join(x, r);
    assert(x + r + y =~= x + (r + y));
    lemma_join(x, r + y);
}

/// What holds of a prefix of `s` holds in `s`: its boundaries, and the
/// stretches between them.
pub proof fn lemma_within(s: Seq<char>, o: int, a: int)
    requires
        boundary(s, o),
        boundary(before(s, o), a),
    ensures
        0 <= a <= o,
        boundary(s, a),
        before(s, a) == before(before(s, o), a),
        slice(s, a, o) == after(before(s, o), a),
{
    let head = before(s, o);
    lemma_split(s, o);
    lemma_split(head, a);
    let x = before(head, a);
    let y = after(head, a);
    assert(x + (y + after(s, o)) =~= s);
    lemma_join(x, y + after(s, o));
}

/// A suffix of `s` starts at a boundary.
pub proof fn lemma_suffix(s: Seq<char>, p: Seq<char>)
    requires
        ends_with(s, p),
    ensures
        boundary(s, blen(s) - blen(p)),
        0 <= blen(s) - blen(p),
        after(s, blen(s) - blen(p)) == p,
{
    let x = s.take(s.len() - p.len());
    assert(x + p =~= s);
    lemma_join(x, p);
    lemma_ends(x);
}

/// Length of `s` in bytes.
pub fn text_len(s: &str) -> (n: usize)
    ensures
        n == blen(s@),
{
    s.as_bytes().len()
}

/// A text in memory has a length that fits a machine word.
pub fn fits_memory(s: &str)
    ensures
        blen(s@) <= usize::MAX,
{
    let _ = text_len(s);
}

/// Whether `o` is the offset of a character of `s`, or its end.
pub fn is_boundary(s: &str, o: usize) -> (b: bool)
    ensures
        b == boundary(s@, o as int),
{
    s.is_char_boundary(o)
}

/// Cut `s` at the offset `o`.
pub fn cut(s: &str, o: usize) -> (parts: (&str, &str))
    requires
        boundary(s@, o as int),
    ensures
        parts.0@ == before(s@, o as int),
        parts.1@ == after(s@, o as int),
{
    let parts = s.split_at(o);
    proof {
        broadcast use group_utf8_lib;
        lemma_split(s@, o as int);
        assert(decode_utf8(encode_utf8(parts.0@)) == parts.0@);
        assert(decode_utf8(encode_utf8(parts.1@)) == parts.1@);
    }
    parts
}

/// The text of `s` between the offsets `a` and `b`.
pub fn text_slice(s: &str, a: usize, b: usize) -> (part: &str)
    requires
        boundary(s@, a as int),
        boundary(s@, b as int),
        a <= b,
    ensures
        part@ == slice(s@, a as int, b as int),
{
    proof {
        lemma_slice(s@, a as int, b as int);
    }
    let (head, _tail) = cut(s, b);
    let (_front, part) = cut(head, a);
    part
}

/// `s` with the bytes `a..b` replaced by `r`.
pub fn text_splice(s: &str, a: usize, b: usize, r: &str) -> (spliced: String)
    requires
        boundary(s@, a as int),
        boundary(s@, b as int),
    ensures
        spliced@ == splice(s@, a as int, b as int, r@),
{
    let (head, _rest) = cut(s, a);
    let (_front, tail) = cut(s, b);
    let mut spliced = head.to_owned();
    spliced.append(r);
    spliced.append(tail);
    spliced
}

/// The characters of `s`.
pub fn to_chars(s: &str) -> (chars: Vec<char>)
    ensures
        chars@ == s@,
{
    let mut chars: Vec<char> = Vec::new();
    for c in it: s.chars()
        invariant
            it.seq() == s@,
            chars@ == s@.take(it.index() as int),
    {
        chars.push(c);
    }
    assert(s@.take(s@.len() as int) =~= s@);
    chars
}

/// Whether two strings hold the same characters.
pub fn text_eq(a: &str, b: &str) -> (same: bool)
    ensures
        same == (a@ == b@),
{
    let x = to_chars(a);
    let y = to_chars(b);
    if x.len() != y.len() {
        return false;
    }
    let mut i: usize = 0;
    while i < x.len()
        invariant
            x@ == a@,
            y@ == b@,
            x@.len() == y@.len(),
            i <= x@.len(),
            forall|j: int| 0 <= j < i ==> x@[j] == y@[j],
        decreases x@.len() - i,
    {
        if x[i] != y[i] {
            return false;
        }
        i = i + 1;
    }
    assert(a@ =~= b@);
    true
}

/// Whether `c` is white space: the characters with the Unicode property
/// `White_Space`.
pub open spec fn is_white(c: char) -> bool {
    ||| 0x9 <= c as u32 <= 0xd
    ||| c as u32 == 0x20
    ||| c as u32 == 0x85
    ||| c as u32 == 0xa0
    ||| c as u32 == 0x1680
    ||| 0x2000 <= c as u32 <= 0x200a
    ||| c as u32 == 0x2028
    ||| c as u32 == 0x2029
    ||| c as u32 == 0x202f
    ||| c as u32 == 0x205f
    ||| c as u32 == 0x3000
}

/// Whether `c` is white space.
pub fn is_whitespace(c: char) -> (white: bool)
    ensures
        white == is_white(c),
{
    let u: u32 = c as u32;
    (0x9 <= u && u <= 0xd) || u == 0x20 || u == 0x85 || u == 0xa0 || u == 0x1680 || (0x2000 <= u
        && u <= 0x200a) || u == 0x2028 || u == 0x2029 || u == 0x202f || u == 0x205f || u == 0x3000
}

/// Whether every character of `s` is white space.
pub open spec fn blank(s: Seq<char>) -> bool {
    forall|i: int| 0 <= i < s.len() ==> is_white(#[trigger] s[i])
}

/// `s` without the white space at its start.
pub open spec fn trim_start(s: Seq<char>) -> Seq<char>
    decreases s.len(),
{
    if s.len() > 0 && is_white(s[0]) {
        trim_start(s.drop_first())
    } else {
        s
    }
}

/// `s` without the white space at its end.
pub open spec fn trim_end(s: Seq<char>) -> Seq<char>
    decreases s.len(),
{
    if s.len() > 0 && is_white(s.last()) {
        trim_end(s.drop_last())
    } else {
        s
    }
}

/// `s` without the white space at either end.
pub open spec fn trim(s: Seq<char>) -> Seq<char> {
    trim_end(trim_start(s))
}

/// A text is all white space exactly when trimming it leaves nothing.
pub proof fn lemma_blank_trim(s: Seq<char>)
    ensures
        blank(s) <==> trim_start(s).len() == 0,
        blank(s) <==> trim_end(s).len() == 0,
        blank(s) <==> trim(s).len() == 0,
    decreases s.len(),
{
    lemma_blank_trim_start(s);
    lemma_blank_trim_end(s);
    lemma_blank_trim_end(trim_start(s));
    if !blank(s) {
        assert(!blank(trim_start(s))) by {
            assert(!is_white(trim_start(s)[0]));
        }
    }
}

proof fn lemma_blank_trim_start(s: Seq<char>)
    ensures
        blank(s) <==> trim_start(s).len() == 0,
        trim_start(s).len() > 0 ==> !is_white(trim_start(s)[0]),
    decreases s.len(),
{
    if s.len() > 0 && is_white(s[0]) {
        let t = s.drop_first();
        lemma_blank_trim_start(t);
        if blank(t) {
            assert forall|i: int| 0 <= i < s.len() implies is_white(#[trigger] s[i]) by {
                if i > 0 {
                    assert(s[i] == t[i - 1]);
                }
            }
        } else {
            let k = choose|k: int| 0 <= k < t.len() && !is_white(#[trigger] t[k]);
            assert(s[k + 1] == t[k]);
        }
    } else if s.len() > 0 {
        assert(!is_white(s[0]));
    }
}

proof fn lemma_blank_trim_end(s: Seq<char>)
    ensures
        blank(s) <==> trim_end(s).len() == 0,
    decreases s.len(),
{
    if s.len() > 0 && is_white(s.last()) {
        let t = s.drop_last();
        lemma_blank_trim_end(t);
        if blank(t) {
            assert forall|i: int| 0 <= i < s.len() implies is_white(#[trigger] s[i]) by {
                if i < t.len() {
                    assert(s[i] == t[i]);
                }
            }
        } else {
            let k = choose|k: int| 0 <= k < t.len() && !is_white(#[trigger] t[k]);
            assert(s[k] == t[k]);
        }
    } else if s.len() > 0 {
        assert(!is_white(s[s.len() - 1]));
    }
}

/// A trimmed text is no longer than the text.
pub proof fn lemma_trim_end(s: Seq<char>)
    ensures
        blen(trim_end(s)) <= blen(s),
    decreases s.len(),
{
    if s.len() > 0 {
        lemma_trim_end(s.drop_last());
        lemma_prefix_boundary(s, s.len() - 1);
        assert(s.take(s.len() - 1) =~= s.drop_last());
        lemma_ends(s.skip(s.len() - 1));
    }
}

/// `s` without the white space at its end.
pub fn text_trim_end(s: &str) -> (trimmed: &str)
    ensures
        trimmed@ == trim_end(s@),
{
    let chars = to_chars(s);
    let mut end: usize = chars.len();
    assert(s@.take(end as int) =~= s@);
    while end > 0 && is_whitespace(chars[end - 1])
        invariant
            chars@ == s@,
            end <= s@.len(),
            trim_end(s@.take(end as int)) == trim_end(s@),
        decreases end,
    {
        assert(s@.take(end as int).drop_last() =~= s@.take(end as int - 1));
        end = end - 1;
    }
    assert(s@.subrange(0, end as int) =~= s@.take(end as int));
    s.substring_char(0, end)
}

/// `s` without the white space at either end.
pub fn text_trim(s: &str) -> (trimmed: &str)
    ensures
        trimmed@ == trim(s@),
{
    let chars = to_chars(s);
    let mut start: usize = 0;
    assert(s@.skip(0) =~= s@);
    while start < chars.len() && is_whitespace(chars[start])
        invariant
            chars@ == s@,
            start <= s@.len(),
            trim_start(s@.skip(start as int)) == trim_start(s@),
        decreases s@.len() - start,
    {
        assert(s@.skip(start as int).drop_first() =~= s@.skip(start as int + 1));
        start = start + 1;
    }
    assert(s@.subrange(start as int, s@.len() as int) =~= s@.skip(start as int));
    text_trim_end(s.substring_char(start, chars.len()))
}

/// Whether `p` occurs in `s` at the character position `i`.
pub open spec fn occurs_at(s: Seq<char>, p: Seq<char>, i: int) -> bool {
    0 <= i && i + p.len() <= s.len() && s.subrange(i, i + p.len()) == p
}

/// Whether `p` occurs in `s`.
pub open spec fn contains(s: Seq<char>, p: Seq<char>) -> bool {
    exists|i: int| occurs_at(s, p, i)
}

/// Whether `s` begins with `p`.
pub open spec fn starts_with(s: Seq<char>, p: Seq<char>) -> bool {
    occurs_at(s, p, 0)
}

/// Whether `s` ends with `p`.
pub open spec fn ends_with(s: Seq<char>, p: Seq<char>) -> bool {
    occurs_at(s, p, s.len() - p.len())
}

fn chars_occur_at(s: &Vec<char>, p: &Vec<char>, i: usize) -> (found: bool)
    requires
        i + p@.len() <= s@.len(),
    ensures
        found == occurs_at(s@, p@, i as int),
{
    let total: usize = s.len();
    let mut j: usize = 0;
    while j < p.len()
        invariant
            total == s@.len(),
            i + p@.len() <= s@.len(),
            j <= p@.len(),
            forall|k: int| 0 <= k < j ==> s@[i + k] == p@[k],
        decreases p@.len() - j,
    {
        if s[i + j] != p[j] {
            assert(s@.subrange(i as int, i + p@.len())[j as int] != p@[j as int]);
            return false;
        }
        j = j + 1;
    }
    assert(s@.subrange(i as int, i + p@.len()) =~= p@);
    true
}

fn chars_contain(x: &Vec<char>, y: &Vec<char>) -> (found: bool)
    ensures
        found == contains(x@, y@),
{
    if y.len() > x.len() {
        return false;
    }
    let last: usize = x.len() - y.len();
    let mut i: usize = 0;
    loop
        invariant
            y@.len() <= x@.len(),
            last == x@.len() - y@.len(),
            i <= last,
            forall|k: int| 0 <= k < i ==> !occurs_at(x@, y@, k),
        decreases last - i,
    {
        if chars_occur_at(x, y, i) {
            return true;
        }
        if i == last {
            return false;
        }
        i = i + 1;
    }
}

/// Whether `p` occurs in `s`.
pub fn text_contains(s: &str, p: &str) -> (found: bool)
    ensures
        found == contains(s@, p@),
{
    chars_contain(&to_chars(s), &to_chars(p))
}

/// Whether `s` begins with `p`.
pub fn text_starts_with(s: &str, p: &str) -> (found: bool)
    ensures
        found == starts_with(s@, p@),
{
    let x = to_chars(s);
    let y = to_chars(p);
    y.len() <= x.len() && chars_occur_at(&x, &y, 0)
}

/// Whether `s` ends with `p`.
pub fn text_ends_with(s: &str, p: &str) -> (found: bool)
    ensures
        found == ends_with(s@, p@),
{
    let x = to_chars(s);
    let y = to_chars(p);
    y.len() <= x.len() && chars_occur_at(&x, &y, x.len() - y.len())
}

/// `c` in lower case, where it is an ASCII letter.
pub open spec fn lower(c: char) -> char {
    if 'A' <= c <= 'Z' {
        ((c as u8) + 32) as char
    } else {
        c
    }
}

/// `s` with its ASCII letters in lower case.
pub open spec fn lowered(s: Seq<char>) -> Seq<char> {
    s.map_values(|c: char| lower(c))
}

fn lower_chars(s: &str) -> (chars: Vec<char>)
    ensures
        chars@ == lowered(s@),
{
    let source = to_chars(s);
    let mut chars: Vec<char> = Vec::new();
    let mut i: usize = 0;
    while i < source.len()
        invariant
            source@ == s@,
            i <= s@.len(),
            chars@.len() == i,
            forall|j: int| 0 <= j < i ==> chars@[j] == lower(s@[j]),
        decreases s@.len() - i,
    {
        let c = source[i];
        if 'A' <= c && c <= 'Z' {
            let code: u8 = c as u8;
            chars.push((code + 32) as char);
        } else {
            chars.push(c);
        }
        i = i + 1;
    }
    assert(chars@ =~= lowered(s@));
    chars
}

/// Whether `p` occurs in `s`, ASCII letters taken without regard to case.
pub fn text_contains_ignoring_case(s: &str, p: &str) -> (found: bool)
    ensures
        found == contains(lowered(s@), lowered(p@)),
{
    chars_contain(&lower_chars(s), &lower_chars(p))
}

/// Position of the first line feed of `s` at or after `from`, or its length.
pub open spec fn line_end(s: Seq<char>, from: int) -> int
    decreases s.len() - from,
{
    if from < s.len() && s[from] != '\n' {
        line_end(s, from + 1)
    } else {
        from
    }
}

/// The lines of `s` from position `from` on: what stands between its line
/// feeds. There is always at least one.
pub open spec fn lines_from(s: Seq<char>, from: int) -> Seq<Seq<char>>
    decreases s.len() - from,
    when 0 <= from <= s.len()
    via lines_from_decreases
{
    let end = line_end(s, from);
    if end < s.len() {
        seq![s.subrange(from, end)] + lines_from(s, end + 1)
    } else {
        seq![s.subrange(from, end)]
    }
}

#[via_fn]
proof fn lines_from_decreases(s: Seq<char>, from: int) {
    lemma_line_end(s, from);
}

/// The lines of `s`.
pub open spec fn lines(s: Seq<char>) -> Seq<Seq<char>> {
    lines_from(s, 0)
}

/// The characters up to the end of a line hold no line feed.
pub proof fn lemma_line_end(s: Seq<char>, from: int)
    requires
        0 <= from <= s.len(),
    ensures
        from <= line_end(s, from) <= s.len(),
        line_end(s, from) < s.len() ==> s[line_end(s, from)] == '\n',
        forall|i: int| from <= i < line_end(s, from) ==> s[i] != '\n',
    decreases s.len() - from,
{
    if from < s.len() && s[from] != '\n' {
        lemma_line_end(s, from + 1);
    }
}

/// `parts` joined by line feeds.
pub open spec fn join_lines(parts: Seq<Seq<char>>) -> Seq<char>
    decreases parts.len(),
{
    if parts.len() == 0 {
        Seq::empty()
    } else if parts.len() == 1 {
        parts[0]
    } else {
        parts[0] + seq!['\n'] + join_lines(parts.drop_first())
    }
}

/// Splitting a text into lines loses nothing: joined by line feeds, the lines
/// are the text again, and none of them holds a line feed.
pub proof fn lemma_lines_from(s: Seq<char>, from: int)
    requires
        0 <= from <= s.len(),
    ensures
        lines_from(s, from).len() >= 1,
        join_lines(lines_from(s, from)) == s.skip(from),
        lines_from(s, from).len() <= s.len() - from + 1,
        forall|i: int|
            0 <= i < lines_from(s, from).len() ==> !(#[trigger] lines_from(s, from)[i]).contains(
                '\n',
            ),
    decreases s.len() - from,
{
    let end = line_end(s, from);
    lemma_line_end(s, from);
    let first = s.subrange(from, end);
    assert(!first.contains('\n')) by {
        if first.contains('\n') {
            let k = choose|k: int| 0 <= k < first.len() && first[k] == '\n';
            assert(s[from + k] == '\n');
        }
    }
    if end < s.len() {
        lemma_lines_from(s, end + 1);
        let rest = lines_from(s, end + 1);
        let all = lines_from(s, from);
        assert(all =~= seq![first] + rest);
        assert(all.drop_first() =~= rest);
        assert(first + seq!['\n'] + s.skip(end + 1) =~= s.skip(from));
        assert forall|i: int| 0 <= i < all.len() implies !(#[trigger] all[i]).contains('\n') by {
            if i > 0 {
                assert(all[i] == rest[i - 1]);
            }
        }
    } else {
        assert(first =~= s.skip(from));
    }
}

/// A text with a line feed has more than one line.
pub proof fn lemma_many_lines(s: Seq<char>)
    ensures
        s.contains('\n') <==> lines(s).len() > 1,
{
    lemma_line_end(s, 0);
    let end = line_end(s, 0);
    if end < s.len() {
        lemma_lines_from(s, end + 1);
        assert(s.contains(s[end]));
    } else if s.contains('\n') {
        let k = choose|k: int| 0 <= k < s.len() && s[k] == '\n';
        assert(s[k] != '\n');
    }
}

/// The lines of `s`.
pub fn text_lines(s: &str) -> (parts: Vec<String>)
    ensures
        parts@.map_values(|line: String| line@) == lines(s@),
{
    let chars = to_chars(s);
    let mut parts: Vec<String> = Vec::new();
    let mut from: usize = 0;
    let ghost view = |line: String| line@;
    assert(parts@.map_values(view) + lines_from(s@, 0) =~= lines(s@));
    loop
        invariant
            chars@ == s@,
            from <= s@.len(),
            view == (|line: String| line@),
            parts@.map_values(view) + lines_from(s@, from as int) == lines(s@),
        decreases s@.len() - from,
    {
        let mut end: usize = from;
        while end < chars.len() && chars[end] != '\n'
            invariant
                chars@ == s@,
                from <= end <= s@.len(),
                line_end(s@, from as int) == line_end(s@, end as int),
            decreases s@.len() - end,
        {
            end = end + 1;
        }
        proof {
            lemma_line_end(s@, from as int);
        }
        let ghost done = parts@;
        let ghost first = s@.subrange(from as int, end as int);
        parts.push(s.substring_char(from, end).to_owned());
        assert(parts@.map_values(view) =~= done.map_values(view) + seq![first]);
        if end == chars.len() {
            return parts;
        }
        assert(done.map_values(view) + (seq![first] + lines_from(s@, end + 1)) =~= parts@.map_values(
            view,
        ) + lines_from(s@, end + 1));
        from = end + 1;
    }
}

/// The last boundary of `s` at or before `o`.
pub open spec fn snap(s: Seq<char>, o: int) -> int
    decreases o,
{
    if o <= 0 {
        0
    } else if boundary(s, o) {
        o
    } else {
        snap(s, o - 1)
    }
}

/// A snapped offset is a boundary, and a boundary is left where it is.
pub proof fn lemma_snap(s: Seq<char>, o: int)
    ensures
        boundary(s, snap(s, o)),
        0 <= snap(s, o) <= blen(s),
        o >= 0 ==> snap(s, o) <= o,
        boundary(s, o) ==> snap(s, o) == o,
    decreases o,
{
    lemma_ends(s);
    if o > 0 && !boundary(s, o) {
        lemma_snap(s, o - 1);
    }
    if boundary(s, o) {
        lemma_split(s, o);
    }
}

/// Snapping keeps offsets in order.
pub proof fn lemma_snap_order(s: Seq<char>, a: int, b: int)
    requires
        a <= b,
    ensures
        snap(s, a) <= snap(s, b),
    decreases b,
{
    lemma_snap(s, a);
    lemma_snap(s, b);
    if b > 0 && a < b && !boundary(s, b) {
        lemma_snap_order(s, a, b - 1);
    }
}

/// The last boundary of `s` at or before `o`.
pub fn text_snap(s: &str, o: usize) -> (snapped: usize)
    ensures
        snapped == snap(s@, o as int),
{
    let mut at: usize = o;
    while at > 0 && !is_boundary(s, at)
        invariant
            snap(s@, at as int) == snap(s@, o as int),
        decreases at,
    {
        at = at - 1;
    }
    at
}

/// The first character of `s`.
pub fn first_char(s: &str) -> (c: Option<char>)
    ensures
        c == (if s@.len() > 0 {
            Some(s@[0])
        } else {
            None
        }),
{
    let chars = to_chars(s);
    if chars.len() > 0 {
        Some(chars[0])
    } else {
        None
    }
}

/// The last character of `s`.
pub fn last_char(s: &str) -> (c: Option<char>)
    ensures
        c == (if s@.len() > 0 {
            Some(s@.last())
        } else {
            None
        }),
{
    let chars = to_chars(s);
    if chars.len() > 0 {
        Some(chars[chars.len() - 1])
    } else {
        None
    }
}

/// An ASCII character takes one byte.
pub proof fn lemma_ascii(c: char)
    requires
        (c as u32) < 0x80,
    ensures
        blen(seq![c]) == 1,
{
    assert(seq![c].drop_first() =~= Seq::<char>::empty());
    assert(encode_utf8(Seq::<char>::empty()).len() == 0);
    assert(encode_scalar(c as u32).len() == 1);
}

/// Whether `c` occurs in `s`.
pub fn has_char(s: &str, c: char) -> (found: bool)
    ensures
        found == s@.contains(c),
{
    let chars = to_chars(s);
    let mut i: usize = 0;
    while i < chars.len()
        invariant
            i <= chars@.len(),
            chars@ == s@,
            forall|j: int| 0 <= j < i ==> s@[j] != c,
        decreases chars@.len() - i,
    {
        if chars[i] == c {
            assert(s@[i as int] == c);
            return true;
        }
        i = i + 1;
    }
    false
}

/// A text that begins and ends with something else than white space, or is
/// empty, is left as it is by trimming.
pub proof fn lemma_trim_noop(s: Seq<char>)
    requires
        s.len() > 0 ==> !is_white(s[0]) && !is_white(s.last()),
    ensures
        trim(s) == s,
{
    reveal_with_fuel(trim_start, 2);
    reveal_with_fuel(trim_end, 2);
}

proof fn lemma_trim_start_edge(s: Seq<char>)
    ensures
        trim_start(s).len() > 0 ==> !is_white(trim_start(s)[0]) && trim_start(s).last()
            == s.last(),
        trim_start(s).len() <= s.len(),
    decreases s.len(),
{
    if s.len() > 0 && is_white(s[0]) {
        lemma_trim_start_edge(s.drop_first());
    }
}

proof fn lemma_trim_end_edge(s: Seq<char>)
    ensures
        trim_end(s).len() > 0 ==> !is_white(trim_end(s).last()) && trim_end(s)[0] == s[0],
        trim_end(s).len() <= s.len(),
    decreases s.len(),
{
    if s.len() > 0 && is_white(s.last()) {
        lemma_trim_end_edge(s.drop_last());
    }
}

/// A trimmed text begins and ends with something else than white space, or is
/// empty.
pub proof fn lemma_trim_edges(s: Seq<char>)
    ensures
        trim(s).len() > 0 ==> !is_white(trim(s)[0]) && !is_white(trim(s).last()),
{
    lemma_trim_start_edge(s);
    lemma_trim_end_edge(s);
    lemma_trim_start_edge(trim_end(s));
    lemma_trim_end_edge(trim_start(s));
}

} // verus!
