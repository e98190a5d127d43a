//! Character-level text utilities: conversion between `String` and `Vec<char>`,
//! Unicode whitespace and trimming, UTF-8 byte offsets, line splitting and
//! substring search.
use vstd::prelude::*;

verus! {

// ---------------------------------------------------------------------------
// Conversion
// ---------------------------------------------------------------------------

/// `String::push`: appends one character at the end of the string.
#[verifier::external_body]
pub(crate) fn push_char(s: &mut String, c: char)
    ensures
        final(s)@ == old(s)@.push(c),
{
    s.push(c);
}

/// The characters of `s`, in order.
pub fn chars_of(s: &str) -> (v: Vec<char>)
    ensures
        v@ == s@,
{
    let mut v: Vec<char> = Vec::new();
    for c in it: s.chars()
        invariant
            v@ == it.seq().take(it.index() as int),
            it.seq() == s@,
    {
        v.push(c);
    }
    v
}

/// The string made of the characters `v[lo..hi]`.
pub fn string_of_range(v: &Vec<char>, lo: usize, hi: usize) -> (s: String)
    requires
        lo <= hi <= v.len(),
    ensures
        s@ == v@.subrange(lo as int, hi as int),
{
    let mut s = String::new();
    let mut i = lo;
    while i < hi
        invariant
            lo <= i <= hi <= v.len(),
            s@ == v@.subrange(lo as int, i as int),
        decreases hi - i,
    {
        push_char(&mut s, v[i]);
        assert(v@.subrange(lo as int, i + 1) == v@.subrange(lo as int, i as int).push(v@[i as int]));
        i = i + 1;
    }
    s
}

/// The string made of the characters of `v`.
pub fn string_of(v: &Vec<char>) -> (s: String)
    ensures
        s@ == v@,
{
    let s = string_of_range(v, 0, v.len());
    assert(v@.subrange(0, v.len() as int) == v@);
    s
}

/// Appends the characters of `t` to `s`.
pub fn push_all(s: &mut String, t: &str)
    ensures
        final(s)@ == old(s)@ + t@,
{
    s.append(t);
}

/// Whether two character vectors hold the same characters.
pub fn chars_eq(a: &Vec<char>, b: &Vec<char>) -> (r: bool)
    ensures
        r == (a@ == b@),
{
    if a.len() != b.len() {
        return false;
    }
    let mut i: usize = 0;
    while i < a.len()
        invariant
            a.len() == b.len(),
            i <= a.len(),
            forall|j: int| 0 <= j < i ==> a@[j] == b@[j],
        decreases a.len() - i,
    {
        if a[i] != b[i] {
            return false;
        }
        i = i + 1;
    }
    assert(a@ =~= b@);
    true
}

// ---------------------------------------------------------------------------
// Whitespace and trimming
// ---------------------------------------------------------------------------

/// The characters with the Unicode `White_Space` property, which is what
/// `char::is_whitespace` tests.
pub open spec fn is_whitespace(c: char) -> bool {
    let v = c as u32;
    ||| 0x9 <= v <= 0xD
    ||| v == 0x20
    ||| v == 0x85
    ||| v == 0xA0
    ||| v == 0x1680
    ||| 0x2000 <= v <= 0x200A
    ||| v == 0x2028
    ||| v == 0x2029
    ||| v == 0x202F
    ||| v == 0x205F
    ||| v == 0x3000
}

pub fn is_whitespace_char(c: char) -> (b: bool)
    ensures
        b == is_whitespace(c),
{
    let v = c as u32;
    (0x9 <= v && v <= 0xD) || v == 0x20 || v == 0x85 || v == 0xA0 || v == 0x1680 || (0x2000 <= v
        && v <= 0x200A) || v == 0x2028 || v == 0x2029 || v == 0x202F || v == 0x205F || v == 0x3000
}

/// `s` without its leading whitespace.
pub open spec fn trim_start(s: Seq<char>) -> Seq<char>
    decreases s.len(),
{
    if s.len() > 0 && is_whitespace(s[0]) {
        trim_start(s.drop_first())
    } else {
        s
    }
}

/// `s` without its trailing whitespace.
pub open spec fn trim_end(s: Seq<char>) -> Seq<char>
    decreases s.len(),
{
    if s.len() > 0 && is_whitespace(s.last()) {
        trim_end(s.drop_last())
    } else {
        s
    }
}

/// `s` without leading and trailing whitespace (`str::trim`).
pub open spec fn trim(s: Seq<char>) -> Seq<char> {
    trim_end(trim_start(s))
}

proof fn lemma_trim_start_skip(s: Seq<char>, i: int)
    requires
        0 <= i <= s.len(),
        forall|j: int| 0 <= j < i ==> is_whitespace(#[trigger] s[j]),
    ensures
        trim_start(s) == trim_start(s.subrange(i, s.len() as int)),
    decreases i,
{
    if i > 0 {
        assert(s.drop_first().subrange(i - 1, s.drop_first().len() as int) =~= s.subrange(
            i,
            s.len() as int,
        ));
        assert(is_whitespace(s[0]));
        lemma_trim_start_skip(s.drop_first(), i - 1);
    } else {
        assert(s.subrange(0, s.len() as int) =~= s);
    }
}

proof fn lemma_trim_end_cut(s: Seq<char>, i: int)
    requires
        0 <= i <= s.len(),
        forall|j: int| i <= j < s.len() ==> is_whitespace(#[trigger] s[j]),
    ensures
        trim_end(s) == trim_end(s.subrange(0, i)),
    decreases s.len() - i,
{
    if i < s.len() {
        assert(s.drop_last().subrange(0, i) =~= s.subrange(0, i));
        assert(is_whitespace(s[s.len() - 1]));
        lemma_trim_end_cut(s.drop_last(), i);
    } else {
        assert(s.subrange(0, s.len() as int) =~= s);
    }
}

/// Index of the first character of `v` that is not whitespace (or `v.len()`).
fn first_non_whitespace(v: &Vec<char>) -> (i: usize)
    ensures
        i <= v.len(),
        trim_start(v@) == v@.subrange(i as int, v.len() as int),
        i < v.len() ==> !is_whitespace(v@[i as int]),
{
    let mut i: usize = 0;
    while i < v.len() && is_whitespace_char(v[i])
        invariant
            i <= v.len(),
            forall|j: int| 0 <= j < i ==> is_whitespace(#[trigger] v@[j]),
        decreases v.len() - i,
    {
        i = i + 1;
    }
    proof {
        lemma_trim_start_skip(v@, i as int);
        let r = v@.subrange(i as int, v.len() as int);
        if i < v.len() {
            assert(r[0] == v@[i as int]);
        }
    }
    i
}

/// One past the index of the last character of `v[..hi]` that is not
/// whitespace (or 0).
fn end_non_whitespace(v: &Vec<char>, hi: usize) -> (e: usize)
    requires
        hi <= v.len(),
    ensures
        e <= hi,
        trim_end(v@.subrange(0, hi as int)) == v@.subrange(0, e as int),
{
    let mut e: usize = hi;
    while e > 0 && is_whitespace_char(v[e - 1])
        invariant
            e <= hi <= v.len(),
            forall|j: int| e <= j < hi ==> is_whitespace(#[trigger] v@[j]),
        decreases e,
    {
        e = e - 1;
    }
    proof {
        let p = v@.subrange(0, hi as int);
        assert forall|j: int| e <= j < p.len() implies is_whitespace(#[trigger] p[j]) by {
            assert(p[j] == v@[j]);
        }
        lemma_trim_end_cut(p, e as int);
        assert(p.subrange(0, e as int) =~= v@.subrange(0, e as int));
        let q = v@.subrange(0, e as int);
        if e > 0 {
            assert(q.last() == v@[e - 1]);
        }
    }
    e
}

proof fn lemma_trim_end_of_suffix(s: Seq<char>, i: int, e: int)
    requires
        0 <= i <= e <= s.len(),
        trim_end(s) == s.subrange(0, e),
    ensures
        trim_end(s.subrange(i, s.len() as int)) == s.subrange(i, e),
    decreases s.len(),
{
    if s.len() > 0 && is_whitespace(s.last()) && e < s.len() {
        let t = s.subrange(i, s.len() as int);
        assert(t.drop_last() =~= s.drop_last().subrange(i, s.drop_last().len() as int));
        assert(s.subrange(0, e) =~= s.drop_last().subrange(0, e));
        lemma_trim_end_of_suffix(s.drop_last(), i, e);
    } else {
        if s.len() > 0 && is_whitespace(s.last()) {
            // trim_end(s) == trim_end(s.drop_last()), shorter than s: contradiction with e == len
            lemma_trim_end_len(s.drop_last());
        }
        assert(s.subrange(i, s.len() as int) =~= s.subrange(i, e));
        let t = s.subrange(i, s.len() as int);
        if t.len() > 0 {
            assert(t.last() == s.last());
        }
    }
}

proof fn lemma_trim_end_len(s: Seq<char>)
    ensures
        trim_end(s).len() <= s.len(),
    decreases s.len(),
{
    if s.len() > 0 && is_whitespace(s.last()) {
        lemma_trim_end_len(s.drop_last());
    }
}

/// The characters of `v` without leading and trailing whitespace.
pub fn trim_chars(v: &Vec<char>) -> (r: Vec<char>)
    ensures
        r@ == trim(v@),
{
    let i = first_non_whitespace(v);
    let e = end_non_whitespace(v, v.len());
    assert(v@.subrange(0, v.len() as int) =~= v@);
    let lo = if i <= e { i } else { e };
    proof {
        if i > e {
            // everything is whitespace
            assert(i as int == v.len() as int) by {
                if i < v.len() {
                    assert(!is_whitespace(v@[i as int]));
                    // trim_end keeps the non-whitespace character at i
                    lemma_trim_end_keeps(v@, i as int);
                }
            }
        }
        lemma_trim_end_of_suffix(v@, lo as int, e as int);
        if i > e {
            assert(v@.subrange(i as int, v.len() as int).len() == 0);
            assert(trim_end(v@.subrange(i as int, v.len() as int)) =~= Seq::<char>::empty());
        }
    }
    let mut r: Vec<char> = Vec::new();
    let mut k = lo;
    while k < e
        invariant
            lo <= k <= e <= v.len(),
            r@ == v@.subrange(lo as int, k as int),
        decreases e - k,
    {
        r.push(v[k]);
        assert(v@.subrange(lo as int, k + 1) == v@.subrange(lo as int, k as int).push(v@[k as int]));
        k = k + 1;
    }
    proof {
        if i > e {
            assert(r@ =~= Seq::<char>::empty());
        }
    }
    r
}

proof fn lemma_trim_end_keeps(s: Seq<char>, i: int)
    requires
        0 <= i < s.len(),
        !is_whitespace(s[i]),
    ensures
        trim_end(s).len() > i,
    decreases s.len(),
{
    if s.len() > 0 && is_whitespace(s.last()) {
        assert(s.drop_last()[i] == s[i]);
        lemma_trim_end_keeps(s.drop_last(), i);
    }
}

/// The characters of `v` without trailing whitespace.
pub fn trim_end_chars(v: &Vec<char>) -> (r: Vec<char>)
    ensures
        r@ == trim_end(v@),
{
    let e = end_non_whitespace(v, v.len());
    assert(v@.subrange(0, v.len() as int) =~= v@);
    let mut r: Vec<char> = Vec::new();
    let mut k: usize = 0;
    while k < e
        invariant
            k <= e <= v.len(),
            r@ == v@.subrange(0, k as int),
        decreases e - k,
    {
        r.push(v[k]);
        assert(v@.subrange(0, k + 1) == v@.subrange(0, k as int).push(v@[k as int]));
        k = k + 1;
    }
    r
}

// ---------------------------------------------------------------------------
// Lines
// ---------------------------------------------------------------------------

/// `s` without one trailing carriage return, if it has one.
pub open spec fn strip_cr(s: Seq<char>) -> Seq<char> {
    if s.len() > 0 && s.last() == '\r' {
        s.drop_last()
    } else {
        s
    }
}

/// The lines of `cur + rest`, where `cur` is the start of the current line:
/// lines end at `'\n'`, which is dropped together with a `'\r'` right before
/// it; a last line without `'\n'` is kept as it is unless it is empty.
pub open spec fn lines_from(cur: Seq<char>, rest: Seq<char>) -> Seq<Seq<char>>
    decreases rest.len(),
{
    if rest.len() == 0 {
        if cur.len() == 0 {
            Seq::empty()
        } else {
            seq![cur]
        }
    } else if rest[0] == '\n' {
        seq![strip_cr(cur)] + lines_from(Seq::empty(), rest.drop_first())
    } else {
        lines_from(cur.push(rest[0]), rest.drop_first())
    }
}

/// The lines of `s`, as `str::lines` gives them.
pub open spec fn lines_of(s: Seq<char>) -> Seq<Seq<char>> {
    lines_from(Seq::empty(), s)
}

proof fn lemma_byte_len_first(s: Seq<char>)
    requires
        s.len() > 0,
    ensures
        byte_len(s) == char_width(s[0]) + byte_len(s.drop_first()),
{
    assert(s =~= seq![s[0]] + s.drop_first());
    lemma_byte_len_concat(seq![s[0]], s.drop_first());
    assert(seq![s[0]] =~= Seq::<char>::empty().push(s[0]));
    lemma_byte_len_push(Seq::<char>::empty(), s[0]);
}

/// No line of `lines_from(cur, rest)` is longer in bytes than `cur + rest`.
pub proof fn lemma_lines_from_len(cur: Seq<char>, rest: Seq<char>)
    ensures
        forall|k: int|
            0 <= k < lines_from(cur, rest).len() ==> byte_len(#[trigger] lines_from(cur, rest)[k])
                <= byte_len(cur) + byte_len(rest),
    decreases rest.len(),
{
    if rest.len() == 0 {
    } else {
        lemma_byte_len_first(rest);
        if rest[0] == '\n' {
            lemma_lines_from_len(Seq::empty(), rest.drop_first());
            if cur.len() > 0 {
                assert(cur =~= cur.drop_last().push(cur.last()));
            }
            let tail = lines_from(Seq::<char>::empty(), rest.drop_first());
            let all = seq![strip_cr(cur)] + tail;
            assert(lines_from(cur, rest) == all);
            assert forall|k: int| 0 <= k < all.len() implies byte_len(#[trigger] all[k])
                <= byte_len(cur) + byte_len(rest) by {
                if k > 0 {
                    assert(all[k] == tail[k - 1]);
                }
            }
        } else {
            lemma_lines_from_len(cur.push(rest[0]), rest.drop_first());
            lemma_byte_len_push(cur, rest[0]);
            assert(lines_from(cur, rest) == lines_from(cur.push(rest[0]), rest.drop_first()));
        }
    }
}

/// Splits `s` into its lines (`str::lines`).
pub fn split_lines(s: &str) -> (r: Vec<Vec<char>>)
    ensures
        r@.len() == lines_of(s@).len(),
        forall|i: int| 0 <= i < r@.len() ==> #[trigger] r@[i]@ == lines_of(s@)[i],
{
    let v = chars_of(s);
    let mut out: Vec<Vec<char>> = Vec::new();
    let mut cur: Vec<char> = Vec::new();
    let mut i: usize = 0;
    let ghost done: Seq<Seq<char>> = Seq::empty();
    assert(v@.subrange(0, v.len() as int) =~= v@);
    assert(done + lines_of(s@) =~= lines_of(s@));
    while i < v.len()
        invariant
            i <= v.len(),
            v@ == s@,
            out@.len() == done.len(),
            forall|j: int| 0 <= j < out@.len() ==> #[trigger] out@[j]@ == done[j],
            done + lines_from(cur@, v@.subrange(i as int, v.len() as int)) == lines_of(s@),
        decreases v.len() - i,
    {
        let c = v[i];
        let ghost rest = v@.subrange(i as int, v.len() as int);
        assert(rest.drop_first() =~= v@.subrange(i + 1, v.len() as int));
        if c == '\n' {
            let ghost cur0 = cur@;
            let ghost line = strip_cr(cur0);
            if cur.len() > 0 && cur[cur.len() - 1] == '\r' {
                cur.pop();
            }
            assert(cur@ =~= line);
            out.push(cur);
            cur = Vec::new();
            proof {
                assert(lines_from(cur0, rest) == seq![line] + lines_from(
                    Seq::empty(),
                    rest.drop_first(),
                ));
                assert(done + (seq![line] + lines_from(Seq::empty(), rest.drop_first()))
                    =~= done.push(line) + lines_from(Seq::empty(), rest.drop_first()));
                done = done.push(line);
            }
        } else {
            let ghost cur0 = cur@;
            cur.push(c);
            assert(lines_from(cur0, rest) == lines_from(cur@, rest.drop_first()));
        }
        i = i + 1;
    }
    let ghost last = cur@;
    assert(v@.subrange(v.len() as int, v.len() as int) =~= Seq::<char>::empty());
    if cur.len() > 0 {
        out.push(cur);
        proof {
            assert(done + seq![last] =~= done.push(last));
            done = done.push(last);
        }
    } else {
        assert(done + Seq::<Seq<char>>::empty() =~= done);
    }
    out
}

// ---------------------------------------------------------------------------
// UTF-8 byte offsets
// ---------------------------------------------------------------------------

/// Number of bytes that the UTF-8 encoding of `c` takes (`char::len_utf8`).
pub open spec fn char_width(c: char) -> nat {
    if (c as u32) < 0x80 {
        1
    } else if (c as u32) < 0x800 {
        2
    } else if (c as u32) < 0x10000 {
        3
    } else {
        4
    }
}

/// `char::len_utf8`: the number of bytes that `c` takes in UTF-8.
pub fn utf8_width(c: char) -> (w: usize)
    ensures
        w == char_width(c),
{
    let v = c as u32;
    if v < 0x80 {
        1
    } else if v < 0x800 {
        2
    } else if v < 0x10000 {
        3
    } else {
        4
    }
}

/// Length in bytes of the UTF-8 encoding of `s`.
pub open spec fn byte_len(s: Seq<char>) -> nat
    decreases s.len(),
{
    if s.len() == 0 {
        0
    } else {
        byte_len(s.drop_last()) + char_width(s.last())
    }
}

/// `byte_len` is the length of vstd's UTF-8 encoding of `s`, which is what
/// `str::len` returns.
pub proof fn lemma_byte_len_is_utf8_len(s: Seq<char>)
    ensures
        byte_len(s) == vstd::utf8::encode_utf8(s).len(),
    decreases s.len(),
{
    if s.len() > 0 {
        lemma_byte_len_first(s);
        lemma_byte_len_is_utf8_len(s.drop_first());
        vstd::utf8::char_is_scalar(s[0]);
        assert(vstd::utf8::encode_scalar(s[0] as u32).len() == char_width(s[0]));
    }
}

/// Byte offset of the character at index `k` of `s`.
pub open spec fn byte_pos(s: Seq<char>, k: int) -> nat {
    byte_len(s.take(k))
}

/// `b` is a byte offset in `s` where a character starts, or the end of `s`
/// (`str::is_char_boundary`).
pub open spec fn on_boundary(s: Seq<char>, b: int) -> bool {
    exists|k: int| 0 <= k <= s.len() && #[trigger] byte_pos(s, k) == b
}

/// The character index at byte offset `b`, where `on_boundary(s, b)`.
pub open spec fn char_index(s: Seq<char>, b: int) -> int {
    choose|k: int| 0 <= k <= s.len() && #[trigger] byte_pos(s, k) == b
}

/// The next offset is the current one plus the width of the character there.
pub proof fn lemma_byte_pos_step(s: Seq<char>, k: int)
    requires
        0 <= k < s.len(),
    ensures
        byte_pos(s, k + 1) == byte_pos(s, k) + char_width(s[k]),
{
    assert(s.take(k + 1).drop_last() =~= s.take(k));
}

/// The offsets of the start and of the end of `s`.
pub proof fn lemma_byte_pos_full(s: Seq<char>)
    ensures
        byte_pos(s, s.len() as int) == byte_len(s),
        byte_pos(s, 0) == 0,
{
    assert(s.take(s.len() as int) =~= s);
    assert(s.take(0).len() == 0);
}

proof fn lemma_byte_pos_mono_rec(s: Seq<char>, i: int, j: int)
    requires
        0 <= i <= j <= s.len(),
    ensures
        byte_pos(s, i) <= byte_pos(s, j),
        i < j ==> byte_pos(s, i) + char_width(s[i]) <= byte_pos(s, j),
    decreases j - i,
{
    if i < j {
        lemma_byte_pos_step(s, i);
        lemma_byte_pos_mono_rec(s, i + 1, j);
    }
}

/// Offsets grow with the character index, by at least one character's width.
pub proof fn lemma_byte_pos_mono(s: Seq<char>, i: int, j: int)
    requires
        0 <= i <= j <= s.len(),
    ensures
        byte_pos(s, i) <= byte_pos(s, j),
        i < j ==> byte_pos(s, i) + char_width(s[i]) <= byte_pos(s, j),
        byte_pos(s, j) <= byte_len(s),
{
    lemma_byte_pos_full(s);
    lemma_byte_pos_mono_rec(s, i, j);
    lemma_byte_pos_mono_rec(s, j, s.len() as int);
}

/// The character index at a boundary is the only one with that offset.
pub proof fn lemma_char_index(s: Seq<char>, b: int)
    requires
        on_boundary(s, b),
    ensures
        0 <= char_index(s, b) <= s.len(),
        byte_pos(s, char_index(s, b)) == b,
        forall|k: int| 0 <= k <= s.len() && #[trigger] byte_pos(s, k) == b ==> k == char_index(s, b),
{
    let c = char_index(s, b);
    assert forall|k: int| 0 <= k <= s.len() && #[trigger] byte_pos(s, k) == b implies k == c by {
        if k < c {
            lemma_byte_pos_mono(s, k, c);
        } else if c < k {
            lemma_byte_pos_mono(s, c, k);
        }
    }
}

/// A character index determines its boundary.
pub proof fn lemma_boundary_of_index(s: Seq<char>, k: int)
    requires
        0 <= k <= s.len(),
    ensures
        on_boundary(s, byte_pos(s, k) as int),
        char_index(s, byte_pos(s, k) as int) == k,
{
    lemma_char_index(s, byte_pos(s, k) as int);
}

/// The UTF-8 length of a concatenation is the sum of the lengths.
pub proof fn lemma_byte_len_concat(a: Seq<char>, b: Seq<char>)
    ensures
        byte_len(a + b) == byte_len(a) + byte_len(b),
    decreases b.len(),
{
    if b.len() == 0 {
        assert(a + b =~= a);
    } else {
        assert((a + b).drop_last() =~= a + b.drop_last());
        lemma_byte_len_concat(a, b.drop_last());
    }
}

/// Appending a character adds its width.
pub proof fn lemma_byte_len_push(a: Seq<char>, c: char)
    ensures
        byte_len(a.push(c)) == byte_len(a) + char_width(c),
{
    assert(a.push(c).drop_last() =~= a);
}

/// Byte offsets in a suffix are those of the whole sequence, shifted.
pub proof fn lemma_byte_pos_skip(s: Seq<char>, ks: int, k: int)
    requires
        0 <= ks <= k <= s.len(),
    ensures
        byte_pos(s.skip(ks), k - ks) + byte_pos(s, ks) == byte_pos(s, k),
{
    assert(s.take(k) =~= s.take(ks) + s.skip(ks).take(k - ks));
    lemma_byte_len_concat(s.take(ks), s.skip(ks).take(k - ks));
}

/// The number of bytes of `v[..k]`.
pub fn byte_offset(v: &Vec<char>, k: usize) -> (r: usize)
    requires
        k <= v.len(),
        byte_len(v@) <= usize::MAX,
    ensures
        r == byte_pos(v@, k as int),
{
    let mut off: usize = 0;
    let mut i: usize = 0;
    proof {
        lemma_byte_pos_full(v@);
    }
    while i < k
        invariant
            i <= k <= v.len(),
            byte_len(v@) <= usize::MAX,
            off == byte_pos(v@, i as int),
        decreases k - i,
    {
        proof {
            lemma_byte_pos_step(v@, i as int);
            lemma_byte_pos_mono(v@, i as int + 1, v.len() as int);
        }
        off = off + utf8_width(v[i]);
        i = i + 1;
    }
    off
}

/// The number of bytes of the UTF-8 encoding of `v`.
pub fn byte_length(v: &Vec<char>) -> (r: usize)
    requires
        byte_len(v@) <= usize::MAX,
    ensures
        r == byte_len(v@),
{
    proof {
        lemma_byte_pos_full(v@);
    }
    byte_offset(v, v.len())
}

/// The character index of byte offset `b` in `v`, if a character starts there
/// (or `b` is the end of `v`).
pub fn char_index_at(v: &Vec<char>, b: usize) -> (r: Option<usize>)
    requires
        byte_len(v@) <= usize::MAX,
    ensures
        r is Some <==> on_boundary(v@, b as int),
        r matches Some(k) ==> k <= v.len() && byte_pos(v@, k as int) == b && k == char_index(
            v@,
            b as int,
        ),
{
    let mut off: usize = 0;
    let mut i: usize = 0;
    proof {
        lemma_byte_pos_full(v@);
    }
    while i < v.len() && off < b
        invariant
            i <= v.len(),
            byte_len(v@) <= usize::MAX,
            off == byte_pos(v@, i as int),
            forall|j: int| 0 <= j < i ==> byte_pos(v@, j) < b,
        decreases v.len() - i,
    {
        proof {
            lemma_byte_pos_step(v@, i as int);
            lemma_byte_pos_mono(v@, i as int + 1, v.len() as int);
        }
        off = off + utf8_width(v[i]);
        i = i + 1;
    }
    if off == b {
        proof {
            lemma_char_index(v@, b as int);
        }
        Some(i)
    } else {
        proof {
            assert forall|k: int| 0 <= k <= v.len() implies #[trigger] byte_pos(v@, k) != b by {
                if k < i {
                } else if k > i {
                    lemma_byte_pos_mono(v@, i as int, k);
                }
            }
        }
        None
    }
}

/// The index of the last character boundary of `s` at or before byte offset
/// `b` (`b >= 0`).
pub open spec fn floor_index(s: Seq<char>, b: int) -> int {
    choose|j: int|
        0 <= j <= s.len() && #[trigger] byte_pos(s, j) <= b && (j == s.len() || byte_pos(s, j + 1)
            > b)
}

/// `floor_index` is the one index that meets its definition.
pub proof fn lemma_floor_index(s: Seq<char>, b: int, j: int)
    requires
        0 <= j <= s.len(),
        byte_pos(s, j) <= b,
        j == s.len() || byte_pos(s, j + 1) > b,
    ensures
        floor_index(s, b) == j,
{
    let f = floor_index(s, b);
    assert(0 <= f <= s.len() && byte_pos(s, f) <= b && (f == s.len() || byte_pos(s, f + 1) > b));
    if f < j {
        lemma_byte_pos_mono(s, f + 1, j);
    } else if j < f {
        lemma_byte_pos_mono(s, j + 1, f);
    }
}

/// The index of the last character boundary of `v` at or before byte offset `b`.
pub fn floor_char_index(v: &Vec<char>, b: usize) -> (j: usize)
    requires
        byte_len(v@) <= usize::MAX,
    ensures
        j <= v.len(),
        byte_pos(v@, j as int) <= b,
        j == floor_index(v@, b as int),
{
    let mut j: usize = 0;
    let mut off: usize = 0;
    proof {
        lemma_byte_pos_full(v@);
    }
    while j < v.len()
        invariant
            j <= v.len(),
            byte_len(v@) <= usize::MAX,
            off == byte_pos(v@, j as int),
            off <= b,
        ensures
            j <= v.len(),
            off == byte_pos(v@, j as int),
            off <= b,
            j == v.len() || byte_pos(v@, j + 1) > b,
        decreases v.len() - j,
    {
        proof {
            lemma_byte_pos_step(v@, j as int);
            lemma_byte_pos_mono(v@, j as int + 1, v.len() as int);
        }
        let next = off + utf8_width(v[j]);
        if next > b {
            break;
        }
        off = next;
        j = j + 1;
    }
    proof {
        lemma_floor_index(v@, b as int, j as int);
    }
    j
}

// ---------------------------------------------------------------------------
// Substrings
// ---------------------------------------------------------------------------

/// `t` occurs in `s` starting at index `i`.
pub open spec fn occurs_at(s: Seq<char>, t: Seq<char>, i: int) -> bool {
    0 <= i && i + t.len() <= s.len() && s.subrange(i, i + t.len()) == t
}

/// `t` is a substring of `s` (`str::contains`).
pub open spec fn contains_seq(s: Seq<char>, t: Seq<char>) -> bool {
    exists|i: int| #[trigger] occurs_at(s, t, i)
}

fn occurs_at_exec(s: &Vec<char>, t: &Vec<char>, i: usize) -> (r: bool)
    requires
        i + t.len() <= s.len(),
    ensures
        r == occurs_at(s@, t@, i as int),
{
    let mut j: usize = 0;
    while j < t.len()
        invariant
            i + t.len() <= s.len(),
            j <= t.len(),
            forall|m: int| 0 <= m < j ==> s@[i + m] == t@[m],
        decreases t.len() - j,
    {
        if s[i + j] != t[j] {
            assert(s@.subrange(i as int, i + t.len())[j as int] != t@[j as int]);
            return false;
        }
        j = j + 1;
    }
    assert(s@.subrange(i as int, i + t.len()) =~= t@);
    true
}

/// Whether `t` occurs in `s`.
pub fn contains_chars(s: &Vec<char>, t: &Vec<char>) -> (r: bool)
    ensures
        r == contains_seq(s@, t@),
{
    if t.len() > s.len() {
        return false;
    }
    let last = s.len() - t.len();
    let mut i: usize = 0;
    while i < last
        invariant
            t.len() <= s.len(),
            last == s.len() - t.len(),
            i <= last,
            forall|m: int| 0 <= m < i ==> !#[trigger] occurs_at(s@, t@, m),
        decreases last - i,
    {
        if occurs_at_exec(s, t, i) {
            return true;
        }
        i = i + 1;
    }
    occurs_at_exec(s, t, last)
}

/// `s` without the suffix `t`, if `s` ends with `t` (`str::strip_suffix`).
pub open spec fn strip_suffix(s: Seq<char>, t: Seq<char>) -> Option<Seq<char>> {
    if t.len() <= s.len() && s.subrange(s.len() - t.len(), s.len() as int) == t {
        Some(s.subrange(0, s.len() - t.len()))
    } else {
        None
    }
}

pub fn strip_suffix_chars(s: &Vec<char>, t: &Vec<char>) -> (r: Option<Vec<char>>)
    ensures
        r matches Some(v) ==> strip_suffix(s@, t@) == Some(v@),
        r is None ==> strip_suffix(s@, t@) is None,
{
    if t.len() > s.len() {
        return None;
    }
    let start = s.len() - t.len();
    if occurs_at_exec(s, t, start) {
        let mut r: Vec<char> = Vec::new();
        let mut k: usize = 0;
        while k < start
            invariant
                k <= start <= s.len(),
                r@ == s@.subrange(0, k as int),
            decreases start - k,
        {
            r.push(s[k]);
            assert(s@.subrange(0, k + 1) == s@.subrange(0, k as int).push(s@[k as int]));
            k = k + 1;
        }
        Some(r)
    } else {
        None
    }
}

} // verus!
