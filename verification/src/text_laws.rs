//! Facts about trimming and searching, as the round trip needs them.

use vstd::prelude::*;
use crate::text::{arrow_pos, index_of, is_blank, trim, trim_end, trim_start};

verus! {

/// Empty, or with a character that is no blank at either end.
pub open spec fn trimmed(s: Seq<char>) -> bool {
    s.len() == 0 || (!is_blank(s[0]) && !is_blank(s.last()))
}

/// No `->` in `x`.
pub open spec fn arrow_free(x: Seq<char>) -> bool {
    forall|i: int| 0 <= i < x.len() - 1 ==> !(#[trigger] x[i] == '-' && x[i + 1] == '>')
}

/// Trimming leaves a trimmed sequence as it is.
pub proof fn lemma_trimmed_fixed(s: Seq<char>)
    requires
        trimmed(s),
    ensures
        trim(s) == s,
{
}

/// What is left without leading blanks is the end of the sequence and
/// starts with no blank.
pub proof fn lemma_trim_start_shape(s: Seq<char>)
    ensures
        trim_start(s).len() <= s.len(),
        trim_start(s) == s.skip(s.len() - trim_start(s).len()),
        trim_start(s).len() == 0 || !is_blank(trim_start(s)[0]),
        s.len() > 0 && !is_blank(s[0]) ==> trim_start(s) == s,
    decreases s.len(),
{
    if s.len() > 0 && is_blank(s[0]) {
        lemma_trim_start_shape(s.skip(1));
        let t = trim_start(s.skip(1));
        assert(s.skip(1).skip(s.skip(1).len() - t.len()) =~= s.skip(s.len() - t.len()));
    } else {
        assert(s.skip(0) =~= s);
    }
}

/// What is left without trailing blanks is the start of the sequence
/// and ends with no blank.
pub proof fn lemma_trim_end_shape(s: Seq<char>)
    ensures
        trim_end(s).len() <= s.len(),
        trim_end(s) == s.take(trim_end(s).len() as int),
        trim_end(s).len() == 0 || !is_blank(trim_end(s).last()),
    decreases s.len(),
{
    if s.len() > 0 && is_blank(s.last()) {
        lemma_trim_end_shape(s.drop_last());
        let t = trim_end(s.drop_last());
        assert(s.drop_last().take(t.len() as int) =~= s.take(t.len() as int));
    } else {
        assert(s.take(s.len() as int) =~= s);
    }
}

/// Number of leading blanks of `s`.
pub open spec fn lead(s: Seq<char>) -> int {
    s.len() - trim_start(s).len()
}

/// A trimmed sequence is a part of the sequence, and is trimmed.
pub proof fn lemma_trim_shape(s: Seq<char>)
    ensures
        0 <= lead(s),
        lead(s) + trim(s).len() <= s.len(),
        trim(s) == s.subrange(lead(s), lead(s) + trim(s).len()),
        trimmed(trim(s)),
        s.len() > 0 && !is_blank(s[0]) ==> lead(s) == 0 && trim(s).len() > 0,
{
    lemma_trim_start_shape(s);
    let u = trim_start(s);
    lemma_trim_end_shape(u);
    let t = trim_end(u);
    assert(u.take(t.len() as int) =~= s.subrange(lead(s), lead(s) + t.len()));
    if t.len() > 0 {
        assert(t[0] == u[0]);
    }
    if s.len() > 0 && !is_blank(s[0]) {
        assert(u == s);
        assert(trim_end(s).len() > 0) by {
            lemma_trim_end_keeps_first(s);
        }
    }
}

/// Trailing blanks end before a first character that is no blank.
pub proof fn lemma_trim_end_keeps_first(s: Seq<char>)
    requires
        s.len() > 0,
        !is_blank(s[0]),
    ensures
        trim_end(s).len() > 0,
    decreases s.len(),
{
    if is_blank(s.last()) {
        assert(s.len() > 1);
        assert(s.drop_last()[0] == s[0]);
        lemma_trim_end_keeps_first(s.drop_last());
    }
}

/// A part of a sequence without `c` is without `c`.
pub proof fn lemma_part_lacks(s: Seq<char>, a: int, b: int, c: char)
    requires
        !s.contains(c),
        0 <= a <= b <= s.len(),
    ensures
        !s.subrange(a, b).contains(c),
{
    let p = s.subrange(a, b);
    assert forall|i: int| 0 <= i < p.len() implies p[i] != c by {
        assert(s.contains(s[a + i]));
    }
}

/// Trimming a sequence without `c` leaves it without `c`.
pub proof fn lemma_trim_lacks(s: Seq<char>, c: char)
    requires
        !s.contains(c),
    ensures
        !trim(s).contains(c),
{
    lemma_trim_shape(s);
    lemma_part_lacks(s, lead(s), lead(s) + trim(s).len(), c);
}

/// Two sequences without `c` joined are without `c`.
pub proof fn lemma_concat_lacks(a: Seq<char>, b: Seq<char>, c: char)
    requires
        !a.contains(c),
        !b.contains(c),
    ensures
        !(a + b).contains(c),
{
    let p = a + b;
    assert forall|i: int| 0 <= i < p.len() implies p[i] != c by {
        if i < a.len() {
            assert(a.contains(a[i]));
        } else {
            assert(b.contains(b[i - a.len()]));
        }
    }
}

/// Before the first `c` there is no `c`.
pub proof fn lemma_take_lacks(s: Seq<char>, c: char)
    ensures
        index_of(s, c) <= s.len(),
        !s.take(index_of(s, c) as int).contains(c),
    decreases s.len(),
{
    let n = index_of(s, c);
    let p = s.take(n as int);
    if s.len() > 0 && s[0] != c {
        lemma_take_lacks(s.skip(1), c);
        let q = s.skip(1).take(n - 1);
        assert forall|i: int| 0 <= i < p.len() implies p[i] != c by {
            if i > 0 {
                assert(q[i - 1] == p[i]);
                assert(q.contains(q[i - 1]));
            }
        }
    }
}

/// Without a `c` the search ends at the end.
pub proof fn lemma_index_of_none(s: Seq<char>, c: char)
    requires
        !s.contains(c),
    ensures
        index_of(s, c) == s.len(),
    decreases s.len(),
{
    if s.len() > 0 {
        assert(s.contains(s[0]));
        assert forall|i: int| 0 <= i < s.skip(1).len() implies s.skip(1)[i] != c by {
            assert(s.contains(s[i + 1]));
        }
        lemma_index_of_none(s.skip(1), c);
    }
}

/// A sequence without `c`, and a `c` behind it: the first `c` stands at its end.
pub proof fn lemma_index_of_first(a: Seq<char>, c: char, b: Seq<char>)
    requires
        !a.contains(c),
    ensures
        index_of(a + seq![c] + b, c) == a.len(),
    decreases a.len(),
{
    let s = a + seq![c] + b;
    if a.len() == 0 {
        assert(s[0] == c);
    } else {
        assert(a.contains(a[0]));
        assert(s[0] == a[0]);
        assert(s.skip(1) =~= a.skip(1) + seq![c] + b);
        assert forall|i: int| 0 <= i < a.skip(1).len() implies a.skip(1)[i] != c by {
            assert(a.contains(a[i + 1]));
        }
        lemma_index_of_first(a.skip(1), c, b);
    }
}

/// Trimming takes a blank before a trimmed sequence away.
pub proof fn lemma_trim_pad_left(s: Seq<char>)
    requires
        trimmed(s),
    ensures
        trim(seq![' '] + s) == s,
{
    let p = seq![' '] + s;
    assert(p.skip(1) =~= s);
    assert(is_blank(p[0]));
    assert(trim_start(p) == trim_start(s));
    assert(trim_start(s) == s);
    assert(trim_end(s) == s);
}

/// Trimming takes a blank behind a trimmed sequence away.
pub proof fn lemma_trim_pad_right(s: Seq<char>)
    requires
        trimmed(s),
    ensures
        trim(s + seq![' ']) == s,
{
    let p = s + seq![' '];
    assert(p.drop_last() =~= s);
    assert(is_blank(p.last()));
    if s.len() == 0 {
        assert(p.skip(1) =~= s);
        assert(trim_start(p) == trim_start(s));
        assert(trim_start(s) == s);
    } else {
        assert(p[0] == s[0]);
        assert(trim_start(p) == p);
        assert(trim_end(p) == trim_end(s));
    }
    assert(trim_end(s) == s);
}

/// Trimming takes the blanks round a trimmed sequence away.
pub proof fn lemma_trim_pad_both(s: Seq<char>)
    requires
        trimmed(s),
    ensures
        trim(seq![' '] + s + seq![' ']) == s,
{
    let p = seq![' '] + s + seq![' '];
    assert(p.skip(1) =~= s + seq![' ']);
    assert(is_blank(p[0]));
    assert(trim_start(p) == trim_start(s + seq![' ']));
    lemma_trim_pad_right(s);
}

/// The first `->` lies inside the sequence, with both its characters.
pub proof fn lemma_arrow_pos_bound(s: Seq<char>)
    ensures
        arrow_pos(s) <= s.len(),
        arrow_pos(s) < s.len() ==> arrow_pos(s) + 2 <= s.len(),
    decreases s.len(),
{
    if s.len() >= 2 && !(s[0] == '-' && s[1] == '>') {
        lemma_arrow_pos_bound(s.skip(1));
    }
}

/// Behind a sequence without `->`, the first `->` stands at its end.
pub proof fn lemma_arrow_first(x: Seq<char>, y: Seq<char>)
    requires
        arrow_free(x),
    ensures
        arrow_pos(x + seq!['-', '>'] + y) == x.len(),
    decreases x.len(),
{
    let s = x + seq!['-', '>'] + y;
    if x.len() == 0 {
        assert(s[0] == '-' && s[1] == '>');
    } else {
        assert(s[0] == x[0]);
        if x.len() >= 2 {
            assert(s[1] == x[1]);
            assert(!(x[0] == '-' && x[1] == '>'));
        } else {
            assert(s[1] == '-');
        }
        assert(s.skip(1) =~= x.skip(1) + seq!['-', '>'] + y);
        assert forall|i: int| 0 <= i < x.skip(1).len() - 1 implies !(#[trigger] x.skip(1)[i] == '-'
            && x.skip(1)[i + 1] == '>') by {
            assert(!(x[i + 1] == '-' && x[i + 1 + 1] == '>'));
        }
        lemma_arrow_first(x.skip(1), y);
    }
}

/// Before the first `->` there is no `->`.
pub proof fn lemma_take_arrow_free(s: Seq<char>)
    ensures
        arrow_free(s.take(arrow_pos(s) as int)),
    decreases s.len(),
{
    lemma_arrow_pos_bound(s);
    let n = arrow_pos(s);
    let p = s.take(n as int);
    if s.len() >= 2 && !(s[0] == '-' && s[1] == '>') {
        lemma_take_arrow_free(s.skip(1));
        lemma_arrow_pos_bound(s.skip(1));
        let q = s.skip(1).take(n - 1);
        assert forall|i: int| 0 <= i < p.len() - 1 implies !(#[trigger] p[i] == '-' && p[i + 1]
            == '>') by {
            if i > 0 {
                assert(q[i - 1] == p[i]);
                assert(q[i - 1 + 1] == p[i + 1]);
                assert(!(q[i - 1] == '-' && q[i - 1 + 1] == '>'));
            }
        }
    }
}

/// A part of a sequence without `->` is without `->`.
pub proof fn lemma_part_arrow_free(s: Seq<char>, a: int, b: int)
    requires
        arrow_free(s),
        0 <= a <= b <= s.len(),
    ensures
        arrow_free(s.subrange(a, b)),
{
    let p = s.subrange(a, b);
    assert forall|i: int| 0 <= i < p.len() - 1 implies !(#[trigger] p[i] == '-' && p[i + 1]
        == '>') by {
        assert(!(s[a + i] == '-' && s[a + i + 1] == '>'));
    }
}

/// Blanks round a sequence without `->` make no `->`.
pub proof fn lemma_padded_arrow_free(t: Seq<char>)
    requires
        arrow_free(t),
    ensures
        arrow_free(seq![' '] + t + seq![' ']),
{
    let p = seq![' '] + t + seq![' '];
    assert forall|i: int| 0 <= i < p.len() - 1 implies !(#[trigger] p[i] == '-' && p[i + 1]
        == '>') by {
        if 1 <= i && i + 1 <= t.len() {
            assert(p[i] == t[i - 1]);
            assert(p[i + 1] == t[i - 1 + 1]);
            assert(!(t[i - 1] == '-' && t[i - 1 + 1] == '>'));
        }
    }
}

} // verus!
