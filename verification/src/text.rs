//! Characters of a script: blanks, trimming, searching, copying.

use vstd::prelude::*;

verus! {

/// A space, a tab or a carriage return.
pub open spec fn is_blank(c: char) -> bool {
    c == ' ' || c == '\t' || c == '\r'
}

/// `s` without its leading blanks.
pub open spec fn trim_start(s: Seq<char>) -> Seq<char>
    decreases s.len(),
{
    if s.len() > 0 && is_blank(s[0]) {
        trim_start(s.skip(1))
    } else {
        s
    }
}

/// `s` without its trailing blanks.
pub open spec fn trim_end(s: Seq<char>) -> Seq<char>
    decreases s.len(),
{
    if s.len() > 0 && is_blank(s.last()) {
        trim_end(s.drop_last())
    } else {
        s
    }
}

/// `s` without the blanks at either end.
pub open spec fn trim(s: Seq<char>) -> Seq<char> {
    trim_end(trim_start(s))
}

/// Position of the first `c` in `s`; the length of `s` where it has none.
pub open spec fn index_of(s: Seq<char>, c: char) -> nat
    decreases s.len(),
{
    if s.len() == 0 {
        0
    } else if s[0] == c {
        0
    } else {
        1 + index_of(s.skip(1), c)
    }
}

/// Position of the first `->` in `s`; the length of `s` where it has none.
pub open spec fn arrow_pos(s: Seq<char>) -> nat
    decreases s.len(),
{
    if s.len() < 2 {
        s.len()
    } else if s[0] == '-' && s[1] == '>' {
        0
    } else {
        1 + arrow_pos(s.skip(1))
    }
}

/// `s` without one leading anchor marker `#`.
pub open spec fn strip_anchor(s: Seq<char>) -> Seq<char> {
    if s.len() > 0 && s[0] == '#' {
        s.skip(1)
    } else {
        s
    }
}

/// `s`, or nothing where `s` is empty.
pub open spec fn non_empty(s: Seq<char>) -> Option<Seq<char>> {
    if s.len() == 0 {
        None
    } else {
        Some(s)
    }
}

/// Whether `c` is a blank.
pub fn blank(c: char) -> (r: bool)
    ensures
        r == is_blank(c),
{
    c == ' ' || c == '\t' || c == '\r'
}

/// First position in `lo..hi` that holds no blank.
pub fn skip_blanks(src: &Vec<char>, lo: usize, hi: usize) -> (r: usize)
    requires
        lo <= hi <= src.len(),
    ensures
        lo <= r <= hi,
        src@.subrange(r as int, hi as int) == trim_start(src@.subrange(lo as int, hi as int)),
{
    let mut i: usize = lo;
    while i < hi && blank(src[i])
        invariant
            lo <= i <= hi <= src.len(),
            trim_start(src@.subrange(i as int, hi as int)) == trim_start(
                src@.subrange(lo as int, hi as int),
            ),
        decreases hi - i,
    {
        proof {
            assert(src@.subrange(i as int, hi as int).skip(1) =~= src@.subrange(
                i + 1,
                hi as int,
            ));
        }
        i = i + 1;
    }
    i
}

/// End of the part of `lo..hi` that is left without its trailing blanks.
pub fn drop_blanks(src: &Vec<char>, lo: usize, hi: usize) -> (r: usize)
    requires
        lo <= hi <= src.len(),
    ensures
        lo <= r <= hi,
        src@.subrange(lo as int, r as int) == trim_end(src@.subrange(lo as int, hi as int)),
{
    let mut i: usize = hi;
    while i > lo && blank(src[i - 1])
        invariant
            lo <= i <= hi <= src.len(),
            trim_end(src@.subrange(lo as int, i as int)) == trim_end(
                src@.subrange(lo as int, hi as int),
            ),
        decreases i - lo,
    {
        proof {
            assert(src@.subrange(lo as int, i as int).drop_last() =~= src@.subrange(
                lo as int,
                i - 1,
            ));
        }
        i = i - 1;
    }
    i
}

/// The part of `lo..hi` without the blanks at either end.
pub fn trim_range(src: &Vec<char>, lo: usize, hi: usize) -> (r: (usize, usize))
    requires
        lo <= hi <= src.len(),
    ensures
        lo <= r.0 <= r.1 <= hi,
        src@.subrange(r.0 as int, r.1 as int) == trim(src@.subrange(lo as int, hi as int)),
{
    let a: usize = skip_blanks(src, lo, hi);
    let b: usize = drop_blanks(src, a, hi);
    (a, b)
}

/// Position of the first `c` in `lo..hi`, or `hi`.
pub fn find_char(src: &Vec<char>, lo: usize, hi: usize, c: char) -> (r: usize)
    requires
        lo <= hi <= src.len(),
    ensures
        lo <= r <= hi,
        r - lo == index_of(src@.subrange(lo as int, hi as int), c),
{
    let mut i: usize = lo;
    while i < hi && src[i] != c
        invariant
            lo <= i <= hi <= src.len(),
            index_of(src@.subrange(lo as int, hi as int), c) == (i - lo) + index_of(
                src@.subrange(i as int, hi as int),
                c,
            ),
        decreases hi - i,
    {
        proof {
            assert(src@.subrange(i as int, hi as int).skip(1) =~= src@.subrange(
                i + 1,
                hi as int,
            ));
        }
        i = i + 1;
    }
    i
}

/// Position of the first `->` in `lo..hi`, or `hi`.
pub fn find_arrow(src: &Vec<char>, lo: usize, hi: usize) -> (r: usize)
    requires
        lo <= hi <= src.len(),
    ensures
        lo <= r <= hi,
        r - lo == arrow_pos(src@.subrange(lo as int, hi as int)),
        r < hi ==> r + 2 <= hi,
{
    let mut i: usize = lo;
    while hi - i >= 2 && !(src[i] == '-' && src[i + 1] == '>')
        invariant
            lo <= i <= hi <= src.len(),
            arrow_pos(src@.subrange(lo as int, hi as int)) == (i - lo) + arrow_pos(
                src@.subrange(i as int, hi as int),
            ),
        decreases hi - i,
    {
        proof {
            assert(src@.subrange(i as int, hi as int).skip(1) =~= src@.subrange(
                i + 1,
                hi as int,
            ));
        }
        i = i + 1;
    }
    if hi - i >= 2 {
        i
    } else {
        hi
    }
}

/// `String::push`: appends one character to the string.
#[verifier::external_body]
pub(crate) fn push_char(s: &mut String, c: char)
    ensures
        final(s)@ == old(s)@.push(c),
{
    s.push(c)
}

/// The characters `lo..hi` as a string.
pub fn make_string(src: &Vec<char>, lo: usize, hi: usize) -> (r: String)
    requires
        lo <= hi <= src.len(),
    ensures
        r@ == src@.subrange(lo as int, hi as int),
{
    let mut out: String = String::new();
    let mut i: usize = lo;
    while i < hi
        invariant
            lo <= i <= hi <= src.len(),
            out@ == src@.subrange(lo as int, i as int),
        decreases hi - i,
    {
        push_char(&mut out, src[i]);
        proof {
            assert(src@.subrange(lo as int, i as int).push(src@[i as int]) =~= src@.subrange(
                lo as int,
                i + 1,
            ));
        }
        i = i + 1;
    }
    out
}

/// The characters `lo..hi` as a string, or nothing where there are none.
pub fn make_optional(src: &Vec<char>, lo: usize, hi: usize) -> (r: Option<String>)
    requires
        lo <= hi <= src.len(),
    ensures
        crate::model::text_opt(r) == non_empty(src@.subrange(lo as int, hi as int)),
{
    if lo == hi {
        None
    } else {
        Some(make_string(src, lo, hi))
    }
}

/// The characters of a string slice.
pub fn to_chars(s: &str) -> (r: Vec<char>)
    ensures
        r@ == s@,
{
    broadcast use vstd::string::group_string_axioms;

    let mut out: Vec<char> = Vec::new();
    for c in it: s.chars()
        invariant
            it.seq() == s@,
            out@ == s@.take(it.index() as int),
    {
        proof {
            assert(s@.take(it.index() as int).push(c) =~= s@.take(it.index() + 1));
        }
        out.push(c);
    }
    proof {
        assert(s@.take(s@.len() as int) =~= s@);
    }
    out
}

} // verus!
