//! Facts about character sequences cut into segments by a separator, as
//! topics are by `.` and URLs by `/`.
use vstd::prelude::*;

verus! {

/// No character of `s` is `c`.
pub open spec fn free_of(s: Seq<char>, c: char) -> bool {
    forall|i: int| 0 <= i < s.len() ==> s[i] != c
}

/// How many characters of `s` are `c`.
pub open spec fn count_char(s: Seq<char>, c: char) -> nat
    decreases s.len(),
{
    if s.len() == 0 {
        0
    } else {
        count_char(s.drop_last(), c) + if s.last() == c {
            1nat
        } else {
            0nat
        }
    }
}

/// Into how many segments the separator `sep` cuts `s`.
pub open spec fn segment_count(s: Seq<char>, sep: char) -> nat {
    count_char(s, sep) + 1
}

/// What follows the last `sep` in `s`; all of `s` where it holds none.
pub open spec fn last_segment(s: Seq<char>, sep: char) -> Seq<char>
    decreases s.len(),
{
    if s.len() == 0 || s.last() == sep {
        Seq::empty()
    } else {
        last_segment(s.drop_last(), sep).push(s.last())
    }
}

/// `a`, then the separator, then `b`.
pub open spec fn joined(a: Seq<char>, sep: char, b: Seq<char>) -> Seq<char> {
    a.push(sep) + b
}

/// Counting distributes over concatenation.
pub proof fn lemma_count_concat(a: Seq<char>, b: Seq<char>, c: char)
    ensures
        count_char(a + b, c) == count_char(a, c) + count_char(b, c),
    decreases b.len(),
{
    if b.len() == 0 {
        assert(a + b =~= a);
    } else {
        assert((a + b).drop_last() =~= a + b.drop_last());
        assert((a + b).last() == b.last());
        lemma_count_concat(a, b.drop_last(), c);
    }
}

/// A sequence holds no `c` exactly when the count of `c` in it is zero.
pub proof fn lemma_count_free(s: Seq<char>, c: char)
    ensures
        free_of(s, c) <==> count_char(s, c) == 0,
    decreases s.len(),
{
    if s.len() > 0 {
        lemma_count_free(s.drop_last(), c);
        if free_of(s, c) {
            assert forall|i: int| 0 <= i < s.drop_last().len() implies s.drop_last()[i] != c by {
                assert(s.drop_last()[i] == s[i]);
            }
        }
        if count_char(s, c) == 0 {
            assert(s.last() != c);
            assert forall|i: int| 0 <= i < s.len() implies s[i] != c by {
                if i < s.len() - 1 {
                    assert(s.drop_last()[i] == s[i]);
                }
            }
        }
    }
}

/// One separator more makes one segment more.
pub proof fn lemma_segments_joined(a: Seq<char>, sep: char, b: Seq<char>)
    ensures
        segment_count(joined(a, sep, b), sep) == segment_count(a, sep) + segment_count(b, sep),
{
    lemma_count_concat(a.push(sep), b, sep);
    assert(a.push(sep).drop_last() =~= a);
}

/// Behind a separator, a tail that holds none is the last segment.
pub proof fn lemma_last_segment_joined(a: Seq<char>, sep: char, b: Seq<char>)
    requires
        free_of(b, sep),
    ensures
        last_segment(joined(a, sep, b), sep) == b,
    decreases b.len(),
{
    let s = joined(a, sep, b);
    if b.len() == 0 {
        assert(s =~= a.push(sep));
        assert(last_segment(s, sep) =~= b);
    } else {
        assert(s.last() == b.last());
        assert(s.drop_last() =~= joined(a, sep, b.drop_last()));
        assert forall|i: int| 0 <= i < b.drop_last().len() implies b.drop_last()[i] != sep by {
            assert(b.drop_last()[i] == b[i]);
        }
        lemma_last_segment_joined(a, sep, b.drop_last());
        assert(b.drop_last().push(b.last()) =~= b);
    }
}

/// A common head can be struck from both sides of an equation.
pub proof fn lemma_cancel_head(p: Seq<char>, x: Seq<char>, y: Seq<char>)
    requires
        p + x == p + y,
    ensures
        x == y,
{
    assert((p + x).len() == p.len() + x.len());
    assert((p + y).len() == p.len() + y.len());
    assert forall|i: int| 0 <= i < x.len() implies x[i] == y[i] by {
        assert((p + x)[p.len() + i] == x[i]);
        assert((p + y)[p.len() + i] == y[i]);
    }
    assert(x =~= y);
}

/// Two heads that hold no separator, each followed by the separator and a
/// tail, give the same text only if heads and tails agree.
pub proof fn lemma_joined_unique(
    a1: Seq<char>,
    b1: Seq<char>,
    a2: Seq<char>,
    b2: Seq<char>,
    sep: char,
)
    requires
        free_of(a1, sep),
        free_of(a2, sep),
        joined(a1, sep, b1) == joined(a2, sep, b2),
    ensures
        a1 == a2,
        b1 == b2,
{
    let s1 = joined(a1, sep, b1);
    let s2 = joined(a2, sep, b2);
    assert(s1[a1.len() as int] == sep);
    assert(s2[a2.len() as int] == sep);
    if a1.len() < a2.len() {
        assert(s2[a1.len() as int] == a2[a1.len() as int]);
    }
    if a2.len() < a1.len() {
        assert(s1[a2.len() as int] == a1[a2.len() as int]);
    }
    assert(a1.len() == a2.len());
    assert forall|i: int| 0 <= i < a1.len() implies a1[i] == a2[i] by {
        assert(s1[i] == a1[i]);
        assert(s2[i] == a2[i]);
    }
    assert(a1 =~= a2);
    lemma_cancel_head(a1.push(sep), b1, b2);
}

/// A text without separator never equals one that holds a separator.
pub proof fn lemma_free_differs_from_joined(a1: Seq<char>, a2: Seq<char>, b2: Seq<char>, sep: char)
    requires
        free_of(a1, sep),
        free_of(a2, sep),
    ensures
        a1 != joined(a2, sep, b2),
{
    let s2 = joined(a2, sep, b2);
    if a1 == s2 {
        assert(s2[a2.len() as int] == sep);
        assert(a1[a2.len() as int] == sep);
    }
}

} // verus!
