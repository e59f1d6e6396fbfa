//! Character-level plumbing for the textual map format: the two trusted
//! bridges between `String` and `Vec<char>`, whitespace trimming, and the
//! shape a rectangular block of map text must have.

use vstd::prelude::*;
use crate::tile::is_glyph;

verus! {

/// Relies on `str::chars` and `Iterator::collect`: the characters of the
/// string, in order.
#[verifier::external_body]
pub fn str_chars(s: &str) -> (r: Vec<char>)
    ensures
        r@ == s@,
{
    s.chars().collect()
}

/// Relies on `FromIterator<char> for String`: the string holding exactly
/// these characters, in order.
#[verifier::external_body]
pub fn chars_string(v: &Vec<char>) -> (r: String)
    ensures
        r@ == v@,
{
    v.iter().collect()
}

/// The whitespace characters the map format can carry at its edges.
pub open spec fn is_blank(c: char) -> bool {
    c == ' ' || c == '\t' || c == '\n' || c == '\r'
}

/// Drop leading whitespace.
pub open spec fn trim_front(s: Seq<char>) -> Seq<char>
    decreases s.len(),
{
    if s.len() > 0 && is_blank(s[0]) {
        trim_front(s.drop_first())
    } else {
        s
    }
}

/// Drop trailing whitespace.
pub open spec fn trim_back(s: Seq<char>) -> Seq<char>
    decreases s.len(),
{
    if s.len() > 0 && is_blank(s[s.len() - 1]) {
        trim_back(s.drop_last())
    } else {
        s
    }
}

/// Drop whitespace from both ends.
pub open spec fn spec_trim(s: Seq<char>) -> Seq<char> {
    trim_back(trim_front(s))
}

proof fn lemma_trim_front_skip(s: Seq<char>, i: int)
    requires
        0 <= i <= s.len(),
        forall|j: int| 0 <= j < i ==> is_blank(s[j]),
        i < s.len() ==> !is_blank(s[i]),
    ensures
        trim_front(s) == s.skip(i),
    decreases i,
{
    if i == 0 {
        assert(s.skip(0) =~= s);
    } else {
        assert(is_blank(s[0]));
        let t = s.drop_first();
        assert(t =~= s.skip(1));
        assert forall|j: int| 0 <= j < i - 1 implies is_blank(t[j]) by {
            assert(t[j] == s[j + 1]);
        }
        lemma_trim_front_skip(t, i - 1);
        assert(t.skip(i - 1) =~= s.skip(i));
    }
}

proof fn lemma_trim_back_take(s: Seq<char>, e: int)
    requires
        0 <= e <= s.len(),
        forall|j: int| e <= j < s.len() ==> is_blank(s[j]),
        e > 0 ==> !is_blank(s[e - 1]),
    ensures
        trim_back(s) == s.take(e),
    decreases s.len() - e,
{
    if e == s.len() {
        assert(s.take(e) =~= s);
    } else {
        assert(is_blank(s[s.len() - 1]));
        let t = s.drop_last();
        lemma_trim_back_take(t, e);
        assert(t.take(e) =~= s.take(e));
    }
}

/// Remove leading and trailing whitespace from a character sequence.
pub fn trim_chars(v: &Vec<char>) -> (r: Vec<char>)
    ensures
        r@ == spec_trim(v@),
{
    let mut start: usize = 0;
    while start < v.len() && (v[start] == ' ' || v[start] == '\t' || v[start] == '\n' || v[start]
        == '\r')
        invariant
            start <= v@.len(),
            forall|j: int| 0 <= j < start ==> is_blank(v@[j]),
        decreases v@.len() - start,
    {
        start += 1;
    }
    proof {
        lemma_trim_front_skip(v@, start as int);
    }
    let mut end: usize = v.len();
    while end > start && (v[end - 1] == ' ' || v[end - 1] == '\t' || v[end - 1] == '\n' || v[end
        - 1] == '\r')
        invariant
            start <= end <= v@.len(),
            forall|j: int| 0 <= j < start ==> is_blank(v@[j]),
            forall|j: int| end <= j < v@.len() ==> is_blank(v@[j]),
        decreases end,
    {
        end -= 1;
    }
    let ghost f = trim_front(v@);
    proof {
        assert(f == v@.skip(start as int));
        assert forall|j: int| (end - start) <= j < f.len() implies is_blank(f[j]) by {
            assert(f[j] == v@[j + start]);
        }
        if end > start {
            assert(f[end - start - 1] == v@[end - 1]);
            assert(!is_blank(f[end - start - 1]));
        }
        lemma_trim_back_take(f, end - start);
    }
    let mut r: Vec<char> = Vec::new();
    let mut i: usize = start;
    while i < end
        invariant
            start <= i <= end <= v@.len(),
            r@ =~= v@.subrange(start as int, i as int),
        decreases end - i,
    {
        r.push(v[i]);
        i += 1;
    }
    proof {
        assert(r@ =~= v@.skip(start as int).take(end - start as int));
    }
    r
}

/// The shape of a rectangular block of map text with line width `w` and `h`
/// lines, newline-separated with no trailing newline: every glyph cell holds
/// a character of the glyph table.
pub open spec fn text_wf(t: Seq<char>, w: int, h: int) -> bool {
    &&& w >= 1
    &&& h >= 1
    &&& t.len() == h * (w + 1) - 1
    &&& forall|k: int| 0 <= k < t.len() ==> ((t[k] == '\n') <==> (k % (w + 1) == w))
    &&& forall|k: int| 0 <= k < t.len() && k % (w + 1) != w ==> is_glyph(#[trigger] t[k])
}

/// The glyph of cell `(x, y)` of a rectangular block of line width `w`.
pub open spec fn cell_glyph(t: Seq<char>, w: int, x: int, y: int) -> char {
    t[y * (w + 1) + x]
}

/// A rectangular block has exactly one line width and line count.
pub proof fn lemma_text_wf_unique(t: Seq<char>, w1: int, h1: int, w2: int, h2: int)
    requires
        text_wf(t, w1, h1),
        text_wf(t, w2, h2),
    ensures
        w1 == w2,
        h1 == h2,
{
    assert(t.len() >= w1) by (nonlinear_arith)
        requires
            t.len() == h1 * (w1 + 1) - 1,
            h1 >= 1,
            w1 >= 0,
    ;
    assert(t.len() >= w2) by (nonlinear_arith)
        requires
            t.len() == h2 * (w2 + 1) - 1,
            h2 >= 1,
            w2 >= 0,
    ;
    if w1 < w2 {
        if w1 < t.len() {
            assert(w1 % (w1 + 1) == w1) by (nonlinear_arith)
                requires
                    w1 >= 1,
            ;
            assert(t[w1] == '\n');
            assert(w1 % (w2 + 1) == w1) by (nonlinear_arith)
                requires
                    0 <= w1 < w2,
            ;
            assert(w1 != w2);
            assert(false);
        } else {
            // t.len() == w1 means a single line of width w1; the wider
            // reading would need a newline inside it
            assert(t.len() == w1);
            assert(h1 * (w1 + 1) - 1 == w1 ==> h1 == 1) by (nonlinear_arith)
                requires
                    h1 >= 1,
                    w1 >= 1,
            ;
            assert(t.len() >= w2);
            assert(false);
        }
    }
    if w2 < w1 {
        if w2 < t.len() {
            assert(w2 % (w2 + 1) == w2) by (nonlinear_arith)
                requires
                    w2 >= 1,
            ;
            assert(t[w2] == '\n');
            assert(w2 % (w1 + 1) == w2) by (nonlinear_arith)
                requires
                    0 <= w2 < w1,
            ;
            assert(false);
        } else {
            assert(t.len() == w2);
            assert(h2 * (w2 + 1) - 1 == w2 ==> h2 == 1) by (nonlinear_arith)
                requires
                    h2 >= 1,
                    w2 >= 1,
            ;
            assert(false);
        }
    }
    assert(h1 * (w1 + 1) == h2 * (w1 + 1));
    assert(h1 == h2) by (nonlinear_arith)
        requires
            h1 * (w1 + 1) == h2 * (w1 + 1),
            w1 >= 1,
    ;
}

} // verus!
