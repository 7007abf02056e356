//! Which pairs of imports `rustfmt` orders by rules of its own.
//!
//! rustfmt disagrees with a plain alphabet on two shapes: `self`, `super` and
//! `crate`, and a pair diverging at a segment whose initial letters differ in
//! case. A rule demanding the alphabet on such a pair would write a file the
//! formatter undoes on the next run, so the rules stand down there.
//!
//! Two imports are compared at the segment where they first differ: the run
//! of identifier characters that starts after the last `:`, space, `{` or `,`
//! they share.
use vstd::prelude::*;
use crate::text::{chars_of, string_of};

verus! {

pub open spec fn common_length(a: Seq<char>, b: Seq<char>) -> nat
    decreases a.len(),
{
    if a.len() > 0 && b.len() > 0 && a[0] == b[0] {
        1 + common_length(a.drop_first(), b.drop_first())
    } else {
        0
    }
}

pub open spec fn is_boundary(c: char) -> bool {
    c == ':' || c == ' ' || c == '{' || c == ','
}

pub open spec fn is_ident_char(c: char) -> bool {
    ('a' <= c && c <= 'z') || ('A' <= c && c <= 'Z') || ('0' <= c && c <= '9') || c == '_'
}

pub open spec fn is_upper(c: char) -> bool {
    'A' <= c && c <= 'Z'
}

/// Where the segment holding position `p` starts.
pub open spec fn segment_start(s: Seq<char>, p: nat) -> nat
    decreases p,
{
    if p == 0 || p > s.len() {
        0
    } else if is_boundary(s[p - 1]) {
        p
    } else {
        segment_start(s, (p - 1) as nat)
    }
}

/// Where the run of identifier characters starting at `i` ends.
pub open spec fn ident_end(s: Seq<char>, i: nat) -> nat
    decreases s.len() - i,
{
    if i < s.len() && is_ident_char(s[i as int]) {
        ident_end(s, i + 1)
    } else {
        i
    }
}

pub open spec fn segment_at(s: Seq<char>, start: nat) -> Seq<char> {
    if start <= s.len() { s.subrange(start as int, ident_end(s, start) as int) } else { Seq::<char>::empty() }
}

pub open spec fn is_path_keyword(s: Seq<char>) -> bool {
    s == "self"@ || s == "super"@ || s == "crate"@
}

/// Whether rustfmt decides the order of the two imports.
pub open spec fn rustfmt_decides(a: Seq<char>, b: Seq<char>) -> bool {
    let p = common_length(a, b);
    let start = segment_start(a, p);
    p < a.len() && p < b.len() && (
        is_path_keyword(segment_at(a, start)) || is_path_keyword(segment_at(b, start))
            || is_upper(a[start as int]) != is_upper(b[start as int])
    )
}

pub proof fn lemma_common_length(a: Seq<char>, b: Seq<char>)
    ensures
        common_length(a, b) <= a.len(),
        common_length(a, b) <= b.len(),
        forall|i: int| 0 <= i < common_length(a, b) ==> a[i] == b[i],
        common_length(a, b) < a.len() && common_length(a, b) < b.len()
            ==> a[common_length(a, b) as int] != b[common_length(a, b) as int],
    decreases a.len(),
{
    if a.len() > 0 && b.len() > 0 && a[0] == b[0] {
        lemma_common_length(a.drop_first(), b.drop_first());
        assert forall|i: int| 0 <= i < common_length(a, b) implies a[i] == b[i] by {
            if i > 0 {
                assert(a[i] == a.drop_first()[i - 1]);
                assert(b[i] == b.drop_first()[i - 1]);
            }
        }
    }
}

pub proof fn lemma_segment_start(s: Seq<char>, p: nat)
    ensures
        segment_start(s, p) <= p || p > s.len(),
    decreases p,
{
    if p > 0 && p <= s.len() && !is_boundary(s[p - 1]) {
        lemma_segment_start(s, (p - 1) as nat);
    }
}

pub proof fn lemma_ident_end(s: Seq<char>, i: nat)
    requires
        i <= s.len(),
    ensures
        i <= ident_end(s, i) <= s.len(),
    decreases s.len() - i,
{
    if i < s.len() && is_ident_char(s[i as int]) {
        lemma_ident_end(s, i + 1);
    }
}

pub struct ImportPath;

impl ImportPath {
    fn segment(v: &Vec<char>, start: usize) -> (r: String)
        requires
            start <= v.len(),
        ensures
            r@ == segment_at(v@, start as nat),
    {
        let mut end = start;
        while end < v.len() && (('a' <= v[end] && v[end] <= 'z') || ('A' <= v[end] && v[end] <= 'Z')
            || ('0' <= v[end] && v[end] <= '9') || v[end] == '_')
            invariant
                start <= end <= v.len(),
                ident_end(v@, start as nat) == ident_end(v@, end as nat),
            decreases v.len() - end,
        {
            end = end + 1;
        }
        let r = string_of(&v.as_slice()[start..end]);
        assert(r@ =~= v@.subrange(start as int, end as int));
        r
    }

    fn is_keyword(s: &str) -> (b: bool)
        ensures
            b == is_path_keyword(s@),
    {
        crate::text::same_text(s, "self") || crate::text::same_text(s, "super") || crate::text::same_text(s, "crate")
    }

    /// Whether rustfmt, rather than the alphabet, orders the pair.
    pub fn decides_order(previous: &str, import: &str) -> (b: bool)
        ensures
            b == rustfmt_decides(previous@, import@),
    {
        let a = chars_of(previous);
        let c = chars_of(import);
        let mut p: usize = 0;
        proof {
            lemma_common_length(a@, c@);
        }
        while p < a.len() && p < c.len() && a[p] == c[p]
            invariant
                a@ == previous@,
                c@ == import@,
                p <= common_length(a@, c@),
                common_length(a@, c@) <= a.len(),
                common_length(a@, c@) <= c.len(),
                forall|i: int| 0 <= i < common_length(a@, c@) ==> a@[i] == c@[i],
                common_length(a@, c@) < a.len() && common_length(a@, c@) < c.len()
                    ==> a@[common_length(a@, c@) as int] != c@[common_length(a@, c@) as int],
            decreases a.len() - p,
        {
            p = p + 1;
        }
        assert(p == common_length(a@, c@));
        if p == a.len() || p == c.len() {
            return false;
        }
        let mut start = p;
        while start > 0 && !(a[start - 1] == ':' || a[start - 1] == ' ' || a[start - 1] == '{' || a[start - 1] == ',')
            invariant
                a@ == previous@,
                start <= p,
                p < a.len(),
                segment_start(a@, p as nat) == segment_start(a@, start as nat),
            decreases start,
        {
            start = start - 1;
        }
        assert(start <= c.len());
        let first = Self::segment(&a, start);
        let second = Self::segment(&c, start);
        let upper_a = 'A' <= a[start] && a[start] <= 'Z';
        let upper_c = 'A' <= c[start] && c[start] <= 'Z';
        Self::is_keyword(first.as_str()) || Self::is_keyword(second.as_str()) || upper_a != upper_c
    }
}

} // verus!
