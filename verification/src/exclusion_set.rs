//! The paths a run keeps out, and how many files each pattern removed.
//!
//! An exclusion is not a silent skip: every pattern is counted, including the
//! ones that matched nothing, so a dead exclusion can be deleted rather than
//! trusted. Patterns are globs matched against the package-relative path:
//! `*` stands for any run of characters within one component, `?` for one
//! character within a component, `**` for any run of characters across
//! components, and `**/` for any number of whole directories, none included.
use vstd::prelude::*;
use crate::paths::{relative, relative_to};
use crate::text::{chars_of, lemma_views_push, views};

verus! {

/// Whether the glob matches the whole text.
pub open spec fn glob(p: Seq<char>, s: Seq<char>) -> bool
    decreases p.len(), s.len(),
{
    if p.len() == 0 {
        s.len() == 0
    } else if p.len() >= 3 && p[0] == '*' && p[1] == '*' && p[2] == '/' {
        glob(p.skip(3), s) || (s.len() > 0 && glob(p, s.skip(1)))
    } else if p.len() >= 2 && p[0] == '*' && p[1] == '*' {
        glob(p.skip(2), s) || (s.len() > 0 && glob(p, s.skip(1)))
    } else if p[0] == '*' {
        glob(p.skip(1), s) || (s.len() > 0 && s[0] != '/' && glob(p, s.skip(1)))
    } else if p[0] == '?' {
        s.len() > 0 && s[0] != '/' && glob(p.skip(1), s.skip(1))
    } else {
        s.len() > 0 && s[0] == p[0] && glob(p.skip(1), s.skip(1))
    }
}

/// The first pattern matching the path, if any.
pub open spec fn first_match(patterns: Seq<Seq<char>>, path: Seq<char>) -> Option<int>
    decreases patterns.len(),
{
    if patterns.len() == 0 {
        None
    } else {
        match first_match(patterns.drop_last(), path) {
            Some(k) => Some(k),
            None => if glob(patterns.last(), path) { Some((patterns.len() - 1) as int) } else { None },
        }
    }
}

/// The paths, relative to the root, that no pattern matches, in order.
pub open spec fn kept_paths(patterns: Seq<Seq<char>>, root: Seq<char>, paths: Seq<Seq<char>>) -> Seq<Seq<char>>
    decreases paths.len(),
{
    if paths.len() == 0 {
        Seq::<Seq<char>>::empty()
    } else if first_match(patterns, relative(root, paths.last())).is_none() {
        kept_paths(patterns, root, paths.drop_last()).push(paths.last())
    } else {
        kept_paths(patterns, root, paths.drop_last())
    }
}

/// How many of the paths the pattern at `k` removed: those it is the first
/// to match.
pub open spec fn removed_by(patterns: Seq<Seq<char>>, root: Seq<char>, paths: Seq<Seq<char>>, k: int) -> nat
    decreases paths.len(),
{
    if paths.len() == 0 {
        0
    } else {
        removed_by(patterns, root, paths.drop_last(), k) + if first_match(patterns, relative(root, paths.last())) == Some(
            k,
        ) {
            1nat
        } else {
            0nat
        }
    }
}

/// The outcome of applying the patterns to a package's paths.
pub struct ExclusionOutcome {
    /// The paths the run keeps, in the order given.
    pub kept: Vec<String>,
    /// Each pattern with how many files it removed, zero included.
    pub excluded: Vec<(String, usize)>,
}

pub struct ExclusionSet {
    patterns: Vec<String>,
}

impl View for ExclusionSet {
    type V = Seq<Seq<char>>;

    closed spec fn view(&self) -> Seq<Seq<char>> {
        views(self.patterns@)
    }
}

/// Whether the glob from `i` on matches the text from `j` on.
fn matches_from(p: &Vec<char>, i: usize, s: &Vec<char>, j: usize) -> (b: bool)
    requires
        i <= p.len(),
        j <= s.len(),
    ensures
        b == glob(p@.skip(i as int), s@.skip(j as int)),
    decreases p.len() - i, s.len() - j,
{
    let ghost rest_p = p@.skip(i as int);
    let ghost rest_s = s@.skip(j as int);
    assert(rest_s.len() > 0 ==> rest_s.skip(1) =~= s@.skip(j + 1));
    if i == p.len() {
        return j == s.len();
    }
    if p.len() - i >= 3 && p[i] == '*' && p[i + 1] == '*' && p[i + 2] == '/' {
        assert(rest_p.skip(3) =~= p@.skip(i + 3));
        matches_from(p, i + 3, s, j) || (j < s.len() && matches_from(p, i, s, j + 1))
    } else if p.len() - i >= 2 && p[i] == '*' && p[i + 1] == '*' {
        assert(rest_p.skip(2) =~= p@.skip(i + 2));
        matches_from(p, i + 2, s, j) || (j < s.len() && matches_from(p, i, s, j + 1))
    } else if p[i] == '*' {
        assert(rest_p.skip(1) =~= p@.skip(i + 1));
        matches_from(p, i + 1, s, j) || (j < s.len() && s[j] != '/' && matches_from(p, i, s, j + 1))
    } else if p[i] == '?' {
        assert(rest_p.skip(1) =~= p@.skip(i + 1));
        j < s.len() && s[j] != '/' && matches_from(p, i + 1, s, j + 1)
    } else {
        assert(rest_p.skip(1) =~= p@.skip(i + 1));
        j < s.len() && s[j] == p[i] && matches_from(p, i + 1, s, j + 1)
    }
}

/// Whether the glob matches the whole path.
pub fn glob_matches(pattern: &str, path: &str) -> (b: bool)
    ensures
        b == glob(pattern@, path@),
{
    let p = chars_of(pattern);
    let s = chars_of(path);
    assert(p@.skip(0) =~= p@);
    assert(s@.skip(0) =~= s@);
    matches_from(&p, 0, &s, 0)
}

impl ExclusionSet {
    pub fn new(patterns: &Vec<String>) -> (r: ExclusionSet)
        ensures
            r@ == views(patterns@),
    {
        ExclusionSet { patterns: crate::settings::rule_selection::copy_all(patterns) }
    }

    /// The first pattern matching a package-relative path.
    pub fn first_match(&self, path: &str) -> (r: Option<usize>)
        ensures
            match r {
                Some(k) => first_match(self@, path@) == Some(k as int),
                None => first_match(self@, path@).is_none(),
            },
    {
        let ghost all = self@;
        let mut k: usize = 0;
        assert(all.take(0) =~= Seq::<Seq<char>>::empty());
        while k < self.patterns.len()
            invariant
                k <= self.patterns.len(),
                all == views(self.patterns@),
                first_match(all.take(k as int), path@).is_none(),
            decreases self.patterns.len() - k,
        {
            assert(all.take(k + 1).drop_last() =~= all.take(k as int));
            if glob_matches(self.patterns[k].as_str(), path) {
                proof {
                    Self::lemma_first_match_extends(all, path@, k as int + 1, k as int);
                }
                return Some(k);
            }
            k = k + 1;
        }
        assert(all.take(self.patterns.len() as int) =~= all);
        None
    }

    /// A match among the first patterns is the first match among all of them.
    proof fn lemma_first_match_extends(all: Seq<Seq<char>>, path: Seq<char>, n: int, k: int)
        requires
            0 <= n <= all.len(),
            first_match(all.take(n), path) == Some(k),
        ensures
            first_match(all, path) == Some(k),
        decreases all.len() - n,
    {
        if n < all.len() {
            assert(all.take(n + 1).drop_last() =~= all.take(n));
            Self::lemma_first_match_extends(all, path, n + 1, k);
        } else {
            assert(all.take(n) =~= all);
        }
    }

    /// The paths the run keeps, and how many each pattern removed.
    pub fn apply(&self, paths: Vec<String>, root: &str) -> (r: ExclusionOutcome)
        ensures
            views(r.kept@) == kept_paths(self@, root@, views(paths@)),
            r.excluded@.len() == self@.len(),
            forall|k: int| 0 <= k < self@.len() ==> (#[trigger] r.excluded@[k]).0@ == self@[k]
                && r.excluded@[k].1 == removed_by(self@, root@, views(paths@), k),
    {
        let ghost all = views(paths@);
        let mut counts: Vec<usize> = Vec::new();
        let mut c: usize = 0;
        while c < self.patterns.len()
            invariant
                c <= self.patterns.len(),
                counts.len() == c,
                forall|k: int| 0 <= k < c ==> counts@[k] == 0,
            decreases self.patterns.len() - c,
        {
            counts.push(0);
            c = c + 1;
        }
        let mut kept: Vec<String> = Vec::new();
        let mut i: usize = 0;
        assert(all.take(0) =~= Seq::<Seq<char>>::empty());
        while i < paths.len()
            invariant
                i <= paths.len(),
                all == views(paths@),
                counts.len() == self@.len(),
                views(kept@) == kept_paths(self@, root@, all.take(i as int)),
                forall|k: int| 0 <= k < self@.len() ==> counts@[k] == removed_by(self@, root@, all.take(i as int), k),
                forall|k: int| 0 <= k < self@.len() ==> counts@[k] <= i,
            decreases paths.len() - i,
        {
            assert(all.take(i + 1).drop_last() =~= all.take(i as int));
            assert(all.take(i + 1).last() == paths@[i as int]@);
            let shown = relative_to(root, paths[i].as_str());
            match self.first_match(shown.as_str()) {
                Some(k) => {
                    proof {
                        crate::exclusion_set::lemma_first_match_bounds(self@, shown@);
                    }
                    let n = counts[k];
                    counts.set(k, n + 1);
                },
                None => {
                    let p = paths[i].clone();
                    proof {
                        lemma_views_push(kept@, p);
                    }
                    kept.push(p);
                },
            }
            i = i + 1;
        }
        assert(all.take(paths.len() as int) =~= all);
        let mut excluded: Vec<(String, usize)> = Vec::new();
        let mut k: usize = 0;
        while k < self.patterns.len()
            invariant
                k <= self.patterns.len(),
                counts.len() == self@.len(),
                excluded@.len() == k,
                forall|j: int| 0 <= j < self@.len() ==> counts@[j] == removed_by(self@, root@, all, j),
                forall|j: int| 0 <= j < k ==> (#[trigger] excluded@[j]).0@ == self@[j] && excluded@[j].1 == counts@[j],
            decreases self.patterns.len() - k,
        {
            excluded.push((self.patterns[k].clone(), counts[k]));
            k = k + 1;
        }
        ExclusionOutcome { kept, excluded }
    }
}

/// How many of the paths the first `m` patterns removed between them.
pub open spec fn removed_total(patterns: Seq<Seq<char>>, root: Seq<char>, paths: Seq<Seq<char>>, m: int) -> nat
    decreases m,
{
    if m <= 0 {
        0
    } else {
        removed_total(patterns, root, paths, m - 1) + removed_by(patterns, root, paths, m - 1)
    }
}

/// No file leaves a run uncounted: every path is either kept or removed by
/// exactly one pattern, so what the run keeps and what the patterns report
/// as removed add up to every path there was.
pub proof fn law_every_path_is_kept_or_counted(patterns: Seq<Seq<char>>, root: Seq<char>, paths: Seq<Seq<char>>)
    ensures
        kept_paths(patterns, root, paths).len() + removed_total(patterns, root, paths, patterns.len() as int) == paths.len(),
    decreases paths.len(),
{
    if paths.len() > 0 {
        law_every_path_is_kept_or_counted(patterns, root, paths.drop_last());
        lemma_removed_total_step(patterns, root, paths, patterns.len() as int);
        lemma_first_match_bounds(patterns, relative(root, paths.last()));
        assert(counted_below(patterns, relative(root, paths.last()), patterns.len() as int) == (if first_match(
            patterns,
            relative(root, paths.last()),
        ).is_none() {
            0nat
        } else {
            1nat
        }));
    } else {
        lemma_nothing_removed_from_nothing(patterns, root, paths, patterns.len() as int);
    }
}

proof fn lemma_nothing_removed_from_nothing(patterns: Seq<Seq<char>>, root: Seq<char>, paths: Seq<Seq<char>>, m: int)
    requires
        paths.len() == 0,
    ensures
        removed_total(patterns, root, paths, m) == 0,
    decreases m,
{
    if m > 0 {
        lemma_nothing_removed_from_nothing(patterns, root, paths, m - 1);
    }
}

/// One when a pattern before `m` is the first to match the path.
pub open spec fn counted_below(patterns: Seq<Seq<char>>, path: Seq<char>, m: int) -> nat {
    match first_match(patterns, path) {
        Some(k) => if k < m { 1 } else { 0 },
        None => 0,
    }
}

/// Adding a path adds one to what the first `m` patterns removed exactly
/// when one of them is the first to match it.
proof fn lemma_removed_total_step(patterns: Seq<Seq<char>>, root: Seq<char>, paths: Seq<Seq<char>>, m: int)
    requires
        paths.len() > 0,
    ensures
        removed_total(patterns, root, paths, m) == removed_total(patterns, root, paths.drop_last(), m) + counted_below(
            patterns,
            relative(root, paths.last()),
            m,
        ),
    decreases m,
{
    lemma_first_match_bounds(patterns, relative(root, paths.last()));
    if m > 0 {
        lemma_removed_total_step(patterns, root, paths, m - 1);
        assert(removed_by(patterns, root, paths, m - 1) == removed_by(patterns, root, paths.drop_last(), m - 1) + if first_match(
            patterns,
            relative(root, paths.last()),
        ) == Some(m - 1) {
            1nat
        } else {
            0nat
        });
    }
}

pub proof fn lemma_first_match_bounds(patterns: Seq<Seq<char>>, path: Seq<char>)
    ensures
        first_match(patterns, path) matches Some(k) ==> 0 <= k < patterns.len(),
    decreases patterns.len(),
{
    if patterns.len() > 0 {
        lemma_first_match_bounds(patterns.drop_last(), path);
    }
}

} // verus!
