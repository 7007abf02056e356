//! Which rules a run applies.
//!
//! The default is everything. Naming a rule makes the selection a whitelist;
//! skipping subtracts from whatever is left, and wins over selecting.
use vstd::prelude::*;
use vstd::std_specs::cmp::PartialEqSpecImpl;
use crate::text::{
    insert_all_sorted, lemma_views_push, same_text, sorted_unique, strictly_sorted, views,
};

verus! {

pub struct RuleSelectionView {
    pub selected: Seq<Seq<char>>,
    pub skipped: Seq<Seq<char>>,
}

/// Whether a selection applies the rule of this name.
pub open spec fn selection_includes(s: RuleSelectionView, name: Seq<char>) -> bool {
    !s.skipped.contains(name) && (s.selected.len() == 0 || s.selected.contains(name))
}

/// The names among `names` that `known` does not hold, in order.
pub open spec fn not_known(names: Seq<Seq<char>>, known: Seq<Seq<char>>) -> Seq<Seq<char>>
    decreases names.len(),
{
    if names.len() == 0 {
        Seq::<Seq<char>>::empty()
    } else if known.contains(names.last()) {
        not_known(names.drop_last(), known)
    } else {
        not_known(names.drop_last(), known).push(names.last())
    }
}

pub open spec fn str_views(v: Seq<&str>) -> Seq<Seq<char>> {
    v.map_values(|s: &str| s@)
}

pub struct RuleSelection {
    selected: Vec<String>,
    skipped: Vec<String>,
}

impl View for RuleSelection {
    type V = RuleSelectionView;

    closed spec fn view(&self) -> RuleSelectionView {
        RuleSelectionView { selected: views(self.selected@), skipped: views(self.skipped@) }
    }
}

/// Whether `name` is among the strings.
pub fn holds(names: &Vec<String>, name: &str) -> (b: bool)
    ensures
        b == views(names@).contains(name@),
{
    let mut i: usize = 0;
    while i < names.len()
        invariant
            i <= names.len(),
            forall|j: int| 0 <= j < i ==> views(names@)[j] != name@,
        decreases names.len() - i,
    {
        if same_text(names[i].as_str(), name) {
            assert(views(names@)[i as int] == name@);
            return true;
        }
        i = i + 1;
    }
    false
}

/// Whether `name` is among the string slices.
pub fn holds_str(names: &[&str], name: &str) -> (b: bool)
    ensures
        b == str_views(names@).contains(name@),
{
    let mut i: usize = 0;
    while i < names.len()
        invariant
            i <= names.len(),
            forall|j: int| 0 <= j < i ==> str_views(names@)[j] != name@,
        decreases names.len() - i,
    {
        if same_text(names[i], name) {
            assert(str_views(names@)[i as int] == name@);
            return true;
        }
        i = i + 1;
    }
    false
}

/// An owned copy of every string.
pub fn copy_all(v: &Vec<String>) -> (r: Vec<String>)
    ensures
        views(r@) == views(v@),
{
    let mut r: Vec<String> = Vec::new();
    let mut i: usize = 0;
    while i < v.len()
        invariant
            i <= v.len(),
            views(r@) == views(v@).take(i as int),
        decreases v.len() - i,
    {
        let c = v[i].clone();
        assert(c@ == views(v@)[i as int]);
        proof {
            lemma_views_push(r@, c);
        }
        r.push(c);
        i = i + 1;
        assert(views(r@) =~= views(v@).take(i as int));
    }
    assert(views(v@).take(v.len() as int) == views(v@));
    r
}

/// Whether two lists of strings hold the same strings in the same order.
pub fn same_strings(a: &Vec<String>, b: &Vec<String>) -> (r: bool)
    ensures
        r == (views(a@) == views(b@)),
{
    if a.len() != b.len() {
        assert(views(a@).len() != views(b@).len());
        return false;
    }
    let mut i: usize = 0;
    while i < a.len()
        invariant
            a.len() == b.len(),
            i <= a.len(),
            forall|k: int| 0 <= k < i ==> views(a@)[k] == views(b@)[k],
        decreases a.len() - i,
    {
        if !same_text(a[i].as_str(), b[i].as_str()) {
            assert(views(a@)[i as int] != views(b@)[i as int]);
            return false;
        }
        i = i + 1;
    }
    assert(views(a@) =~= views(b@));
    true
}

impl PartialEq for RuleSelection {
    fn eq(&self, other: &Self) -> (r: bool) {
        same_strings(&self.selected, &other.selected) && same_strings(&self.skipped, &other.skipped)
    }
}

impl Eq for RuleSelection {
}

impl PartialEqSpecImpl for RuleSelection {
    open spec fn obeys_eq_spec() -> bool {
        true
    }

    open spec fn eq_spec(&self, other: &Self) -> bool {
        self@ == other@
    }
}

impl Default for RuleSelection {
    /// Every rule: nothing selected by name, nothing skipped.
    fn default() -> (r: RuleSelection)
        ensures
            r@.selected.len() == 0,
            r@.skipped.len() == 0,
    {
        RuleSelection { selected: Vec::new(), skipped: Vec::new() }
    }
}

impl RuleSelection {
    pub fn new(selected: Vec<String>, skipped: Vec<String>) -> (r: RuleSelection)
        ensures
            r@.selected == views(selected@),
            r@.skipped == views(skipped@),
    {
        RuleSelection { selected, skipped }
    }

    /// The same selection, standing down on these as well. The skipped names
    /// come out sorted, each once.
    pub fn also_skipping(&self, more: &Vec<String>) -> (r: RuleSelection)
        ensures
            r@.selected == self@.selected,
            strictly_sorted(r@.skipped),
            forall|t: Seq<char>| r@.skipped.contains(t) <==> (self@.skipped.contains(t) || views(more@).contains(t)),
    {
        let mut skipped = sorted_unique(&self.skipped);
        let ghost first = views(skipped@);
        insert_all_sorted(&mut skipped, more);
        let ghost second = views(skipped@);
        let r = RuleSelection { selected: copy_all(&self.selected), skipped };
        assert forall|t: Seq<char>| r@.skipped.contains(t) <==> (self@.skipped.contains(t) || views(more@).contains(t)) by {
            assert(r@.skipped == second);
            assert(second.contains(t) <==> (first.contains(t) || views(more@).contains(t)));
            assert(first.contains(t) <==> self@.skipped.contains(t));
        }
        r
    }

    /// Skipping wins over selecting: asking for a rule and excluding it in the
    /// same breath is a contradiction, and the safer reading is the narrower.
    pub fn includes(&self, name: &str) -> (b: bool)
        ensures
            b == selection_includes(self@, name@),
    {
        if holds(&self.skipped, name) {
            return false;
        }
        self.selected.len() == 0 || holds(&self.selected, name)
    }

    /// Whether the rule was asked for by name, which differs from being in
    /// the set for a rule that cannot run without configuration.
    pub fn selects_explicitly(&self, name: &str) -> (b: bool)
        ensures
            b == self@.selected.contains(name@),
    {
        holds(&self.selected, name)
    }

    /// Every selected or skipped name that is not a known rule, selected
    /// first.
    pub fn unknown_in(&self, known: &[&str]) -> (r: Vec<String>)
        ensures
            views(r@) == not_known(self@.selected + self@.skipped, str_views(known@)),
    {
        let mut r: Vec<String> = Vec::new();
        assert(views(r@) =~= not_known(Seq::<Seq<char>>::empty(), str_views(known@)));
        push_unknown(&mut r, &self.selected, known);
        push_unknown(&mut r, &self.skipped, known);
        proof {
            lemma_not_known_append(self@.selected, self@.skipped, str_views(known@));
        }
        r
    }
}

pub proof fn lemma_not_known_append(a: Seq<Seq<char>>, b: Seq<Seq<char>>, known: Seq<Seq<char>>)
    ensures
        not_known(a + b, known) == not_known(a, known) + not_known(b, known),
    decreases b.len(),
{
    if b.len() == 0 {
        assert(a + b =~= a);
        assert(not_known(a, known) + not_known(b, known) =~= not_known(a, known));
    } else {
        lemma_not_known_append(a, b.drop_last(), known);
        assert((a + b).drop_last() =~= a + b.drop_last());
        assert((a + b).last() == b.last());
        if !known.contains(b.last()) {
            assert(not_known(a, known) + not_known(b.drop_last(), known).push(b.last())
                =~= (not_known(a, known) + not_known(b.drop_last(), known)).push(b.last()));
        }
    }
}

/// Appends the names that `known` does not hold.
fn push_unknown(r: &mut Vec<String>, names: &Vec<String>, known: &[&str])
    ensures
        views(final(r)@) == views(old(r)@) + not_known(views(names@), str_views(known@)),
{
    let ghost start = views(r@);
    let mut i: usize = 0;
    assert(views(names@).take(0) =~= Seq::<Seq<char>>::empty());
    assert(views(r@) =~= start + not_known(Seq::<Seq<char>>::empty(), str_views(known@)));
    while i < names.len()
        invariant
            i <= names.len(),
            start == views(old(r)@),
            views(r@) == start + not_known(views(names@).take(i as int), str_views(known@)),
        decreases names.len() - i,
    {
        let ghost all = views(names@);
        assert(all.take(i + 1).drop_last() == all.take(i as int));
        assert(all.take(i + 1).last() == names@[i as int]@);
        if !holds_str(known, names[i].as_str()) {
            let c = names[i].clone();
            assert(c@ == names@[i as int]@);
            proof {
                lemma_views_push(r@, c);
            }
            r.push(c);
            assert(views(r@) =~= start + not_known(all.take(i as int), str_views(known@)).push(c@));
        }
        i = i + 1;
    }
    assert(views(names@).take(names.len() as int) == views(names@));
}

/// Skipping a rule for a whole run takes it out of the run, and leaves every
/// other rule as the selection had it.
pub proof fn law_also_skipping_subtracts(
    before: RuleSelectionView,
    after: RuleSelectionView,
    more: Seq<Seq<char>>,
    name: Seq<char>,
)
    requires
        after.selected == before.selected,
        forall|t: Seq<char>| after.skipped.contains(t) <==> (before.skipped.contains(t) || more.contains(t)),
    ensures
        selection_includes(after, name) == (selection_includes(before, name) && !more.contains(name)),
{
    assert(after.skipped.contains(name) <==> (before.skipped.contains(name) || more.contains(name)));
}

/// A rule named both to apply and to skip is not applied.
pub proof fn law_skipping_wins(s: RuleSelectionView, name: Seq<char>)
    requires
        s.selected.contains(name),
        s.skipped.contains(name),
    ensures
        !selection_includes(s, name),
{
}

} // verus!
