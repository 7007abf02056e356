//! Offences recorded as already there, so that only new ones fail a run.
//!
//! An offence is keyed on its file, its rule and its description -- not its
//! line, so one that moves because an import was added above it is still the
//! same offence. Counts are recorded rather than a set: fixing one of two
//! identical offences and adding another still passes, while adding a third
//! does not. Nothing is hidden quietly: the suppressed count is always
//! reported, and an entry that no longer matches anything is called out.
use vstd::prelude::*;
use crate::offence::{offence_views, Offence, OffenceView};

verus! {

pub open spec fn key_of(o: OffenceView) -> (Seq<char>, Seq<char>, Seq<char>) {
    (o.file, o.rule, o.description)
}

/// One recorded offence key, with how many times it was found.
pub struct BaselineEntry {
    pub file: String,
    pub rule: String,
    pub description: String,
    pub count: usize,
}

pub open spec fn entry_key(e: BaselineEntry) -> (Seq<char>, Seq<char>, Seq<char>) {
    (e.file@, e.rule@, e.description@)
}

/// How many offences of the key the entries allow.
pub open spec fn allowance(entries: Seq<BaselineEntry>, key: (Seq<char>, Seq<char>, Seq<char>)) -> nat
    decreases entries.len(),
{
    if entries.len() == 0 {
        0
    } else {
        allowance(entries.drop_last(), key) + if entry_key(entries.last()) == key { entries.last().count as nat } else { 0nat }
    }
}

/// How many of the offences have the key.
pub open spec fn occurrences(s: Seq<OffenceView>, key: (Seq<char>, Seq<char>, Seq<char>)) -> nat
    decreases s.len(),
{
    if s.len() == 0 {
        0
    } else {
        occurrences(s.drop_last(), key) + if key_of(s.last()) == key { 1nat } else { 0nat }
    }
}

/// An offence is kept when as many of its key came before it as the
/// baseline allows: the first ones of each key are the suppressed ones.
pub open spec fn is_kept(entries: Seq<BaselineEntry>, s: Seq<OffenceView>, i: int) -> bool {
    occurrences(s.take(i), key_of(s[i])) >= allowance(entries, key_of(s[i]))
}

/// The offences the baseline does not suppress, in order.
pub open spec fn kept_upto(entries: Seq<BaselineEntry>, s: Seq<OffenceView>, n: int) -> Seq<OffenceView>
    decreases n,
{
    if n <= 0 {
        Seq::<OffenceView>::empty()
    } else if is_kept(entries, s, n - 1) {
        kept_upto(entries, s, n - 1).push(s[n - 1])
    } else {
        kept_upto(entries, s, n - 1)
    }
}

/// How many entries match no offence at all.
pub open spec fn stale_count(entries: Seq<BaselineEntry>, s: Seq<OffenceView>) -> nat
    decreases entries.len(),
{
    if entries.len() == 0 {
        0
    } else {
        stale_count(entries.drop_last(), s) + if occurrences(s, entry_key(entries.last())) == 0 { 1nat } else { 0nat }
    }
}

/// The keys of the offences, each once in the order first found, with how
/// many offences have it.
pub open spec fn recorded(s: Seq<OffenceView>) -> Seq<((Seq<char>, Seq<char>, Seq<char>), nat)>
    decreases s.len(),
{
    if s.len() == 0 {
        Seq::<((Seq<char>, Seq<char>, Seq<char>), nat)>::empty()
    } else {
        let earlier = recorded(s.drop_last());
        let key = key_of(s.last());
        if exists|k: int| 0 <= k < earlier.len() && #[trigger] earlier[k].0 == key {
            let k = choose|k: int| 0 <= k < earlier.len() && #[trigger] earlier[k].0 == key;
            earlier.update(k, (key, earlier[k].1 + 1))
        } else {
            earlier.push((key, 1))
        }
    }
}

pub open spec fn entry_views(entries: Seq<BaselineEntry>) -> Seq<((Seq<char>, Seq<char>, Seq<char>), nat)> {
    entries.map_values(|e: BaselineEntry| (entry_key(e), e.count as nat))
}

/// What applying a baseline left of a run's offences.
pub struct BaselineOutcome {
    pub kept: Vec<Offence>,
    pub suppressed: usize,
    pub stale: usize,
}

pub struct Baseline {
    entries: Vec<BaselineEntry>,
}

impl Baseline {
    pub closed spec fn entries(&self) -> Seq<BaselineEntry> {
        self.entries@
    }

    /// A baseline of the entries as recorded.
    pub fn new(entries: Vec<BaselineEntry>) -> (r: Baseline)
        ensures
            r.entries() == entries@,
    {
        Baseline { entries }
    }

    /// The entries, to be written down.
    pub fn entries_of(&self) -> (r: &Vec<BaselineEntry>)
        ensures
            r@ == self.entries(),
    {
        &self.entries
    }

    pub fn len(&self) -> (n: usize)
        ensures
            n == self.entries().len(),
    {
        self.entries.len()
    }

    fn same_key(o: &Offence, file: &str, rule: &str, description: &str) -> (b: bool)
        ensures
            b == (key_of(o@) == (file@, rule@, description@)),
    {
        crate::text::same_text(o.file.as_str(), file) && crate::text::same_text(o.rule.as_str(), rule)
            && crate::text::same_text(o.description.as_str(), description)
    }

    /// The offences recorded: each key once, in the order first found, with
    /// how many offences have it.
    pub fn of(offences: &Vec<Offence>) -> (r: Baseline)
        ensures
            entry_views(r.entries()) == recorded(offence_views(offences@)),
    {
        let ghost all = offence_views(offences@);
        let mut entries: Vec<BaselineEntry> = Vec::new();
        let mut i: usize = 0;
        assert(all.take(0) =~= Seq::<OffenceView>::empty());
        assert(entry_views(entries@) =~= recorded(all.take(0)));
        while i < offences.len()
            invariant
                i <= offences.len(),
                all == offence_views(offences@),
                entry_views(entries@) == recorded(all.take(i as int)),
                forall|k: int| 0 <= k < entries@.len() ==> (#[trigger] entries@[k]).count <= i,
            decreases offences.len() - i,
        {
            assert(all.take(i + 1).drop_last() =~= all.take(i as int));
            assert(all.take(i + 1).last() == offences@[i as int]@);
            let o = &offences[i];
            let ghost earlier = recorded(all.take(i as int));
            let ghost key = key_of(o@);
            let mut k: usize = 0;
            while k < entries.len()
                invariant
                    k <= entries.len(),
                    entry_views(entries@) == earlier,
                    key == key_of(o@),
                    forall|j: int| 0 <= j < k ==> #[trigger] earlier[j].0 != key,
                ensures
                    k <= entries.len(),
                    forall|j: int| 0 <= j < k ==> #[trigger] earlier[j].0 != key,
                    k < entries.len() ==> earlier[k as int].0 == key,
                decreases entries.len() - k,
            {
                assert(earlier[k as int].0 == entry_key(entries@[k as int]));
                if Self::same_key(o, entries[k].file.as_str(), entries[k].rule.as_str(), entries[k].description.as_str()) {
                    break;
                }
                assert(earlier[k as int].0 == entry_key(entries@[k as int]));
                k = k + 1;
            }
            if k < entries.len() {
                assert(earlier[k as int].0 == entry_key(entries@[k as int]));
                assert(earlier[k as int].0 == key);
                let ghost chosen = choose|j: int| 0 <= j < earlier.len() && #[trigger] earlier[j].0 == key;
                assert(chosen == k as int) by {
                    if chosen < k {
                        assert(earlier[chosen].0 != key);
                    } else if chosen > k {
                        Self::lemma_recorded_keys_distinct(all.take(i as int), k as int, chosen);
                    }
                }
                let entry = BaselineEntry {
                    file: entries[k].file.clone(),
                    rule: entries[k].rule.clone(),
                    description: entries[k].description.clone(),
                    count: entries[k].count + 1,
                };
                let ghost before = entries@;
                entries.set(k, entry);
                assert(entry_views(entries@) =~= earlier.update(k as int, (key, earlier[k as int].1 + 1)));
            } else {
                let entry = BaselineEntry {
                    file: o.file.clone(),
                    rule: o.rule.clone(),
                    description: o.description.clone(),
                    count: 1,
                };
                let ghost before = entries@;
                entries.push(entry);
                assert(entry_views(entries@) =~= earlier.push((key, 1)));
            }
            i = i + 1;
        }
        assert(all.take(offences.len() as int) =~= all);
        Baseline { entries }
    }

    /// The keys `recorded` lists are distinct.
    pub proof fn lemma_recorded_keys_distinct(s: Seq<OffenceView>, a: int, b: int)
        requires
            0 <= a < b < recorded(s).len(),
        ensures
            recorded(s)[a].0 != recorded(s)[b].0,
        decreases s.len(),
    {
        if s.len() > 0 {
            let earlier = recorded(s.drop_last());
            let key = key_of(s.last());
            if exists|k: int| 0 <= k < earlier.len() && #[trigger] earlier[k].0 == key {
                let k = choose|k: int| 0 <= k < earlier.len() && #[trigger] earlier[k].0 == key;
                Self::lemma_recorded_keys_distinct(s.drop_last(), a, b);
            } else {
                if b < earlier.len() {
                    Self::lemma_recorded_keys_distinct(s.drop_last(), a, b);
                } else {
                    assert(recorded(s)[a] == earlier[a]);
                }
            }
        }
    }

    /// How many offences of the key the baseline allows; past the largest
    /// count an offence list can hold, that largest count.
    fn allowance_of(&self, o: &Offence) -> (n: usize)
        ensures
            n == (if allowance(self.entries(), key_of(o@)) > usize::MAX { usize::MAX as nat } else {
                allowance(self.entries(), key_of(o@))
            }),
    {
        let ghost all = self.entries@;
        let mut n: usize = 0;
        let mut k: usize = 0;
        let mut capped = false;
        assert(all.take(0) =~= Seq::<BaselineEntry>::empty());
        while k < self.entries.len()
            invariant
                k <= self.entries.len(),
                all == self.entries@,
                !capped ==> n == allowance(all.take(k as int), key_of(o@)),
                capped ==> n == usize::MAX && allowance(all.take(k as int), key_of(o@)) > usize::MAX,
            decreases self.entries.len() - k,
        {
            assert(all.take(k + 1).drop_last() =~= all.take(k as int));
            assert(all.take(k + 1).last() == all[k as int]);
            let e = &self.entries[k];
            if Self::same_key(o, e.file.as_str(), e.rule.as_str(), e.description.as_str()) {
                if capped || e.count > usize::MAX - n {
                    n = usize::MAX;
                    capped = true;
                } else {
                    n = n + e.count;
                }
            }
            k = k + 1;
        }
        assert(all.take(self.entries.len() as int) =~= all);
        n
    }

    /// How many of the offences before `i` share the key of the one at `i`.
    fn earlier_occurrences(offences: &Vec<Offence>, i: usize) -> (n: usize)
        requires
            i < offences.len(),
        ensures
            n == occurrences(offence_views(offences@).take(i as int), key_of(offences@[i as int]@)),
            n <= i,
    {
        let ghost all = offence_views(offences@);
        let o = &offences[i];
        let mut n: usize = 0;
        let mut j: usize = 0;
        assert(all.take(0) =~= Seq::<OffenceView>::empty());
        while j < i
            invariant
                j <= i < offences.len(),
                all == offence_views(offences@),
                o@ == offences@[i as int]@,
                n == occurrences(all.take(j as int), key_of(offences@[i as int]@)),
                n <= j,
            decreases i - j,
        {
            assert(all.take(j + 1).drop_last() =~= all.take(j as int));
            assert(all.take(j + 1).last() == offences@[j as int]@);
            assert(key_of(o@) == (o.file@, o.rule@, o.description@));
            if Self::same_key(&offences[j], o.file.as_str(), o.rule.as_str(), o.description.as_str()) {
                n = n + 1;
            }
            j = j + 1;
        }
        n
    }

    fn occurs_in(offences: &Vec<Offence>, e: &BaselineEntry) -> (b: bool)
        ensures
            b == (occurrences(offence_views(offences@), entry_key(*e)) > 0),
    {
        let ghost all = offence_views(offences@);
        let mut j: usize = 0;
        assert(all.take(0) =~= Seq::<OffenceView>::empty());
        while j < offences.len()
            invariant
                j <= offences.len(),
                all == offence_views(offences@),
                occurrences(all.take(j as int), entry_key(*e)) == 0,
            decreases offences.len() - j,
        {
            assert(all.take(j + 1).drop_last() =~= all.take(j as int));
            assert(all.take(j + 1).last() == offences@[j as int]@);
            if Self::same_key(&offences[j], e.file.as_str(), e.rule.as_str(), e.description.as_str()) {
                proof {
                    Self::lemma_occurrences_grow(all, j as int + 1, entry_key(*e));
                }
                return true;
            }
            j = j + 1;
        }
        assert(all.take(offences.len() as int) =~= all);
        false
    }

    proof fn lemma_occurrences_grow(s: Seq<OffenceView>, n: int, key: (Seq<char>, Seq<char>, Seq<char>))
        requires
            0 <= n <= s.len(),
            occurrences(s.take(n), key) > 0,
        ensures
            occurrences(s, key) > 0,
        decreases s.len() - n,
    {
        if n < s.len() {
            assert(s.take(n + 1).drop_last() =~= s.take(n));
            Self::lemma_occurrences_grow(s, n + 1, key);
        } else {
            assert(s.take(n) =~= s);
        }
    }

    /// What the baseline leaves of the offences: the ones it does not
    /// suppress, how many it does, and how many entries match nothing.
    pub fn apply(&self, offences: Vec<Offence>) -> (r: BaselineOutcome)
        ensures
            offence_views(r.kept@) == kept_upto(self.entries(), offence_views(offences@), offences@.len() as int),
            r.suppressed + r.kept@.len() == offences@.len(),
            r.stale == stale_count(self.entries(), offence_views(offences@)),
    {
        let ghost all = offence_views(offences@);
        let mut kept: Vec<Offence> = Vec::new();
        let mut suppressed: usize = 0;
        let mut i: usize = 0;
        while i < offences.len()
            invariant
                i <= offences.len(),
                all == offence_views(offences@),
                offence_views(kept@) == kept_upto(self.entries(), all, i as int),
                suppressed + kept@.len() == i,
            decreases offences.len() - i,
        {
            let before = Self::earlier_occurrences(&offences, i);
            let allowed = self.allowance_of(&offences[i]);
            assert(all.take(i as int) == offence_views(offences@).take(i as int));
            if before >= allowed {
                let o = offences[i].copied();
                let ghost prior = kept@;
                kept.push(o);
                assert(offence_views(kept@) =~= offence_views(prior).push(all[i as int]));
            } else {
                suppressed = suppressed + 1;
            }
            i = i + 1;
        }
        let ghost entries = self.entries@;
        let mut stale: usize = 0;
        let mut k: usize = 0;
        assert(entries.take(0) =~= Seq::<BaselineEntry>::empty());
        while k < self.entries.len()
            invariant
                k <= self.entries.len(),
                entries == self.entries@,
                all == offence_views(offences@),
                stale == stale_count(entries.take(k as int), all),
                stale <= k,
            decreases self.entries.len() - k,
        {
            assert(entries.take(k + 1).drop_last() =~= entries.take(k as int));
            assert(entries.take(k + 1).last() == entries[k as int]);
            if !Self::occurs_in(&offences, &self.entries[k]) {
                stale = stale + 1;
            }
            k = k + 1;
        }
        assert(entries.take(self.entries.len() as int) =~= entries);
        BaselineOutcome { kept, suppressed, stale }
    }
}

/// How many offences of the key recorded counts allow.
pub open spec fn recorded_allowance(r: Seq<((Seq<char>, Seq<char>, Seq<char>), nat)>, key: (Seq<char>, Seq<char>, Seq<char>)) -> nat
    decreases r.len(),
{
    if r.len() == 0 {
        0
    } else {
        recorded_allowance(r.drop_last(), key) + if r.last().0 == key { r.last().1 } else { 0nat }
    }
}

pub proof fn lemma_allowance_of_views(entries: Seq<BaselineEntry>, key: (Seq<char>, Seq<char>, Seq<char>))
    ensures
        allowance(entries, key) == recorded_allowance(entry_views(entries), key),
    decreases entries.len(),
{
    if entries.len() > 0 {
        lemma_allowance_of_views(entries.drop_last(), key);
        assert(entry_views(entries).drop_last() =~= entry_views(entries.drop_last()));
    }
}

pub proof fn lemma_allowance_update(
    r: Seq<((Seq<char>, Seq<char>, Seq<char>), nat)>,
    k: int,
    key: (Seq<char>, Seq<char>, Seq<char>),
    q: (Seq<char>, Seq<char>, Seq<char>),
)
    requires
        0 <= k < r.len(),
        r[k].0 == key,
    ensures
        recorded_allowance(r.update(k, (key, r[k].1 + 1)), q) == recorded_allowance(r, q) + if key == q { 1nat } else { 0nat },
    decreases r.len(),
{
    let u = r.update(k, (key, r[k].1 + 1));
    if k == r.len() - 1 {
        assert(u.drop_last() =~= r.drop_last());
    } else {
        lemma_allowance_update(r.drop_last(), k, key, q);
        assert(u.drop_last() =~= r.drop_last().update(k, (key, r[k].1 + 1)));
    }
}

/// Recorded counts allow exactly as many offences of each key as were found,
/// and every recorded key was found at least once.
pub proof fn lemma_recorded_counts(s: Seq<OffenceView>, key: (Seq<char>, Seq<char>, Seq<char>))
    ensures
        recorded_allowance(recorded(s), key) == occurrences(s, key),
        forall|k: int| 0 <= k < recorded(s).len() ==> (#[trigger] recorded(s)[k]).1 >= 1
            && occurrences(s, recorded(s)[k].0) >= 1,
    decreases s.len(),
{
    if s.len() > 0 {
        lemma_recorded_counts(s.drop_last(), key);
        let earlier = recorded(s.drop_last());
        let last_key = key_of(s.last());
        assert forall|q: (Seq<char>, Seq<char>, Seq<char>)| occurrences(s, q) >= occurrences(s.drop_last(), q) by {}
        if exists|k: int| 0 <= k < earlier.len() && #[trigger] earlier[k].0 == last_key {
            let k = choose|k: int| 0 <= k < earlier.len() && #[trigger] earlier[k].0 == last_key;
            lemma_allowance_update(earlier, k, last_key, key);
            assert forall|j: int| 0 <= j < recorded(s).len() implies (#[trigger] recorded(s)[j]).1 >= 1
                && occurrences(s, recorded(s)[j].0) >= 1 by {
                lemma_recorded_counts(s.drop_last(), recorded(s)[j].0);
                if j != k {
                    assert(recorded(s)[j] == earlier[j]);
                }
            }
        } else {
            assert(recorded(s).drop_last() =~= earlier);
            assert forall|j: int| 0 <= j < recorded(s).len() implies (#[trigger] recorded(s)[j]).1 >= 1
                && occurrences(s, recorded(s)[j].0) >= 1 by {
                if j < earlier.len() {
                    lemma_recorded_counts(s.drop_last(), recorded(s)[j].0);
                    assert(recorded(s)[j] == earlier[j]);
                }
            }
        }
    }
}

pub proof fn lemma_occurrences_prefix(s: Seq<OffenceView>, i: int)
    requires
        0 <= i < s.len(),
    ensures
        occurrences(s.take(i), key_of(s[i])) < occurrences(s, key_of(s[i])),
{
    assert(s.take(i + 1).drop_last() =~= s.take(i));
    assert(s.take(i + 1).last() == s[i]);
    lemma_occurrences_monotonic(s, i + 1, key_of(s[i]));
}

pub proof fn lemma_occurrences_monotonic(s: Seq<OffenceView>, n: int, key: (Seq<char>, Seq<char>, Seq<char>))
    requires
        0 <= n <= s.len(),
    ensures
        occurrences(s.take(n), key) <= occurrences(s, key),
    decreases s.len() - n,
{
    if n < s.len() {
        assert(s.take(n + 1).drop_last() =~= s.take(n));
        lemma_occurrences_monotonic(s, n + 1, key);
    } else {
        assert(s.take(n) =~= s);
    }
}

/// Recording is not judging, and judging against a fresh record finds
/// nothing new: a baseline recorded from a run's offences suppresses every
/// one of them, and none of its entries is stale.
pub proof fn law_a_fresh_baseline_suppresses_everything(entries: Seq<BaselineEntry>, s: Seq<OffenceView>)
    requires
        entry_views(entries) == recorded(s),
    ensures
        kept_upto(entries, s, s.len() as int).len() == 0,
        stale_count(entries, s) == 0,
{
    assert forall|i: int| 0 <= i < s.len() implies !is_kept(entries, s, i) by {
        lemma_occurrences_prefix(s, i);
        lemma_allowance_of_views(entries, key_of(s[i]));
        lemma_recorded_counts(s, key_of(s[i]));
    }
    lemma_nothing_kept(entries, s, s.len() as int);
    lemma_none_stale(entries, s, entries.len() as int);
    assert(entries.take(entries.len() as int) =~= entries);
}

/// A baseline records counts, not a set: of the offences with one key, as
/// many as the baseline allows are suppressed and every one beyond that is
/// reported. So fixing one of two recorded offences and adding another still
/// passes, while adding a third does not.
pub proof fn law_a_baseline_allows_each_key_its_count(
    entries: Seq<BaselineEntry>,
    s: Seq<OffenceView>,
    key: (Seq<char>, Seq<char>, Seq<char>),
)
    ensures
        occurrences(kept_upto(entries, s, s.len() as int), key) == (if occurrences(s, key) > allowance(entries, key) {
            occurrences(s, key) - allowance(entries, key)
        } else {
            0
        }),
{
    lemma_kept_count(entries, s, key, s.len() as int);
    assert(s.take(s.len() as int) =~= s);
}

/// Where an offence stands plays no part: two runs whose offences have the
/// same keys in the same order keep the same offences, whatever lines they
/// moved to.
pub proof fn law_a_moved_offence_is_the_same_offence(entries: Seq<BaselineEntry>, s: Seq<OffenceView>, t: Seq<OffenceView>, i: int)
    requires
        s.len() == t.len(),
        forall|k: int| 0 <= k < s.len() ==> key_of(#[trigger] s[k]) == key_of(t[k]),
        0 <= i < s.len(),
    ensures
        is_kept(entries, s, i) == is_kept(entries, t, i),
{
    lemma_same_keys_same_occurrences(s.take(i), t.take(i), key_of(s[i]));
}

proof fn lemma_same_keys_same_occurrences(s: Seq<OffenceView>, t: Seq<OffenceView>, key: (Seq<char>, Seq<char>, Seq<char>))
    requires
        s.len() == t.len(),
        forall|k: int| 0 <= k < s.len() ==> key_of(#[trigger] s[k]) == key_of(t[k]),
    ensures
        occurrences(s, key) == occurrences(t, key),
    decreases s.len(),
{
    if s.len() > 0 {
        assert(key_of(s[s.len() - 1]) == key_of(t[t.len() - 1]));
        lemma_same_keys_same_occurrences(s.drop_last(), t.drop_last(), key);
    }
}

proof fn lemma_kept_count(entries: Seq<BaselineEntry>, s: Seq<OffenceView>, key: (Seq<char>, Seq<char>, Seq<char>), n: int)
    requires
        0 <= n <= s.len(),
    ensures
        occurrences(kept_upto(entries, s, n), key) == (if occurrences(s.take(n), key) > allowance(entries, key) {
            occurrences(s.take(n), key) - allowance(entries, key)
        } else {
            0
        }),
    decreases n,
{
    if n == 0 {
        assert(s.take(0) =~= Seq::<OffenceView>::empty());
    } else {
        lemma_kept_count(entries, s, key, n - 1);
        assert(s.take(n).drop_last() =~= s.take(n - 1));
        assert(s.take(n).last() == s[n - 1]);
        let before = kept_upto(entries, s, n - 1);
        if is_kept(entries, s, n - 1) {
            assert(before.push(s[n - 1]).drop_last() =~= before);
        }
    }
}

proof fn lemma_nothing_kept(entries: Seq<BaselineEntry>, s: Seq<OffenceView>, n: int)
    requires
        n <= s.len(),
        forall|i: int| 0 <= i < s.len() ==> !is_kept(entries, s, i),
    ensures
        kept_upto(entries, s, n).len() == 0,
    decreases n,
{
    if n > 0 {
        lemma_nothing_kept(entries, s, n - 1);
    }
}

proof fn lemma_none_stale(entries: Seq<BaselineEntry>, s: Seq<OffenceView>, n: int)
    requires
        0 <= n <= entries.len(),
        entry_views(entries) == recorded(s),
    ensures
        stale_count(entries.take(n), s) == 0,
    decreases n,
{
    if n > 0 {
        lemma_none_stale(entries, s, n - 1);
        assert(entries.take(n).drop_last() =~= entries.take(n - 1));
        assert(entries.take(n).last() == entries[n - 1]);
        lemma_recorded_counts(s, entry_key(entries[n - 1]));
        assert(recorded(s)[n - 1] == entry_views(entries)[n - 1]);
    } else {
        assert(entries.take(0) =~= Seq::<BaselineEntry>::empty());
    }
}

} // verus!
