//! What a rule wants, shown rather than described: one line saying it, a scrap
//! of source that breaks it, and the same scrap put right.
use vstd::prelude::*;

verus! {

/// A rule explained for someone who has not met it yet.
pub struct RuleExplanation {
    pub name: String,
    pub wants: String,
    pub breaks: String,
    pub put_right: String,
}

impl View for RuleExplanation {
    type V = (Seq<char>, Seq<char>, Seq<char>, Seq<char>);

    open spec fn view(&self) -> (Seq<char>, Seq<char>, Seq<char>, Seq<char>) {
        (self.name@, self.wants@, self.breaks@, self.put_right@)
    }
}

impl RuleExplanation {
    pub fn new(name: &str, wants: &str, breaks: &str, put_right: &str) -> (r: RuleExplanation)
        ensures
            r@ == (name@, wants@, breaks@, put_right@),
    {
        RuleExplanation {
            name: String::from_str(name),
            wants: String::from_str(wants),
            breaks: String::from_str(breaks),
            put_right: String::from_str(put_right),
        }
    }
}

pub type ExplanationView = (Seq<char>, Seq<char>, Seq<char>, Seq<char>);

pub open spec fn explanation_views(v: Seq<RuleExplanation>) -> Seq<ExplanationView> {
    v.map_values(|e: RuleExplanation| e@)
}

/// The first explanation given for the rule, if any.
pub open spec fn explained(explanations: Seq<ExplanationView>, name: Seq<char>) -> Option<ExplanationView>
    decreases explanations.len(),
{
    if explanations.len() == 0 {
        None
    } else if explanations[0].0 == name {
        Some(explanations[0])
    } else {
        explained(explanations.drop_first(), name)
    }
}

/// One rule in the listing: its name, then, where it explains itself, what it
/// wants, a scrap that breaks it and the scrap put right.
pub open spec fn listing_entry(name: Seq<char>, explanation: Option<ExplanationView>) -> Seq<char> {
    name + "\n"@ + (match explanation {
        Some(e) => "  "@ + e.1 + "\n\n  breaks it:\n\n"@ + e.2 + "\n\n  put right:\n\n"@ + e.3 + "\n"@,
        None => Seq::<char>::empty(),
    }) + "\n"@
}

/// Every rule in the order named, each with its explanation where it has one.
pub open spec fn listing(names: Seq<Seq<char>>, explanations: Seq<ExplanationView>) -> Seq<char>
    decreases names.len(),
{
    if names.len() == 0 {
        Seq::<char>::empty()
    } else {
        listing(names.drop_last(), explanations) + listing_entry(names.last(), explained(explanations, names.last()))
    }
}

fn find_explanation(explanations: &Vec<RuleExplanation>, name: &str) -> (r: Option<usize>)
    ensures
        match r {
            Some(k) => k < explanations@.len() && explained(explanation_views(explanations@), name@) == Some(
                explanations@[k as int]@,
            ),
            None => explained(explanation_views(explanations@), name@).is_none(),
        },
{
    let ghost all = explanation_views(explanations@);
    let mut i: usize = 0;
    assert(all.skip(0) =~= all);
    while i < explanations.len()
        invariant
            i <= explanations.len(),
            all == explanation_views(explanations@),
            explained(all, name@) == explained(all.skip(i as int), name@),
        decreases explanations.len() - i,
    {
        assert(all.skip(i as int).drop_first() =~= all.skip(i + 1));
        if crate::text::same_text(explanations[i].name.as_str(), name) {
            return Some(i);
        }
        i = i + 1;
    }
    assert(all.skip(i as int).len() == 0);
    None
}

/// The listing of every rule, for someone meeting them for the first time.
pub fn rule_listing(names: &Vec<&str>, explanations: &Vec<RuleExplanation>) -> (r: String)
    ensures
        r@ == listing(crate::settings::rule_selection::str_views(names@), explanation_views(explanations@)),
{
    let ghost all = crate::settings::rule_selection::str_views(names@);
    let mut r = String::new();
    let mut i: usize = 0;
    while i < names.len()
        invariant
            i <= names.len(),
            all == crate::settings::rule_selection::str_views(names@),
            r@ == listing(all.take(i as int), explanation_views(explanations@)),
        decreases names.len() - i,
    {
        assert(all.take(i + 1).drop_last() =~= all.take(i as int));
        assert(all.take(i + 1).last() == names@[i as int]@);
        let mut entry = String::from_str(names[i]);
        entry.append("\n");
        let ghost head = entry@;
        match find_explanation(explanations, names[i]) {
            Some(k) => {
                let e = &explanations[k];
                entry.append("  ");
                entry.append(e.wants.as_str());
                entry.append("\n\n  breaks it:\n\n");
                entry.append(e.breaks.as_str());
                entry.append("\n\n  put right:\n\n");
                entry.append(e.put_right.as_str());
                entry.append("\n");
            },
            None => {},
        }
        entry.append("\n");
        assert(entry@ =~= listing_entry(names@[i as int]@, explained(explanation_views(explanations@), names@[i as int]@)));
        r.append(entry.as_str());
        i = i + 1;
    }
    assert(all.take(names.len() as int) =~= all);
    r
}

} // verus!
