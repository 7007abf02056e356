//! One finding: a rule broken at a place, with what to do about it.
use vstd::prelude::*;

verus! {

/// What an offence says, as plain values.
pub struct OffenceView {
    pub file: Seq<char>,
    pub line: nat,
    pub rule: Seq<char>,
    pub description: Seq<char>,
    pub correction: Seq<char>,
    pub subject: Option<Seq<char>>,
    pub expected: Option<Seq<char>>,
}

/// A broken rule, located and explained.
///
/// `correction` is what to do about it and is always present; `subject` names
/// the thing the offence is about; `expected` is the correct text where the
/// rule knows it.
#[derive(Debug)]
pub struct Offence {
    pub file: String,
    pub line: usize,
    pub rule: String,
    pub description: String,
    pub correction: String,
    pub subject: Option<String>,
    pub expected: Option<String>,
}

pub open spec fn option_view(o: Option<String>) -> Option<Seq<char>> {
    match o {
        Some(s) => Some(s@),
        None => None,
    }
}

impl View for Offence {
    type V = OffenceView;

    open spec fn view(&self) -> OffenceView {
        OffenceView {
            file: self.file@,
            line: self.line as nat,
            rule: self.rule@,
            description: self.description@,
            correction: self.correction@,
            subject: option_view(self.subject),
            expected: option_view(self.expected),
        }
    }
}

/// The views of a list of offences.
pub open spec fn offence_views(v: Seq<Offence>) -> Seq<OffenceView> {
    v.map_values(|o: Offence| o@)
}

/// Every offence of the list is reported under `rule`.
pub open spec fn all_by(s: Seq<OffenceView>, rule: Seq<char>) -> bool {
    forall|i: int| 0 <= i < s.len() ==> (#[trigger] s[i]).rule == rule
}

pub proof fn lemma_all_by_push(s: Seq<OffenceView>, o: OffenceView, rule: Seq<char>)
    requires
        all_by(s, rule),
        o.rule == rule,
    ensures
        all_by(s.push(o), rule),
{
    assert forall|i: int| 0 <= i < s.push(o).len() implies (#[trigger] s.push(o)[i]).rule == rule by {
        if i < s.len() {
            assert(s.push(o)[i] == s[i]);
        }
    }
}

pub proof fn lemma_all_by_concat(a: Seq<OffenceView>, b: Seq<OffenceView>, rule: Seq<char>)
    requires
        all_by(a, rule),
        all_by(b, rule),
    ensures
        all_by(a + b, rule),
{
    assert forall|i: int| 0 <= i < (a + b).len() implies (#[trigger] (a + b)[i]).rule == rule by {
        if i < a.len() {
            assert((a + b)[i] == a[i]);
        } else {
            assert((a + b)[i] == b[i - a.len()]);
        }
    }
}

/// An offence with neither subject nor expected text.
pub open spec fn plain(
    file: Seq<char>,
    line: nat,
    rule: Seq<char>,
    description: Seq<char>,
    correction: Seq<char>,
) -> OffenceView {
    OffenceView { file, line, rule, description, correction, subject: None, expected: None }
}

impl OffenceView {
    pub open spec fn about(self, subject: Seq<char>) -> OffenceView {
        OffenceView { subject: Some(subject), ..self }
    }

    pub open spec fn expecting(self, expected: Seq<char>) -> OffenceView {
        OffenceView { expected: Some(expected), ..self }
    }

    pub open spec fn in_file(self, file: Seq<char>) -> OffenceView {
        OffenceView { file, ..self }
    }
}

impl Offence {
    pub fn new(file: &str, line: usize, rule: &str, description: String, correction: String) -> (o: Offence)
        ensures
            o@ == plain(file@, line as nat, rule@, description@, correction@),
    {
        Offence {
            file: String::from_str(file),
            line,
            rule: String::from_str(rule),
            description,
            correction,
            subject: None,
            expected: None,
        }
    }

    pub fn with_subject(self, subject: &str) -> (o: Offence)
        ensures
            o@ == self@.about(subject@),
    {
        Offence { subject: Some(String::from_str(subject)), ..self }
    }

    pub fn with_expected(self, expected: &str) -> (o: Offence)
        ensures
            o@ == self@.expecting(expected@),
    {
        Offence { expected: Some(String::from_str(expected)), ..self }
    }

    /// The same offence stated against another file.
    pub fn located_in(self, file: &str) -> (o: Offence)
        ensures
            o@ == self@.in_file(file@),
    {
        Offence { file: String::from_str(file), ..self }
    }

    /// A copy that says exactly what this one says.
    pub fn copied(&self) -> (o: Offence)
        ensures
            o@ == self@,
    {
        Offence {
            file: self.file.clone(),
            line: self.line,
            rule: self.rule.clone(),
            description: self.description.clone(),
            correction: self.correction.clone(),
            subject: match &self.subject {
                Some(s) => Some(s.clone()),
                None => None,
            },
            expected: match &self.expected {
                Some(s) => Some(s.clone()),
                None => None,
            },
        }
    }
}

} // verus!
