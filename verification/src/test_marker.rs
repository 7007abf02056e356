//! The comments that label the phases of a test: `// Arrange`, `// Act`,
//! `// Assert`, and merged forms such as `// Arrange & Act`.
use vstd::prelude::*;
use crate::text::{
    chars_of, has_prefix, same_text, split_on, split_text, starts_with, string_of, trim, trimmed,
};

verus! {

#[derive(Clone, Copy, Debug, PartialEq, Eq, Structural)]
pub enum MarkerPhase {
    Arrange,
    Act,
    Assert,
}

pub open spec fn phase_named(word: Seq<char>) -> Option<MarkerPhase> {
    if word == "Arrange"@ {
        Some(MarkerPhase::Arrange)
    } else if word == "Act"@ {
        Some(MarkerPhase::Act)
    } else if word == "Assert"@ {
        Some(MarkerPhase::Assert)
    } else {
        None
    }
}

/// The phases a list of `&`-separated words names, every word trimmed; none
/// where any word names no phase.
pub open spec fn phases_named(words: Seq<Seq<char>>) -> Option<Seq<MarkerPhase>>
    decreases words.len(),
{
    if words.len() == 0 {
        Some(Seq::<MarkerPhase>::empty())
    } else {
        match (phases_named(words.drop_last()), phase_named(trim(words.last()))) {
            (Some(earlier), Some(phase)) => Some(earlier.push(phase)),
            _ => None,
        }
    }
}

pub proof fn lemma_phases_prefix_none(words: Seq<Seq<char>>, k: int)
    requires
        0 <= k <= words.len(),
        phases_named(words.take(k)).is_none(),
    ensures
        phases_named(words).is_none(),
    decreases words.len() - k,
{
    if k == words.len() {
        assert(words.take(k) == words);
    } else {
        assert(words.drop_last().take(k) == words.take(k));
        lemma_phases_prefix_none(words.drop_last(), k);
    }
}

pub struct TestMarkerView {
    pub line: nat,
    pub label: Seq<char>,
    pub phases: Seq<MarkerPhase>,
}

/// The marker a line states: a `//` comment whose text is one or more phase
/// names joined by `&`. Its label is the comment as written, trimmed.
pub open spec fn marker_of(text: Seq<char>, line: nat) -> Option<TestMarkerView> {
    let t = trim(text);
    if !starts_with(t, "//"@) {
        None
    } else {
        match phases_named(split_on(trim(t.skip(2)), '&')) {
            Some(phases) => Some(TestMarkerView { line, label: t, phases }),
            None => None,
        }
    }
}

pub struct TestMarker {
    pub line: usize,
    pub label: String,
    pub phases: Vec<MarkerPhase>,
}

impl View for TestMarker {
    type V = TestMarkerView;

    open spec fn view(&self) -> TestMarkerView {
        TestMarkerView { line: self.line as nat, label: self.label@, phases: self.phases@ }
    }
}

impl TestMarker {
    fn phase(word: &str) -> (r: Option<MarkerPhase>)
        ensures
            r == phase_named(word@),
    {
        if same_text(word, "Arrange") {
            Some(MarkerPhase::Arrange)
        } else if same_text(word, "Act") {
            Some(MarkerPhase::Act)
        } else if same_text(word, "Assert") {
            Some(MarkerPhase::Assert)
        } else {
            None
        }
    }

    pub fn parse(text: &str, line: usize) -> (r: Option<TestMarker>)
        ensures
            match r {
                Some(m) => marker_of(text@, line as nat) == Some(m@),
                None => marker_of(text@, line as nat).is_none(),
            },
    {
        let t = trimmed(text);
        if !has_prefix(t.as_str(), "//") {
            return None;
        }
        proof {
            reveal_strlit("//");
        }
        let v = chars_of(t.as_str());
        let rest = string_of(&v.as_slice()[2..v.len()]);
        assert(rest@ =~= t@.skip(2));
        let body = trimmed(rest.as_str());
        let words = split_text(body.as_str(), '&');
        let mut phases: Vec<MarkerPhase> = Vec::new();
        let ghost all = crate::text::views(words@);
        let mut i: usize = 0;
        assert(all.take(0) =~= Seq::<Seq<char>>::empty());
        assert(all == split_on(trim(trim(text@).skip(2)), '&'));
        while i < words.len()
            invariant
                all == split_on(trim(trim(text@).skip(2)), '&'),
                starts_with(trim(text@), "//"@),
                i <= words.len(),
                all == crate::text::views(words@),
                phases_named(all.take(i as int)) == Some(phases@),
            decreases words.len() - i,
        {
            assert(all.take(i + 1).drop_last() == all.take(i as int));
            assert(all.take(i + 1).last() == words@[i as int]@);
            let word = trimmed(words[i].as_str());
            match Self::phase(word.as_str()) {
                Some(phase) => phases.push(phase),
                None => {
                    proof {
                        assert(phase_named(trim(all.take(i + 1).last())).is_none());
                        assert(phases_named(all.take(i + 1)).is_none());
                        lemma_phases_prefix_none(all, i + 1);
                        assert(all == split_on(trim(trim(text@).skip(2)), '&'));
                    }
                    return None;
                },
            }
            i = i + 1;
        }
        assert(all.take(words.len() as int) == all);
        Some(TestMarker { line, label: t, phases })
    }
}

} // verus!
