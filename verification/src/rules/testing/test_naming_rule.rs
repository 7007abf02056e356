//! A test is named `<method>_<conditions>_<result>`.
//!
//! The rule reads the name and nothing else: a name with fewer than three
//! parts cannot carry a method, a condition and a result.
use vstd::prelude::*;
use crate::offence::{all_by, lemma_all_by_push, offence_views, plain, Offence, OffenceView};
use crate::rules::test_file_structure_rule::{structure_applies, TestFileStructureRule};
use crate::source_file::{rejoined, SourceFile, SourceFileView};
use crate::syntax::{file_outline, name_text, parse_failure, ItemKind, ItemOutline};
use crate::test_file_parser::{is_test_item, marks_test, TestFileParser};
use crate::text::{split_on, split_text};

verus! {

pub open spec fn naming_rule_name() -> Seq<char> {
    "test-naming"@
}

pub open spec fn minimum_parts() -> nat {
    3
}

pub open spec fn shape_offence(file: SourceFileView, name: Seq<char>, line: nat) -> OffenceView {
    plain(
        file.path,
        line,
        naming_rule_name(),
        "`"@ + name + "` has fewer than 3 parts, so it cannot say what it calls, under what conditions, and with what result"@,
        "rename it `<method>_<conditions>_<result>`, starting with the method "@ + name + " calls"@,
    ).about(name)
}

/// The top-level tests whose names split on `_` into fewer than three parts.
pub open spec fn naming_offences(file: SourceFileView, items: Seq<ItemOutline>) -> Seq<OffenceView>
    decreases items.len(),
{
    if items.len() == 0 {
        Seq::<OffenceView>::empty()
    } else {
        let earlier = naming_offences(file, items.drop_last());
        let item = items.last();
        if item.depth == 0 && is_test_item(item) && split_on(name_text(item), '_').len() < minimum_parts() {
            earlier.push(shape_offence(file, name_text(item), item.name_line as nat))
        } else {
            earlier
        }
    }
}

/// Only tests are judged: every offence is about a top-level function that
/// carries a test attribute, reported at its name; a helper function, however
/// short its name, is never reported.
pub proof fn law_only_tests_are_judged(file: SourceFileView, items: Seq<ItemOutline>)
    ensures
        forall|j: int|
            0 <= j < naming_offences(file, items).len() ==> exists|k: int|
                #![trigger items[k]]
                0 <= k < items.len() && items[k].depth == 0 && items[k].kind == ItemKind::Fn && marks_test(
                    items[k].attributes@,
                ) && (#[trigger] naming_offences(file, items)[j]).line == items[k].name_line
                    && naming_offences(file, items)[j].subject == Some(name_text(items[k])),
    decreases items.len(),
{
    if items.len() > 0 {
        let rest = items.drop_last();
        law_only_tests_are_judged(file, rest);
        let earlier = naming_offences(file, rest);
        let all = naming_offences(file, items);
        assert forall|j: int| 0 <= j < all.len() implies exists|k: int|
            #![trigger items[k]]
            0 <= k < items.len() && items[k].depth == 0 && items[k].kind == ItemKind::Fn && marks_test(
                items[k].attributes@,
            ) && (#[trigger] all[j]).line == items[k].name_line && all[j].subject == Some(name_text(items[k])) by {
            if j < earlier.len() {
                assert(all[j] == earlier[j]);
                let k = choose|k: int|
                    #![trigger rest[k]]
                    0 <= k < rest.len() && rest[k].depth == 0 && rest[k].kind == ItemKind::Fn && marks_test(
                        rest[k].attributes@,
                    ) && earlier[j].line == rest[k].name_line && earlier[j].subject == Some(name_text(rest[k]));
                assert(rest[k] == items[k]);
            } else {
                assert(items[items.len() - 1] == items.last());
            }
        }
    }
}

/// An outline without a single test gives no naming offence.
pub proof fn law_no_tests_no_naming_offences(file: SourceFileView, items: Seq<ItemOutline>)
    requires
        forall|k: int| 0 <= k < items.len() ==> !marks_test(#[trigger] items[k].attributes@),
    ensures
        naming_offences(file, items).len() == 0,
{
    law_only_tests_are_judged(file, items);
    if naming_offences(file, items).len() > 0 {
        let k = choose|k: int|
            #![trigger items[k]]
            0 <= k < items.len() && items[k].depth == 0 && items[k].kind == ItemKind::Fn && marks_test(
                items[k].attributes@,
            ) && naming_offences(file, items)[0].line == items[k].name_line
                && naming_offences(file, items)[0].subject == Some(name_text(items[k]));
        assert(!marks_test(items[k].attributes@));
    }
}

/// Every offence the rule finds is reported under its name.
pub proof fn lemma_naming_by_rule(file: SourceFileView, items: Seq<ItemOutline>)
    ensures
        all_by(naming_offences(file, items), naming_rule_name()),
    decreases items.len(),
{
    if items.len() > 0 {
        lemma_naming_by_rule(file, items.drop_last());
        let item = items.last();
        if item.depth == 0 && is_test_item(item) && split_on(name_text(item), '_').len() < minimum_parts() {
            lemma_all_by_push(naming_offences(file, items.drop_last()), shape_offence(file, name_text(item), item.name_line as nat), naming_rule_name());
        }
    }
}

pub struct TestNamingRule;

impl TestNamingRule {
    pub const MINIMUM_PARTS: usize = 3;

    pub fn new() -> (r: TestNamingRule) {
        TestNamingRule
    }

    pub fn name(&self) -> (r: &'static str)
        ensures
            r@ == naming_rule_name(),
    {
        "test-naming"
    }

    pub fn applies_to(file: &SourceFile) -> (b: bool)
        ensures
            b == structure_applies(file@.path),
    {
        TestFileStructureRule::applies_to(file)
    }

    pub fn shape_offence(&self, file: &SourceFile, name: &str, line: usize) -> (o: Offence)
        ensures
            o@ == shape_offence(file@, name@, line as nat),
    {
        let mut description = String::from_str("`");
        description.append(name);
        description.append("` has fewer than 3 parts, so it cannot say what it calls, under what conditions, and with what result");
        let mut correction = String::from_str("rename it `<method>_<conditions>_<result>`, starting with the method ");
        correction.append(name);
        correction.append(" calls");
        Offence::new(file.relative_path(), line, self.name(), description, correction).with_subject(name)
    }

    fn offence(&self, file: &SourceFile, item: &ItemOutline) -> (r: Option<Offence>)
        ensures
            match r {
                Some(o) => split_on(name_text(*item), '_').len() < minimum_parts()
                    && o@ == shape_offence(file@, name_text(*item), item.name_line as nat),
                None => split_on(name_text(*item), '_').len() >= minimum_parts(),
            },
    {
        let name = item.name_or_empty();
        if split_text(name.as_str(), '_').len() >= Self::MINIMUM_PARTS {
            return None;
        }
        Some(self.shape_offence(file, name.as_str(), item.name_line))
    }

    /// The offences among the items of an outline of the file.
    pub fn check_outline(&self, file: &SourceFile, items: &Vec<ItemOutline>) -> (r: Vec<Offence>)
        ensures
            offence_views(r@) == naming_offences(file@, items@),
    {
        let mut out: Vec<Offence> = Vec::new();
        let mut i: usize = 0;
        assert(items@.take(0) =~= Seq::<ItemOutline>::empty());
        assert(offence_views(out@) =~= naming_offences(file@, items@.take(0)));
        while i < items.len()
            invariant
                i <= items.len(),
                offence_views(out@) == naming_offences(file@, items@.take(i as int)),
            decreases items.len() - i,
        {
            assert(items@.take(i + 1).drop_last() == items@.take(i as int));
            assert(items@.take(i + 1).last() == items@[i as int]);
            let item = &items[i];
            if item.depth == 0 && item.kind == ItemKind::Fn && TestFileParser::is_test(&item.attributes) {
                match self.offence(file, item) {
                    Some(o) => {
                        let ghost before = offence_views(out@);
                        out.push(o);
                        assert(offence_views(out@) =~= before.push(o@));
                    },
                    None => {},
                }
            }
            i = i + 1;
        }
        assert(items@.take(items.len() as int) == items@);
        out
    }

    pub fn check(&self, file: &SourceFile) -> (r: Vec<Offence>)
        ensures
            !structure_applies(file@.path) ==> r@.len() == 0,
            parse_failure(crate::syntax::parsed_text(file@.lines)).is_some() ==> r@.len() == 0,
            structure_applies(file@.path) && parse_failure(crate::syntax::parsed_text(file@.lines)).is_none()
                ==> offence_views(r@) == naming_offences(file@, crate::syntax::syntax_outline(crate::syntax::parsed_text(file@.lines))),
    {
        if !Self::applies_to(file) {
            return Vec::new();
        }
        match file_outline(file) {
            Some(items) => self.check_outline(file, &items),
            None => Vec::new(),
        }
    }
}

} // verus!
