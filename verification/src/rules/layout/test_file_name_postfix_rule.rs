//! A file that holds tests is named for it: `<X>_tests.rs`.
//!
//! The name is what pairs a test file with the source file it exercises.
//! `src/` is exempt because a test there is `test-free-source`'s offence, and
//! registries because `tests-layout` answers for them.
use vstd::prelude::*;
use crate::rule_explanation::RuleExplanation;
use crate::offence::{all_by, offence_views, plain, Offence, OffenceView};
use crate::rules::test_file_structure_rule::{structure_applies, TestFileStructureRule};
use crate::source_file::{rejoined, SourceFile, SourceFileView};
use crate::syntax::{file_outline, parse_failure, ItemKind, ItemOutline};
use crate::test_file_parser::{is_test_item, TestFileParser};
use crate::text::{chars_of, decimal, decimal_text, ends_with, has_suffix, string_of};

verus! {

pub open spec fn postfix_rule_name() -> Seq<char> {
    "test-file-name-postfix"@
}

pub open spec fn postfix() -> Seq<char> {
    "_tests.rs"@
}

/// How many tests the outline holds, inline modules included.
pub open spec fn tests_in(items: Seq<ItemOutline>) -> nat
    decreases items.len(),
{
    if items.len() == 0 {
        0
    } else {
        tests_in(items.drop_last()) + if is_test_item(items.last()) { 1nat } else { 0nat }
    }
}

pub open spec fn suggested_name(path: Seq<char>) -> Seq<char> {
    (if ends_with(path, ".rs"@) { path.take(path.len() - 3) } else { path }) + postfix()
}

pub open spec fn postfix_offence(file: SourceFileView, found: nat) -> OffenceView {
    plain(
        file.path,
        1,
        postfix_rule_name(),
        file.path + " holds "@ + decimal(found) + " test(s) but its name does not end in `"@ + postfix()
            + "`, so nothing pairs it with the source file it exercises"@,
        "rename it `"@ + suggested_name(file.path) + "`"@,
    ).about(file.path).expecting(suggested_name(file.path))
}

pub open spec fn postfix_applies(path: Seq<char>) -> bool {
    structure_applies(path) && !ends_with(path, postfix())
}

pub open spec fn postfix_offences(file: SourceFileView, items: Seq<ItemOutline>) -> Seq<OffenceView> {
    if tests_in(items) == 0 { Seq::<OffenceView>::empty() } else { seq![postfix_offence(file, tests_in(items))] }
}

/// A file already named `<X>_tests.rs` is never judged by this rule; a test
/// file under the structure rule that is not so named always is.
pub proof fn law_a_file_named_for_its_tests_is_never_reported(path: Seq<char>)
    ensures
        ends_with(path, "_tests.rs"@) ==> !postfix_applies(path),
        structure_applies(path) && !ends_with(path, "_tests.rs"@) ==> postfix_applies(path),
{
}

/// Every offence the rule finds is reported under its name.
pub proof fn lemma_postfix_by_rule(file: SourceFileView, items: Seq<ItemOutline>)
    ensures
        all_by(postfix_offences(file, items), postfix_rule_name()),
{
}

/// What the rule wants, a scrap of source that breaks it and the same scrap
/// put right.
pub open spec fn postfix_explanation() -> (Seq<char>, Seq<char>, Seq<char>, Seq<char>) {
    (
        postfix_rule_name(),
        "A file that holds tests is named for it: <X>_tests.rs."@,
        "tests/widget_spec.rs"@,
        "tests/widget_tests.rs"@,
    )
}

pub struct TestFileNamePostfixRule;

impl TestFileNamePostfixRule {
    pub const POSTFIX: &'static str = "_tests.rs";

    pub fn new() -> (r: TestFileNamePostfixRule) {
        TestFileNamePostfixRule
    }

    pub fn name(&self) -> (r: &'static str)
        ensures
            r@ == postfix_rule_name(),
    {
        "test-file-name-postfix"
    }

    /// What the rule wants, a scrap of source that breaks it and the same
    /// scrap put right.
    pub fn explanation(&self) -> (r: RuleExplanation)
        ensures
            r@ == postfix_explanation(),
    {
        RuleExplanation::new(
            self.name(),
            "A file that holds tests is named for it: <X>_tests.rs.",
            "tests/widget_spec.rs",
            "tests/widget_tests.rs",
        )
    }

    pub fn applies_to(file: &SourceFile) -> (b: bool)
        ensures
            b == structure_applies(file@.path),
    {
        TestFileStructureRule::applies_to(file)
    }

    pub fn tests_in(items: &Vec<ItemOutline>) -> (n: usize)
        ensures
            n == tests_in(items@),
    {
        let mut n: usize = 0;
        let mut i: usize = 0;
        assert(items@.take(0) =~= Seq::<ItemOutline>::empty());
        while i < items.len()
            invariant
                i <= items.len(),
                n == tests_in(items@.take(i as int)),
                n <= i,
            decreases items.len() - i,
        {
            assert(items@.take(i + 1).drop_last() == items@.take(i as int));
            assert(items@.take(i + 1).last() == items@[i as int]);
            if items[i].kind == ItemKind::Fn && TestFileParser::is_test(&items[i].attributes) {
                n = n + 1;
            }
            i = i + 1;
        }
        assert(items@.take(items.len() as int) == items@);
        n
    }

    pub fn suggested_name(relative_path: &str) -> (r: String)
        ensures
            r@ == suggested_name(relative_path@),
    {
        let mut stem = if has_suffix(relative_path, ".rs") {
            let v = chars_of(relative_path);
            proof {
                reveal_strlit(".rs");
            }
            string_of(&v.as_slice()[0..v.len() - 3])
        } else {
            String::from_str(relative_path)
        };
        proof {
            reveal_strlit(".rs");
            if ends_with(relative_path@, ".rs"@) {
                assert(stem@ =~= relative_path@.take(relative_path@.len() - 3));
            }
        }
        stem.append(Self::POSTFIX);
        stem
    }

    /// Reported at line 1: the offence is the file's name, not any one test
    /// in it.
    fn offence(&self, file: &SourceFile, found: usize) -> (o: Offence)
        ensures
            o@ == postfix_offence(file@, found as nat),
    {
        let path = file.relative_path();
        let suggested = Self::suggested_name(path);
        let mut description = String::from_str(path);
        description.append(" holds ");
        description.append(decimal_text(found).as_str());
        description.append(" test(s) but its name does not end in `");
        description.append(Self::POSTFIX);
        description.append("`, so nothing pairs it with the source file it exercises");
        let mut correction = String::from_str("rename it `");
        correction.append(suggested.as_str());
        correction.append("`");
        Offence::new(path, 1, self.name(), description, correction)
            .with_subject(path)
            .with_expected(suggested.as_str())
    }

    pub fn check_outline(&self, file: &SourceFile, items: &Vec<ItemOutline>) -> (r: Vec<Offence>)
        ensures
            offence_views(r@) == postfix_offences(file@, items@),
    {
        let mut r = Vec::new();
        let found = Self::tests_in(items);
        if found > 0 {
            r.push(self.offence(file, found));
        }
        assert(offence_views(r@) =~= postfix_offences(file@, items@));
        r
    }

    pub fn check(&self, file: &SourceFile) -> (r: Vec<Offence>)
        ensures
            !postfix_applies(file@.path) ==> r@.len() == 0,
            ends_with(file@.path, "_tests.rs"@) ==> r@.len() == 0,
            parse_failure(crate::syntax::parsed_text(file@.lines)).is_some() ==> r@.len() == 0,
            postfix_applies(file@.path) && parse_failure(crate::syntax::parsed_text(file@.lines)).is_none()
                ==> offence_views(r@) == postfix_offences(file@, crate::syntax::syntax_outline(crate::syntax::parsed_text(file@.lines))),
    {
        proof {
            law_a_file_named_for_its_tests_is_never_reported(file@.path);
        }
        if !Self::applies_to(file) || has_suffix(file.relative_path(), Self::POSTFIX) {
            return Vec::new();
        }
        match file_outline(file) {
            Some(items) => self.check_outline(file, &items),
            None => Vec::new(),
        }
    }
}

} // verus!
