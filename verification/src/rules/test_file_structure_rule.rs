//! A test file reads top to bottom in one order: header, imports, constants,
//! helpers, tests. Each group is alphabetical, and the spacing is part of the
//! shape -- imports run together, everything else is separated by exactly one
//! blank line.
use vstd::prelude::*;
use crate::import_path::{rustfmt_decides, ImportPath};
use crate::offence::{all_by, lemma_all_by_concat, offence_views, plain, Offence, OffenceView};
use crate::section::{blank_lines_between, label, rank, Section};
use crate::source_file::{rejoined, SourceFile, SourceFileView};
use crate::syntax::parse_failure;
use crate::test_file_item::{item_views, TestFileItem, TestFileItemView};
use crate::test_file_parser::{test_items, TestFileParser};
use crate::text::{
    decimal, decimal_text, ends_with, has_prefix, is_blank, is_blank_text, lowercase, same_text,
    starts_with, text_at_most, text_le,
};
use crate::syntax::ItemOutline;

verus! {

pub open spec fn structure_rule_name() -> Seq<char> {
    "test-file-structure"@
}

/// `all_tests.rs` and `mod.rs` are registries, not test files.
pub open spec fn is_test_registry_path(path: Seq<char>) -> bool {
    path == "all_tests.rs"@ || path == "mod.rs"@ || ends_with(path, "/all_tests.rs"@) || ends_with(path, "/mod.rs"@)
}

pub open spec fn structure_applies(path: Seq<char>) -> bool {
    starts_with(path, "tests/"@) && !is_test_registry_path(path)
}

pub open spec fn structure_offence(path: Seq<char>, item: TestFileItemView, description: Seq<char>, correction: Seq<char>) -> OffenceView {
    plain(path, item.first_line, structure_rule_name(), description, correction).about(item.name)
}

pub open spec fn section_order_offence(path: Seq<char>, previous: TestFileItemView, item: TestFileItemView) -> Option<OffenceView> {
    if rank(item.section) >= rank(previous.section) {
        None
    } else {
        Some(structure_offence(
            path,
            item,
            "a "@ + label(item.section) + " follows a "@ + label(previous.section) + ", but every "@
                + label(item.section) + " belongs above them"@,
            "move `"@ + item.name + "` up above the "@ + label(previous.section) + "s"@,
        ))
    }
}

pub open spec fn alphabetic_offence(path: Seq<char>, previous: TestFileItemView, item: TestFileItemView) -> Option<OffenceView> {
    if previous.section != item.section || text_le(lowercase(previous.name), lowercase(item.name)) {
        None
    } else if item.section == Section::Imports && rustfmt_decides(previous.name, item.name) {
        None
    } else {
        Some(structure_offence(
            path,
            item,
            item.name + " is out of alphabetic order; it follows "@ + previous.name,
            "move `"@ + item.name + "` above `"@ + previous.name + "`"@,
        ))
    }
}

pub open spec fn count_blank(lines: Seq<Seq<char>>) -> nat
    decreases lines.len(),
{
    if lines.len() == 0 {
        0
    } else {
        count_blank(lines.drop_last()) + if is_blank(lines.last()) { 1nat } else { 0nat }
    }
}

/// The blank lines strictly between line `after` and line `before`.
pub open spec fn blank_lines_strictly_between(lines: Seq<Seq<char>>, after: nat, before: nat) -> nat {
    let wanted: int = if before > after + 1 { before - after - 1 } else { 0 };
    if after >= lines.len() {
        0
    } else {
        let rest = lines.skip(after as int);
        count_blank(rest.take(if wanted < rest.len() { wanted } else { rest.len() as int }))
    }
}

pub open spec fn spacing_offence(lines: Seq<Seq<char>>, path: Seq<char>, previous: TestFileItemView, item: TestFileItemView) -> Option<OffenceView> {
    let expected = blank_lines_between(item.section);
    let found = blank_lines_strictly_between(lines, previous.last_line, item.first_line);
    if previous.section != item.section || found == expected {
        None
    } else {
        Some(structure_offence(
            path,
            item,
            "expected "@ + decimal(expected) + " blank line(s) before "@ + item.name + " but found "@ + decimal(found),
            "leave exactly "@ + decimal(expected) + " blank line(s) between `"@ + previous.name + "` and `"@
                + item.name + "`"@,
        ))
    }
}

pub open spec fn listed(o: Option<OffenceView>) -> Seq<OffenceView> {
    match o {
        Some(v) => seq![v],
        None => Seq::<OffenceView>::empty(),
    }
}

/// Every offence between two neighbouring items: order of sections, order
/// within a section, then spacing.
pub open spec fn pair_offences(lines: Seq<Seq<char>>, path: Seq<char>, previous: TestFileItemView, item: TestFileItemView) -> Seq<OffenceView> {
    listed(section_order_offence(path, previous, item)) + listed(alphabetic_offence(path, previous, item))
        + listed(spacing_offence(lines, path, previous, item))
}

/// Every offence in a file's items, pair by pair, top to bottom.
pub open spec fn structure_offences(file: SourceFileView, items: Seq<TestFileItemView>) -> Seq<OffenceView>
    decreases items.len(),
{
    if items.len() < 2 {
        Seq::<OffenceView>::empty()
    } else {
        structure_offences(file, items.drop_last())
            + pair_offences(file.lines, file.path, items[items.len() - 2], items.last())
    }
}

/// Every offence the rule finds is reported under its name.
pub proof fn lemma_structure_by_rule(file: SourceFileView, items: Seq<TestFileItemView>)
    ensures
        all_by(structure_offences(file, items), structure_rule_name()),
    decreases items.len(),
{
    if items.len() >= 2 {
        lemma_structure_by_rule(file, items.drop_last());
        lemma_all_by_concat(
            structure_offences(file, items.drop_last()),
            pair_offences(file.lines, file.path, items[items.len() - 2], items.last()),
            structure_rule_name(),
        );
    }
}

pub struct TestFileStructureRule;

impl TestFileStructureRule {
    pub fn new() -> (r: TestFileStructureRule) {
        TestFileStructureRule
    }

    pub fn name(&self) -> (r: &'static str)
        ensures
            r@ == structure_rule_name(),
    {
        "test-file-structure"
    }

    pub fn is_registry(file: &SourceFile) -> (b: bool)
        ensures
            b == is_test_registry_path(file@.path),
    {
        let path = file.relative_path();
        proof {
            reveal_strlit("all_tests.rs");
            reveal_strlit("mod.rs");
        }
        same_text(path, "all_tests.rs") || same_text(path, "mod.rs")
            || crate::text::has_suffix(path, "/all_tests.rs") || crate::text::has_suffix(path, "/mod.rs")
    }

    /// Source files have a different shape and are not this rule's business.
    pub fn applies_to(file: &SourceFile) -> (b: bool)
        ensures
            b == structure_applies(file@.path),
    {
        has_prefix(file.relative_path(), "tests/") && !Self::is_registry(file)
    }

    fn offence(&self, path: &str, item: &TestFileItem, description: String, correction: String) -> (o: Offence)
        ensures
            o@ == structure_offence(path@, item@, description@, correction@),
    {
        Offence::new(path, item.first_line, self.name(), description, correction).with_subject(item.name.as_str())
    }

    fn section_order(&self, path: &str, previous: &TestFileItem, item: &TestFileItem) -> (r: Option<Offence>)
        ensures
            match r {
                Some(o) => section_order_offence(path@, previous@, item@) == Some(o@),
                None => section_order_offence(path@, previous@, item@).is_none(),
            },
    {
        if item.section.rank() >= previous.section.rank() {
            return None;
        }
        let mut description = String::from_str("a ");
        description.append(item.section.label());
        description.append(" follows a ");
        description.append(previous.section.label());
        description.append(", but every ");
        description.append(item.section.label());
        description.append(" belongs above them");
        let mut correction = String::from_str("move `");
        correction.append(item.name.as_str());
        correction.append("` up above the ");
        correction.append(previous.section.label());
        correction.append("s");
        Some(self.offence(path, item, description, correction))
    }

    /// A pair whose order rustfmt decides is not this rule's to judge.
    pub fn ordered_by_rustfmt(previous: &TestFileItem, item: &TestFileItem) -> (b: bool)
        ensures
            b == (item.section == Section::Imports && rustfmt_decides(previous.name@, item.name@)),
    {
        item.section == Section::Imports && ImportPath::decides_order(previous.name.as_str(), item.name.as_str())
    }

    fn alphabetic_order(&self, path: &str, previous: &TestFileItem, item: &TestFileItem) -> (r: Option<Offence>)
        ensures
            match r {
                Some(o) => alphabetic_offence(path@, previous@, item@) == Some(o@),
                None => alphabetic_offence(path@, previous@, item@).is_none(),
            },
    {
        if previous.section != item.section {
            return None;
        }
        let previous_key = previous.sort_key();
        let item_key = item.sort_key();
        if text_at_most(previous_key.as_str(), item_key.as_str()) {
            return None;
        }
        if Self::ordered_by_rustfmt(previous, item) {
            return None;
        }
        let mut description = item.name.clone();
        description.append(" is out of alphabetic order; it follows ");
        description.append(previous.name.as_str());
        let mut correction = String::from_str("move `");
        correction.append(item.name.as_str());
        correction.append("` above `");
        correction.append(previous.name.as_str());
        correction.append("`");
        Some(self.offence(path, item, description, correction))
    }

    /// The blank lines strictly between line `after` and line `before`.
    pub fn blank_lines_between(file: &SourceFile, after: usize, before: usize) -> (n: usize)
        ensures
            n == blank_lines_strictly_between(file@.lines, after as nat, before as nat),
    {
        let lines = file.lines();
        let wanted: usize = if before > after && before - after > 1 { before - after - 1 } else { 0 };
        if after >= lines.len() {
            return 0;
        }
        let ghost rest = file@.lines.skip(after as int);
        let ghost limit: int = if wanted < rest.len() { wanted as int } else { rest.len() as int };
        let mut k: usize = 0;
        let mut n: usize = 0;
        assert(rest.take(0) =~= Seq::<Seq<char>>::empty());
        while k < wanted && k < lines.len() - after
            invariant
                after < lines.len(),
                rest == file@.lines.skip(after as int),
                crate::text::views(lines@) == file@.lines,
                k <= limit,
                limit == (if wanted < rest.len() { wanted as int } else { rest.len() as int }),
                n == count_blank(rest.take(k as int)),
                n <= k,
            decreases wanted - k,
        {
            assert(rest.take(k + 1).drop_last() == rest.take(k as int));
            assert(rest.take(k + 1).last() == lines@[after + k]@);
            if is_blank_text(lines[after + k].as_str()) {
                n = n + 1;
            }
            k = k + 1;
        }
        n
    }

    fn spacing(&self, file: &SourceFile, previous: &TestFileItem, item: &TestFileItem) -> (r: Option<Offence>)
        ensures
            match r {
                Some(o) => spacing_offence(file@.lines, file@.path, previous@, item@) == Some(o@),
                None => spacing_offence(file@.lines, file@.path, previous@, item@).is_none(),
            },
    {
        if previous.section != item.section {
            return None;
        }
        let expected = item.section.blank_lines_between_entries();
        let found = Self::blank_lines_between(file, previous.last_line, item.first_line);
        if found == expected {
            return None;
        }
        let mut description = String::from_str("expected ");
        description.append(decimal_text(expected).as_str());
        description.append(" blank line(s) before ");
        description.append(item.name.as_str());
        description.append(" but found ");
        description.append(decimal_text(found).as_str());
        let mut correction = String::from_str("leave exactly ");
        correction.append(decimal_text(expected).as_str());
        correction.append(" blank line(s) between `");
        correction.append(previous.name.as_str());
        correction.append("` and `");
        correction.append(item.name.as_str());
        correction.append("`");
        Some(self.offence(file.relative_path(), item, description, correction))
    }

    /// Every offence among the given items of the file, not only the first:
    /// these are independent facts about different items.
    pub fn check_items(&self, file: &SourceFile, items: &Vec<TestFileItem>) -> (r: Vec<Offence>)
        ensures
            offence_views(r@) == structure_offences(file@, item_views(items@)),
    {
        let mut offences: Vec<Offence> = Vec::new();
        let ghost all = item_views(items@);
        if items.len() < 2 {
            assert(offence_views(offences@) =~= structure_offences(file@, all));
            return offences;
        }
        let mut k: usize = 1;
        assert(all.take(1).len() < 2);
        assert(offence_views(offences@) =~= structure_offences(file@, all.take(1)));
        while k < items.len()
            invariant
                1 <= k <= items.len(),
                all == item_views(items@),
                offence_views(offences@) == structure_offences(file@, all.take(k as int)),
            decreases items.len() - k,
        {
            let ghost before = offence_views(offences@);
            let previous = &items[k - 1];
            let item = &items[k];
            let path = file.relative_path();
            let first = self.section_order(path, previous, item);
            let second = self.alphabetic_order(path, previous, item);
            let third = self.spacing(file, previous, item);
            let ghost expected = pair_offences(file@.lines, file@.path, all[k - 1], all[k as int]);
            match first {
                Some(o) => offences.push(o),
                None => {},
            }
            match second {
                Some(o) => offences.push(o),
                None => {},
            }
            match third {
                Some(o) => offences.push(o),
                None => {},
            }
            assert(offence_views(offences@) =~= before + expected);
            assert(all.take(k + 1).drop_last() == all.take(k as int));
            assert(all.take(k + 1)[k - 1] == all[k - 1]);
            k = k + 1;
        }
        assert(all.take(items.len() as int) == all);
        offences
    }

    pub fn check(&self, file: &SourceFile) -> (r: Vec<Offence>)
        ensures
            !structure_applies(file@.path) ==> r@.len() == 0,
            parse_failure(crate::syntax::parsed_text(file@.lines)).is_some() ==> r@.len() == 0,
            structure_applies(file@.path) && parse_failure(crate::syntax::parsed_text(file@.lines)).is_none()
                ==> offence_views(r@) == structure_offences(file@, test_items(file@.lines, crate::syntax::syntax_outline(crate::syntax::parsed_text(file@.lines)))),
    {
        if !Self::applies_to(file) {
            return Vec::new();
        }
        match TestFileParser::parse(file) {
            Some(items) => self.check_items(file, &items),
            None => Vec::new(),
        }
    }
}

} // verus!
