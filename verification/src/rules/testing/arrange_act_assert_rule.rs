//! A test reads `Arrange`, then one or more `Act`/`Assert` pairs.
//!
//! The markers are comments, and comments never reach the syntax tree, so the
//! rule reads lines. A line scanner cannot tell code from a string that holds
//! code, so the lines any literal in the test's body occupies are skipped:
//! comments are not tokens and literals are, which is exactly the distinction
//! needed.
use vstd::prelude::*;
use crate::rule_explanation::RuleExplanation;
use crate::offence::{all_by, lemma_all_by_concat, lemma_all_by_push, offence_views, plain, Offence, OffenceView};
use crate::rules::test_file_structure_rule::{structure_applies, TestFileStructureRule};
use crate::source_file::{rejoined, SourceFile, SourceFileView};
use crate::syntax::{file_outline, name_text, parse_failure, ItemKind, ItemOutline};
use crate::test_file_parser::{is_test_item, marks_test, TestFileParser};
use crate::test_marker::{marker_of, MarkerPhase, TestMarker, TestMarkerView};
use crate::text::{has_prefix, is_empty_text, join, join_texts, lemma_views_push, starts_with, trim, trimmed, views};

verus! {

pub open spec fn aaa_rule_name() -> Seq<char> {
    "arrange-act-assert"@
}

/// A line some literal of the body occupies.
pub open spec fn in_literal(literals: Seq<(usize, usize)>, line: nat) -> bool {
    exists|i: int| 0 <= i < literals.len() && literals[i].0 <= line && line <= literals[i].1
}

/// The markers on the lines `from` up to `from + n`, literal lines skipped.
pub open spec fn markers_in(lines: Seq<Seq<char>>, literals: Seq<(usize, usize)>, from: nat, n: nat) -> Seq<TestMarkerView>
    decreases n,
{
    if n == 0 {
        Seq::<TestMarkerView>::empty()
    } else {
        let earlier = markers_in(lines, literals, from, (n - 1) as nat);
        let line: nat = (from + n - 1) as nat;
        if line == 0 || in_literal(literals, line) || line > lines.len() {
            earlier
        } else {
            match marker_of(lines[line - 1], line) {
                Some(m) => earlier.push(m),
                None => earlier,
            }
        }
    }
}

/// The markers of a test's body.
pub open spec fn markers_of(lines: Seq<Seq<char>>, item: ItemOutline) -> Seq<TestMarkerView> {
    match item.body {
        Some((start, end)) => if end >= start {
            markers_in(lines, item.literals@, start as nat, (end - start + 1) as nat)
        } else {
            Seq::<TestMarkerView>::empty()
        },
        None => Seq::<TestMarkerView>::empty(),
    }
}

pub open spec fn phases_of(markers: Seq<TestMarkerView>) -> Seq<MarkerPhase>
    decreases markers.len(),
{
    if markers.len() == 0 {
        Seq::<MarkerPhase>::empty()
    } else {
        phases_of(markers.drop_last()) + markers.last().phases
    }
}

/// `Arrange`, then one or more `Act`/`Assert` pairs.
pub open spec fn is_legal(phases: Seq<MarkerPhase>) -> bool {
    &&& phases.len() >= 3
    &&& phases.len() % 2 == 1
    &&& phases[0] == MarkerPhase::Arrange
    &&& forall|k: int| 0 <= k < (phases.len() - 1) / 2 ==> #[trigger] phases[2 * k + 1] == MarkerPhase::Act
        && phases[2 * k + 2] == MarkerPhase::Assert
}

pub open spec fn phase_name(p: MarkerPhase) -> Seq<char> {
    match p {
        MarkerPhase::Arrange => "Arrange"@,
        MarkerPhase::Act => "Act"@,
        MarkerPhase::Assert => "Assert"@,
    }
}

pub open spec fn named(phases: Seq<MarkerPhase>) -> Seq<char> {
    if phases.len() == 0 {
        "no AAA markers"@
    } else {
        join(phases.map_values(|p: MarkerPhase| phase_name(p)), ", "@)
    }
}

pub open spec fn sequence_offence(file: SourceFileView, item: ItemOutline, found: Seq<char>) -> OffenceView {
    let name = name_text(item);
    plain(
        file.path,
        item.name_line as nat,
        aaa_rule_name(),
        "`"@ + name + "` reads "@ + found + "; a test is `Arrange` followed by one or more `Act`/`Assert` pairs"@,
        "label the sections `// Arrange`, `// Act` and `// Assert`, merging adjacent ones as `// Arrange & Act`, `// Act & Assert` or `// Arrange & Act & Assert`"@,
    ).about(name)
}

/// Whether, reading upwards from line `k` over comment lines, the first other
/// line is blank or the top of the file is reached.
pub open spec fn blank_above(lines: Seq<Seq<char>>, k: nat) -> bool
    decreases k,
{
    if k == 0 || k > lines.len() {
        true
    } else if !starts_with(trim(lines[k - 1]), "//"@) {
        trim(lines[k - 1]).len() == 0
    } else {
        blank_above(lines, (k - 1) as nat)
    }
}

pub open spec fn spacing_offence(file: SourceFileView, item: ItemOutline, marker: TestMarkerView) -> OffenceView {
    let name = name_text(item);
    plain(
        file.path,
        marker.line,
        aaa_rule_name(),
        "`"@ + marker.label + "` in `"@ + name + "` is not preceded by a blank line"@,
        "put a blank line before `"@ + marker.label + "`"@,
    ).about(name)
}

/// Every marker after the first that does not start on its own.
pub open spec fn spacing_offences(file: SourceFileView, item: ItemOutline, markers: Seq<TestMarkerView>) -> Seq<OffenceView>
    decreases markers.len(),
{
    if markers.len() <= 1 {
        Seq::<OffenceView>::empty()
    } else {
        let earlier = spacing_offences(file, item, markers.drop_last());
        let marker = markers.last();
        if blank_above(file.lines, if marker.line > 0 { (marker.line - 1) as nat } else { 0 }) {
            earlier
        } else {
            earlier.push(spacing_offence(file, item, marker))
        }
    }
}

pub open spec fn test_offences(file: SourceFileView, item: ItemOutline) -> Seq<OffenceView> {
    let markers = markers_of(file.lines, item);
    let phases = phases_of(markers);
    if !is_legal(phases) {
        seq![sequence_offence(file, item, named(phases))]
    } else {
        spacing_offences(file, item, markers)
    }
}

pub open spec fn aaa_offences(file: SourceFileView, items: Seq<ItemOutline>) -> Seq<OffenceView>
    decreases items.len(),
{
    if items.len() == 0 {
        Seq::<OffenceView>::empty()
    } else {
        let earlier = aaa_offences(file, items.drop_last());
        if items.last().depth == 0 && is_test_item(items.last()) {
            earlier + test_offences(file, items.last())
        } else {
            earlier
        }
    }
}

/// `Arrange`, then `n` pairs of `Act` and `Assert`.
pub open spec fn arrange_then_pairs(n: nat) -> Seq<MarkerPhase>
    decreases n,
{
    if n == 0 {
        seq![MarkerPhase::Arrange]
    } else {
        arrange_then_pairs((n - 1) as nat) + seq![MarkerPhase::Act, MarkerPhase::Assert]
    }
}

proof fn lemma_arrange_then_pairs_shape(n: nat)
    ensures
        arrange_then_pairs(n).len() == 2 * n + 1,
        arrange_then_pairs(n)[0] == MarkerPhase::Arrange,
        forall|k: int| 0 <= k < n ==> #[trigger] arrange_then_pairs(n)[2 * k + 1] == MarkerPhase::Act
            && arrange_then_pairs(n)[2 * k + 2] == MarkerPhase::Assert,
    decreases n,
{
    if n > 0 {
        let m = (n - 1) as nat;
        lemma_arrange_then_pairs_shape(m);
        let before = arrange_then_pairs(m);
        let s = arrange_then_pairs(n);
        assert(s == before + seq![MarkerPhase::Act, MarkerPhase::Assert]);
        assert forall|k: int| 0 <= k < n implies #[trigger] s[2 * k + 1] == MarkerPhase::Act && s[2 * k + 2]
            == MarkerPhase::Assert by {
            if k < m {
                assert(before[2 * k + 1] == MarkerPhase::Act && before[2 * k + 2] == MarkerPhase::Assert);
            }
        }
    }
}

/// A test's markers are accepted exactly when they read `Arrange` followed by
/// one or more `Act`/`Assert` pairs: no markers at all, a lone `Arrange`, an
/// unpaired `Act` or anything out of that order is refused.
pub proof fn law_a_legal_test_reads_arrange_then_pairs(phases: Seq<MarkerPhase>)
    ensures
        is_legal(phases) <==> exists|n: nat| #![trigger arrange_then_pairs(n)] n >= 1 && phases == arrange_then_pairs(n),
        !is_legal(Seq::<MarkerPhase>::empty()),
{
    if is_legal(phases) {
        let n = ((phases.len() - 1) / 2) as nat;
        lemma_arrange_then_pairs_shape(n);
        let s = arrange_then_pairs(n);
        assert forall|i: int| 0 <= i < phases.len() implies phases[i] == s[i] by {
            if i > 0 {
                let k = (i - 1) / 2;
                if i % 2 == 1 {
                    assert(i == 2 * k + 1);
                    assert(phases[2 * k + 1] == MarkerPhase::Act && phases[2 * k + 2] == MarkerPhase::Assert);
                    assert(s[2 * k + 1] == MarkerPhase::Act);
                } else {
                    assert(i == 2 * k + 2);
                    assert(phases[2 * k + 1] == MarkerPhase::Act && phases[2 * k + 2] == MarkerPhase::Assert);
                    assert(s[2 * k + 1] == MarkerPhase::Act && s[2 * k + 2] == MarkerPhase::Assert);
                }
            }
        }
        assert(phases =~= s);
    }
    if exists|n: nat| #![trigger arrange_then_pairs(n)] n >= 1 && phases == arrange_then_pairs(n) {
        let n = choose|n: nat| #![trigger arrange_then_pairs(n)] n >= 1 && phases == arrange_then_pairs(n);
        lemma_arrange_then_pairs_shape(n);
        assert((phases.len() - 1) / 2 == n);
        assert forall|k: int| 0 <= k < (phases.len() - 1) / 2 implies #[trigger] phases[2 * k + 1] == MarkerPhase::Act
            && phases[2 * k + 2] == MarkerPhase::Assert by {
            assert(arrange_then_pairs(n)[2 * k + 1] == MarkerPhase::Act);
        }
    }
}

/// A test that carries no marker at all is reported once, at its name, as
/// reading no AAA markers.
pub proof fn law_a_test_without_markers_is_reported(file: SourceFileView, item: ItemOutline)
    requires
        markers_of(file.lines, item).len() == 0,
    ensures
        test_offences(file, item).len() == 1,
        test_offences(file, item)[0].line == item.name_line,
        test_offences(file, item)[0].rule == aaa_rule_name(),
        test_offences(file, item)[0].description == "`"@ + name_text(item)
            + "` reads no AAA markers; a test is `Arrange` followed by one or more `Act`/`Assert` pairs"@,
{
    let markers = markers_of(file.lines, item);
    assert(phases_of(markers) =~= Seq::<MarkerPhase>::empty());
    law_a_legal_test_reads_arrange_then_pairs(Seq::<MarkerPhase>::empty());
    assert("`"@ + name_text(item) + "` reads "@ + "no AAA markers"@
        + "; a test is `Arrange` followed by one or more `Act`/`Assert` pairs"@ =~= "`"@ + name_text(item)
        + "` reads no AAA markers; a test is `Arrange` followed by one or more `Act`/`Assert` pairs"@) by {
        reveal_strlit("` reads ");
        reveal_strlit("no AAA markers");
        reveal_strlit("; a test is `Arrange` followed by one or more `Act`/`Assert` pairs");
        reveal_strlit("` reads no AAA markers; a test is `Arrange` followed by one or more `Act`/`Assert` pairs");
    }
}

proof fn lemma_test_offences_name_the_test(file: SourceFileView, item: ItemOutline)
    ensures
        forall|j: int| 0 <= j < test_offences(file, item).len() ==> (#[trigger] test_offences(file, item)[j]).subject
            == Some(name_text(item)),
{
    let markers = markers_of(file.lines, item);
    if is_legal(phases_of(markers)) {
        lemma_spacing_names_the_test(file, item, markers);
    }
}

proof fn lemma_spacing_names_the_test(file: SourceFileView, item: ItemOutline, markers: Seq<TestMarkerView>)
    ensures
        forall|j: int| 0 <= j < spacing_offences(file, item, markers).len() ==> (#[trigger] spacing_offences(
            file,
            item,
            markers,
        )[j]).subject == Some(name_text(item)),
    decreases markers.len(),
{
    if markers.len() > 1 {
        lemma_spacing_names_the_test(file, item, markers.drop_last());
    }
}

/// Only tests are judged: every offence names a top-level function that
/// carries a test attribute; helpers and nested functions are never reported.
pub proof fn law_only_tests_are_judged(file: SourceFileView, items: Seq<ItemOutline>)
    ensures
        forall|j: int|
            0 <= j < aaa_offences(file, items).len() ==> exists|k: int|
                #![trigger items[k]]
                0 <= k < items.len() && items[k].depth == 0 && items[k].kind == ItemKind::Fn && marks_test(
                    items[k].attributes@,
                ) && (#[trigger] aaa_offences(file, items)[j]).subject == Some(name_text(items[k])),
    decreases items.len(),
{
    if items.len() > 0 {
        let rest = items.drop_last();
        law_only_tests_are_judged(file, rest);
        let earlier = aaa_offences(file, rest);
        let all = aaa_offences(file, items);
        lemma_test_offences_name_the_test(file, items.last());
        assert forall|j: int| 0 <= j < all.len() implies exists|k: int|
            #![trigger items[k]]
            0 <= k < items.len() && items[k].depth == 0 && items[k].kind == ItemKind::Fn && marks_test(
                items[k].attributes@,
            ) && (#[trigger] all[j]).subject == Some(name_text(items[k])) by {
            if j < earlier.len() {
                assert(all[j] == earlier[j]);
                let k = choose|k: int|
                    #![trigger rest[k]]
                    0 <= k < rest.len() && rest[k].depth == 0 && rest[k].kind == ItemKind::Fn && marks_test(
                        rest[k].attributes@,
                    ) && earlier[j].subject == Some(name_text(rest[k]));
                assert(rest[k] == items[k]);
            } else {
                let tail = test_offences(file, items.last());
                assert(all[j] == tail[j - earlier.len()]);
                assert(items[items.len() - 1] == items.last());
            }
        }
    }
}

/// Every offence the rule finds is reported under its name.
pub proof fn lemma_aaa_by_rule(file: SourceFileView, items: Seq<ItemOutline>)
    ensures
        all_by(aaa_offences(file, items), aaa_rule_name()),
    decreases items.len(),
{
    if items.len() > 0 {
        lemma_aaa_by_rule(file, items.drop_last());
        if items.last().depth == 0 && is_test_item(items.last()) {
            let markers = markers_of(file.lines, items.last());
            lemma_spacing_by_rule(file, items.last(), markers);
            lemma_all_by_concat(aaa_offences(file, items.drop_last()), test_offences(file, items.last()), aaa_rule_name());
        }
    }
}

pub proof fn lemma_spacing_by_rule(file: SourceFileView, item: ItemOutline, markers: Seq<TestMarkerView>)
    ensures
        all_by(spacing_offences(file, item, markers), aaa_rule_name()),
    decreases markers.len(),
{
    if markers.len() > 1 {
        lemma_spacing_by_rule(file, item, markers.drop_last());
        let marker = markers.last();
        if !blank_above(file.lines, if marker.line > 0 { (marker.line - 1) as nat } else { 0 }) {
            lemma_all_by_push(spacing_offences(file, item, markers.drop_last()), spacing_offence(file, item, marker), aaa_rule_name());
        }
    }
}

/// What the rule wants, a scrap of source that breaks it and the same scrap
/// put right.
pub open spec fn aaa_explanation() -> (Seq<char>, Seq<char>, Seq<char>, Seq<char>) {
    (
        aaa_rule_name(),
        "A test reads Arrange, then one or more Act/Assert pairs."@,
        "#[test]\nfn adds_two_numbers() {\n    assert_eq!(add(1, 1), 2);\n}"@,
        "#[test]\nfn adds_two_numbers() {\n    // Arrange & Act & Assert\n    assert_eq!(add(1, 1), 2);\n}"@,
    )
}

pub struct ArrangeActAssertRule;

impl ArrangeActAssertRule {
    pub fn new() -> (r: ArrangeActAssertRule) {
        ArrangeActAssertRule
    }

    pub fn name(&self) -> (r: &'static str)
        ensures
            r@ == aaa_rule_name(),
    {
        "arrange-act-assert"
    }

    /// What the rule wants, a scrap of source that breaks it and the same
    /// scrap put right.
    pub fn explanation(&self) -> (r: RuleExplanation)
        ensures
            r@ == aaa_explanation(),
    {
        RuleExplanation::new(
            self.name(),
            "A test reads Arrange, then one or more Act/Assert pairs.",
            "#[test]\nfn adds_two_numbers() {\n    assert_eq!(add(1, 1), 2);\n}",
            "#[test]\nfn adds_two_numbers() {\n    // Arrange & Act & Assert\n    assert_eq!(add(1, 1), 2);\n}",
        )
    }

    pub fn applies_to(file: &SourceFile) -> (b: bool)
        ensures
            b == structure_applies(file@.path),
    {
        TestFileStructureRule::applies_to(file)
    }

    fn in_literal(literals: &Vec<(usize, usize)>, line: usize) -> (b: bool)
        ensures
            b == in_literal(literals@, line as nat),
    {
        let mut i: usize = 0;
        while i < literals.len()
            invariant
                i <= literals.len(),
                forall|j: int| 0 <= j < i ==> !(literals@[j].0 <= line && line <= literals@[j].1),
            decreases literals.len() - i,
        {
            if literals[i].0 <= line && line <= literals[i].1 {
                return true;
            }
            i = i + 1;
        }
        false
    }

    fn markers_of(file: &SourceFile, item: &ItemOutline) -> (r: Vec<TestMarker>)
        ensures
            r@.map_values(|m: TestMarker| m@) == markers_of(file@.lines, *item),
    {
        let mut out: Vec<TestMarker> = Vec::new();
        let (start, end) = match item.body {
            Some(span) => span,
            None => {
                assert(out@.map_values(|m: TestMarker| m@) =~= Seq::<TestMarkerView>::empty());
                return out;
            },
        };
        if end < start {
            assert(out@.map_values(|m: TestMarker| m@) =~= Seq::<TestMarkerView>::empty());
            return out;
        }
        let lines = file.lines();
        let last = end - start;
        let mut k: usize = 0;
        assert(out@.map_values(|m: TestMarker| m@) =~= markers_in(file@.lines, item.literals@, start as nat, 0));
        loop
            invariant
                k <= last,
                last == end - start,
                item.body == Some((start, end)),
                views(lines@) == file@.lines,
                out@.map_values(|m: TestMarker| m@) == markers_in(file@.lines, item.literals@, start as nat, k as nat),
            decreases last - k,
        {
            let line = start + k;
            let ghost before = out@;
            if line != 0 && !Self::in_literal(&item.literals, line) && line <= lines.len() {
                match TestMarker::parse(lines[line - 1].as_str(), line) {
                    Some(marker) => {
                        out.push(marker);
                        assert(out@.map_values(|m: TestMarker| m@) =~= before.map_values(|m: TestMarker| m@).push(marker@));
                    },
                    None => {},
                }
            }
            if k == last {
                assert(markers_in(file@.lines, item.literals@, start as nat, (k + 1) as nat) == markers_of(file@.lines, *item));
                return out;
            }
            k = k + 1;
        }
    }

    /// Arrange, then one or more Act/Assert pairs.
    pub fn is_legal(phases: &Vec<MarkerPhase>) -> (b: bool)
        ensures
            b == is_legal(phases@),
    {
        if phases.len() < 3 || phases.len() % 2 == 0 || phases[0] != MarkerPhase::Arrange {
            return false;
        }
        let pairs = (phases.len() - 1) / 2;
        let mut k: usize = 0;
        while k < pairs
            invariant
                pairs == (phases.len() - 1) / 2,
                phases.len() >= 3,
                k <= pairs,
                forall|m: int| 0 <= m < k ==> #[trigger] phases@[2 * m + 1] == MarkerPhase::Act
                    && phases@[2 * m + 2] == MarkerPhase::Assert,
            decreases pairs - k,
        {
            if phases[2 * k + 1] != MarkerPhase::Act || phases[2 * k + 2] != MarkerPhase::Assert {
                assert(!(phases@[2 * k as int + 1] == MarkerPhase::Act && phases@[2 * k as int + 2] == MarkerPhase::Assert));
                return false;
            }
            k = k + 1;
        }
        true
    }

    fn phase_name(p: MarkerPhase) -> (r: &'static str)
        ensures
            r@ == phase_name(p),
    {
        match p {
            MarkerPhase::Arrange => "Arrange",
            MarkerPhase::Act => "Act",
            MarkerPhase::Assert => "Assert",
        }
    }

    pub fn named(phases: &Vec<MarkerPhase>) -> (r: String)
        ensures
            r@ == named(phases@),
    {
        if phases.len() == 0 {
            return String::from_str("no AAA markers");
        }
        let mut names: Vec<String> = Vec::new();
        let mut i: usize = 0;
        while i < phases.len()
            invariant
                i <= phases.len(),
                views(names@) == phases@.map_values(|p: MarkerPhase| phase_name(p)).take(i as int),
            decreases phases.len() - i,
        {
            let c = String::from_str(Self::phase_name(phases[i]));
            proof {
                lemma_views_push(names@, c);
            }
            names.push(c);
            i = i + 1;
            assert(views(names@) =~= phases@.map_values(|p: MarkerPhase| phase_name(p)).take(i as int));
        }
        assert(phases@.map_values(|p: MarkerPhase| phase_name(p)).take(phases.len() as int)
            == phases@.map_values(|p: MarkerPhase| phase_name(p)));
        join_texts(&names, ", ")
    }

    fn sequence_offence(&self, file: &SourceFile, item: &ItemOutline, found: &str) -> (o: Offence)
        ensures
            o@ == sequence_offence(file@, *item, found@),
    {
        let name = item.name_or_empty();
        let mut description = String::from_str("`");
        description.append(name.as_str());
        description.append("` reads ");
        description.append(found);
        description.append("; a test is `Arrange` followed by one or more `Act`/`Assert` pairs");
        Offence::new(
            file.relative_path(),
            item.name_line,
            self.name(),
            description,
            String::from_str("label the sections `// Arrange`, `// Act` and `// Assert`, merging adjacent ones as `// Arrange & Act`, `// Act & Assert` or `// Arrange & Act & Assert`"),
        ).with_subject(name.as_str())
    }

    /// Comment lines above a marker are folded into it, the same way the
    /// parser folds them into the item they document.
    pub fn is_blank_above(file: &SourceFile, line: usize) -> (b: bool)
        ensures
            b == blank_above(file@.lines, line as nat),
    {
        let lines = file.lines();
        let mut k = line;
        while k > 0 && k <= lines.len()
            invariant
                views(lines@) == file@.lines,
                blank_above(file@.lines, line as nat) == blank_above(file@.lines, k as nat),
            decreases k,
        {
            let text = trimmed(lines[k - 1].as_str());
            proof {
                reveal_strlit("//");
            }
            if !has_prefix(text.as_str(), "//") {
                return is_empty_text(text.as_str());
            }
            k = k - 1;
        }
        true
    }

    fn spacing_offences(&self, file: &SourceFile, item: &ItemOutline, markers: &Vec<TestMarker>, out: &mut Vec<Offence>)
        ensures
            offence_views(final(out)@) == offence_views(old(out)@)
                + spacing_offences(file@, *item, markers@.map_values(|m: TestMarker| m@)),
    {
        let ghost start = offence_views(out@);
        let ghost all = markers@.map_values(|m: TestMarker| m@);
        let name = item.name_or_empty();
        if markers.len() <= 1 {
            assert(offence_views(out@) =~= start + spacing_offences(file@, *item, all));
            return;
        }
        let mut k: usize = 1;
        assert(offence_views(out@) =~= start + spacing_offences(file@, *item, all.take(1)));
        while k < markers.len()
            invariant
                1 <= k <= markers.len(),
                all == markers@.map_values(|m: TestMarker| m@),
                name@ == crate::syntax::name_text(*item),
                start == offence_views(old(out)@),
                offence_views(out@) == start + spacing_offences(file@, *item, all.take(k as int)),
            decreases markers.len() - k,
        {
            let marker = &markers[k];
            assert(all.take(k + 1).drop_last() == all.take(k as int));
            assert(all.take(k + 1).last() == marker@);
            let above = if marker.line > 0 { marker.line - 1 } else { 0 };
            if !Self::is_blank_above(file, above) {
                let mut description = String::from_str("`");
                description.append(marker.label.as_str());
                description.append("` in `");
                description.append(name.as_str());
                description.append("` is not preceded by a blank line");
                let mut correction = String::from_str("put a blank line before `");
                correction.append(marker.label.as_str());
                correction.append("`");
                let o = Offence::new(file.relative_path(), marker.line, self.name(), description, correction)
                    .with_subject(name.as_str());
                let ghost before = offence_views(out@);
                out.push(o);
                assert(offence_views(out@) =~= before.push(o@));
            }
            k = k + 1;
        }
        assert(all.take(markers.len() as int) == all);
    }

    fn offences_of(&self, file: &SourceFile, item: &ItemOutline, out: &mut Vec<Offence>)
        ensures
            offence_views(final(out)@) == offence_views(old(out)@) + test_offences(file@, *item),
    {
        let markers = Self::markers_of(file, item);
        let ghost all = markers@.map_values(|m: TestMarker| m@);
        let mut phases: Vec<MarkerPhase> = Vec::new();
        let mut i: usize = 0;
        assert(all.take(0) =~= Seq::<TestMarkerView>::empty());
        assert(phases@ =~= phases_of(all.take(0)));
        while i < markers.len()
            invariant
                i <= markers.len(),
                all == markers@.map_values(|m: TestMarker| m@),
                phases@ == phases_of(all.take(i as int)),
            decreases markers.len() - i,
        {
            assert(all.take(i + 1).drop_last() == all.take(i as int));
            assert(all.take(i + 1).last() == markers@[i as int]@);
            let mut more = markers[i].phases.clone();
            assert(more@ == markers@[i as int].phases@);
            phases.append(&mut more);
            i = i + 1;
        }
        assert(all.take(markers.len() as int) == all);
        if !Self::is_legal(&phases) {
            let found = Self::named(&phases);
            let o = self.sequence_offence(file, item, found.as_str());
            let ghost before = offence_views(out@);
            out.push(o);
            assert(offence_views(out@) =~= before + seq![o@]);
            return;
        }
        self.spacing_offences(file, item, &markers, out);
    }

    pub fn check_outline(&self, file: &SourceFile, items: &Vec<ItemOutline>) -> (r: Vec<Offence>)
        ensures
            offence_views(r@) == aaa_offences(file@, items@),
    {
        let mut out: Vec<Offence> = Vec::new();
        let mut i: usize = 0;
        assert(items@.take(0) =~= Seq::<ItemOutline>::empty());
        assert(offence_views(out@) =~= aaa_offences(file@, items@.take(0)));
        while i < items.len()
            invariant
                i <= items.len(),
                offence_views(out@) == aaa_offences(file@, items@.take(i as int)),
            decreases items.len() - i,
        {
            assert(items@.take(i + 1).drop_last() == items@.take(i as int));
            assert(items@.take(i + 1).last() == items@[i as int]);
            let item = &items[i];
            if item.depth == 0 && item.kind == ItemKind::Fn && TestFileParser::is_test(&item.attributes) {
                self.offences_of(file, item, &mut out);
            }
            i = i + 1;
        }
        assert(items@.take(items.len() as int) == items@);
        out
    }

    pub fn check(&self, file: &SourceFile) -> (r: Vec<Offence>)
        ensures
            !structure_applies(file@.path) ==> r@.len() == 0,
            parse_failure(crate::syntax::parsed_text(file@.lines)).is_some() ==> r@.len() == 0,
            structure_applies(file@.path) && parse_failure(crate::syntax::parsed_text(file@.lines)).is_none()
                ==> offence_views(r@) == aaa_offences(file@, crate::syntax::syntax_outline(crate::syntax::parsed_text(file@.lines))),
    {
        if !Self::applies_to(file) {
            return Vec::new();
        }
        match file_outline(file) {
            Some(items) => self.check_outline(file, &items),
            None => Vec::new(),
        }
    }
}

} // verus!
