//! The report a run prints: a table for a person, or the same run as a JSON
//! document.
//!
//! The cap on offences is on what is shown and never on what is counted: the
//! summary states the true total, the omitted count is stated outright, and
//! the exit code is decided from every offence.
use vstd::prelude::*;
use crate::offence::{offence_views, Offence, OffenceView};
use crate::text::{decimal, decimal_text, join, join_texts, occurs, occurs_at, views};

verus! {

pub open spec fn spaces(n: nat) -> Seq<char> {
    Seq::new(n, |i: int| ' ')
}

pub open spec fn dashes(n: nat) -> Seq<char> {
    Seq::new(n, |i: int| '-')
}

/// The text followed by spaces up to the width.
pub open spec fn pad_right(s: Seq<char>, w: nat) -> Seq<char> {
    if s.len() < w { s + spaces((w - s.len()) as nat) } else { s }
}

/// Spaces up to the width, then the text.
pub open spec fn pad_left(s: Seq<char>, w: nat) -> Seq<char> {
    if s.len() < w { spaces((w - s.len()) as nat) + s } else { s }
}

/// The length of the longest text, and at least `least`.
pub open spec fn widest(cells: Seq<Seq<char>>, least: nat) -> nat
    decreases cells.len(),
{
    if cells.len() == 0 {
        least
    } else {
        let earlier = widest(cells.drop_last(), least);
        if cells.last().len() > earlier { cells.last().len() } else { earlier }
    }
}

pub open spec fn files_column(s: Seq<OffenceView>) -> Seq<Seq<char>> {
    s.map_values(|o: OffenceView| o.file)
}

pub open spec fn lines_column(s: Seq<OffenceView>) -> Seq<Seq<char>> {
    s.map_values(|o: OffenceView| decimal(o.line))
}

pub open spec fn rules_column(s: Seq<OffenceView>) -> Seq<Seq<char>> {
    s.map_values(|o: OffenceView| o.rule)
}

pub open spec fn descriptions_column(s: Seq<OffenceView>) -> Seq<Seq<char>> {
    s.map_values(|o: OffenceView| o.description)
}

/// The column widths of a table of the offences.
pub struct Widths {
    pub file: nat,
    pub line: nat,
    pub rule: nat,
    pub offence: nat,
}

pub open spec fn widths_of(s: Seq<OffenceView>) -> Widths {
    Widths {
        file: widest(files_column(s), 4),
        line: widest(lines_column(s), 4),
        rule: widest(rules_column(s), 4),
        offence: widest(descriptions_column(s), 7),
    }
}

pub open spec fn table_header(w: Widths) -> Seq<char> {
    pad_right("file"@, w.file) + "  "@ + pad_left("line"@, w.line) + "  "@ + pad_right("rule"@, w.rule) + "  "@
        + "offence\n"@ + dashes(w.file) + "  "@ + dashes(w.line) + "  "@ + dashes(w.rule) + "  "@ + dashes(w.offence)
        + "\n"@
}

/// One offence: its place, its rule and what is wrong, then what to do about
/// it under the offence column.
pub open spec fn table_row(o: OffenceView, w: Widths) -> Seq<char> {
    pad_right(o.file, w.file) + "  "@ + pad_left(decimal(o.line), w.line) + "  "@ + pad_right(o.rule, w.rule) + "  "@
        + o.description + "\n"@ + spaces(w.file) + "  "@ + spaces(w.line) + "  "@ + spaces(w.rule) + "  "@ + "fix: "@
        + o.correction + "\n"@
}

pub open spec fn table_rows(s: Seq<OffenceView>, w: Widths) -> Seq<char>
    decreases s.len(),
{
    if s.len() == 0 {
        Seq::<char>::empty()
    } else {
        table_rows(s.drop_last(), w) + table_row(s.last(), w)
    }
}

pub open spec fn table(s: Seq<OffenceView>) -> Seq<char> {
    table_header(widths_of(s)) + table_rows(s, widths_of(s))
}

/// How many offences a report shows: all of them under a threshold of 0,
/// else no more than the threshold.
pub open spec fn shown_count(total: nat, threshold: nat) -> nat {
    if threshold == 0 || total <= threshold { total } else { threshold }
}

/// How many distinct rules the offences name.
pub open spec fn rules_broken(s: Seq<OffenceView>) -> nat
    decreases s.len(),
{
    if s.len() == 0 {
        0
    } else if rules_column(s.drop_last()).contains(s.last().rule) {
        rules_broken(s.drop_last())
    } else {
        rules_broken(s.drop_last()) + 1
    }
}

/// What a run applied, skipped and could not configure.
pub struct RuleRoster {
    pub applied: Vec<String>,
    pub skipped: Vec<String>,
    /// Each unconfigured rule with what it needs.
    pub unconfigured: Vec<(String, String)>,
}

pub open spec fn unconfigured_views(v: Seq<(String, String)>) -> Seq<Seq<char>> {
    v.map_values(|p: (String, String)| p.0@ + " (needs "@ + p.1@ + ")"@)
}

pub open spec fn every_rule_applied(roster: RuleRoster) -> bool {
    roster.skipped@.len() == 0 && roster.unconfigured@.len() == 0
}

/// Names the rules applied and, where not all were, the ones that were not
/// and why.
pub open spec fn roster_section(roster: RuleRoster) -> Seq<char> {
    if every_rule_applied(roster) {
        Seq::<char>::empty()
    } else {
        "\n  applied: "@ + join(views(roster.applied@), ", "@) + "\n"@ + (if roster.skipped@.len() > 0 {
            "  skipped: "@ + join(views(roster.skipped@), ", "@) + "\n"@
        } else {
            Seq::<char>::empty()
        }) + (if roster.unconfigured@.len() > 0 {
            "  not applied: "@ + join(unconfigured_views(roster.unconfigured@), ", "@) + "\n"@
        } else {
            Seq::<char>::empty()
        })
    }
}

pub open spec fn omitted_note(total: nat, threshold: nat) -> Seq<char> {
    if shown_count(total, threshold) < total {
        "\n... and "@ + decimal((total - shown_count(total, threshold)) as nat)
            + " more offences not shown. Raise --offence-threshold (currently "@ + decimal(threshold)
            + ", use 0 for all) to see them.\n"@
    } else {
        Seq::<char>::empty()
    }
}

/// What a run left out on purpose: each exclusion pattern with how many files
/// it removed, and the baseline with how many offences it suppressed and how
/// many of its entries matched nothing.
pub struct Adoption {
    pub excluded: Vec<(String, usize)>,
    pub baseline: Option<String>,
    pub suppressed: usize,
    pub stale: usize,
}

/// What the report says of an adoption: each pattern with its count, the
/// baseline as named, how many offences it suppressed and how many of its
/// entries matched nothing.
pub struct AdoptionView {
    pub excluded: Seq<(Seq<char>, nat)>,
    pub baseline: Option<Seq<char>>,
    pub suppressed: nat,
    pub stale: nat,
}

pub open spec fn count_views(v: Seq<(String, usize)>) -> Seq<(Seq<char>, nat)> {
    v.map_values(|e: (String, usize)| (e.0@, e.1 as nat))
}

impl View for Adoption {
    type V = AdoptionView;

    open spec fn view(&self) -> AdoptionView {
        AdoptionView {
            excluded: count_views(self.excluded@),
            baseline: match self.baseline {
                Some(p) => Some(p@),
                None => None,
            },
            suppressed: self.suppressed as nat,
            stale: self.stale as nat,
        }
    }
}

pub open spec fn exclusion_views(v: Seq<(Seq<char>, nat)>) -> Seq<Seq<char>> {
    v.map_values(|p: (Seq<char>, nat)| p.0 + " ("@ + decimal(p.1) + " files)"@)
}

/// How many files the patterns removed in all.
pub open spec fn sum_totals(totals: Seq<(Seq<char>, nat)>) -> nat
    decreases totals.len(),
{
    if totals.len() == 0 { 0 } else { sum_totals(totals.drop_last()) + totals.last().1 }
}

/// The patterns that removed nothing, in order.
pub open spec fn dead_patterns(v: Seq<(Seq<char>, nat)>) -> Seq<Seq<char>>
    decreases v.len(),
{
    if v.len() == 0 {
        Seq::<Seq<char>>::empty()
    } else if v.last().1 == 0 {
        dead_patterns(v.drop_last()).push(v.last().0)
    } else {
        dead_patterns(v.drop_last())
    }
}

/// The line that calls out the patterns that matched nothing.
pub open spec fn dead_note(a: AdoptionView) -> Seq<char> {
    "  matched nothing: "@ + join(dead_patterns(a.excluded), ", "@) + " -- delete the pattern or correct it\n"@
}

/// The line that calls out the baseline entries that matched nothing.
pub open spec fn stale_note(a: AdoptionView) -> Seq<char> {
    "  "@ + decimal(a.stale) + " baseline entries matched nothing -- rerun with --write-baseline to refresh it\n"@
}

/// Names every exclusion pattern with its count, zero included, and calls
/// out the ones that matched nothing; names the baseline with what it
/// suppressed, and calls out its entries that matched nothing with how to
/// refresh it.
pub open spec fn adoption_section(a: AdoptionView) -> Seq<char> {
    (if a.excluded.len() > 0 {
        "\n  excluded: "@ + join(exclusion_views(a.excluded), ", "@) + "\n"@ + (if dead_patterns(a.excluded).len() > 0 {
            dead_note(a)
        } else {
            Seq::<char>::empty()
        })
    } else {
        Seq::<char>::empty()
    }) + (match a.baseline {
        Some(path) => "\n  baseline: "@ + path + " ("@ + decimal(a.suppressed) + " suppressed)\n"@ + (if a.stale > 0 {
            stale_note(a)
        } else {
            Seq::<char>::empty()
        }),
        None => Seq::<char>::empty(),
    })
}

pub open spec fn summary_line(
    files_scanned: nat,
    s: Seq<OffenceView>,
    roster: RuleRoster,
    adoption: AdoptionView,
    fixed: nat,
) -> Seq<char> {
    "\nsummary: files_scanned="@ + decimal(files_scanned) + (if adoption.excluded.len() > 0 {
        " files_excluded="@ + decimal(sum_totals(adoption.excluded))
    } else {
        Seq::<char>::empty()
    }) + " offences="@ + decimal(s.len()) + (if adoption.baseline is Some {
        " baselined="@ + decimal(adoption.suppressed)
    } else {
        Seq::<char>::empty()
    }) + " rules_broken="@ + decimal(rules_broken(s)) + (if fixed > 0 {
        " fixed="@ + decimal(fixed)
    } else {
        Seq::<char>::empty()
    }) + (if every_rule_applied(roster) {
        Seq::<char>::empty()
    } else {
        " rules_applied="@ + decimal(roster.applied@.len()) + " rules_skipped="@ + decimal(roster.skipped@.len())
            + " rules_unconfigured="@ + decimal(roster.unconfigured@.len())
    }) + "\n"@
}

/// The whole text report.
pub open spec fn text_report(
    files_scanned: nat,
    s: Seq<OffenceView>,
    threshold: nat,
    roster: RuleRoster,
    adoption: AdoptionView,
    config_file: Option<Seq<char>>,
    fixed: nat,
) -> Seq<char> {
    "stern4rust report\n\n"@ + (if s.len() == 0 {
        if every_rule_applied(roster) { "All rules are satisfied.\n"@ } else { "All applied rules are satisfied.\n"@ }
    } else {
        table(s.take(shown_count(s.len(), threshold) as int)) + omitted_note(s.len(), threshold)
    }) + roster_section(roster) + adoption_section(adoption) + (if fixed > 0 {
        "\n  fixed: "@ + decimal(fixed) + " file(s) rewritten\n"@
    } else {
        Seq::<char>::empty()
    }) + (match config_file {
        Some(path) => "\n  config: "@ + path + "\n"@,
        None => Seq::<char>::empty(),
    }) + summary_line(files_scanned, s, roster, adoption, fixed)
}

/// The cap is on what is shown and never on what is counted: whatever the
/// threshold, the report shows no more offences than there are and ends in the
/// same summary, which states every one of them.
pub proof fn law_threshold_caps_only_what_is_shown(
    files_scanned: nat,
    s: Seq<OffenceView>,
    threshold: nat,
    roster: RuleRoster,
    adoption: AdoptionView,
    config_file: Option<Seq<char>>,
    fixed: nat,
)
    ensures
        shown_count(s.len(), threshold) <= s.len(),
        threshold == 0 ==> shown_count(s.len(), threshold) == s.len(),
        ({
            let report = text_report(files_scanned, s, threshold, roster, adoption, config_file, fixed);
            let summary = summary_line(files_scanned, s, roster, adoption, fixed);
            report.len() >= summary.len() && report.subrange(report.len() - summary.len(), report.len() as int) == summary
        }),
{
    let report = text_report(files_scanned, s, threshold, roster, adoption, config_file, fixed);
    let summary = summary_line(files_scanned, s, roster, adoption, fixed);
    let front = report.take(report.len() - summary.len());
    assert(report.subrange(report.len() - summary.len(), report.len() as int) =~= summary);
}

/// A prefix of the counts sums to no more than all of them.
pub proof fn lemma_sum_totals_prefix(totals: Seq<(Seq<char>, nat)>, i: int)
    requires
        0 <= i <= totals.len(),
    ensures
        sum_totals(totals.take(i)) <= sum_totals(totals),
    decreases totals.len() - i,
{
    if i < totals.len() {
        lemma_sum_totals_prefix(totals, i + 1);
        assert(totals.take(i + 1).drop_last() =~= totals.take(i));
    } else {
        assert(totals.take(i) =~= totals);
    }
}

/// What occurs in the middle of a text occurs in the whole.
pub proof fn lemma_occurs_in_middle(a: Seq<char>, b: Seq<char>, c: Seq<char>, pattern: Seq<char>)
    requires
        occurs(b, pattern),
    ensures
        occurs(a + b + c, pattern),
{
    let i = choose|i: int| occurs_at(b, pattern, i);
    assert((a + b + c).subrange(a.len() + i, a.len() + i + pattern.len()) =~= b.subrange(i, i + pattern.len()));
    assert(occurs_at(a + b + c, pattern, a.len() + i));
}

/// Every piece of a joined text occurs in it.
pub proof fn lemma_join_holds_piece(pieces: Seq<Seq<char>>, sep: Seq<char>, k: int)
    requires
        0 <= k < pieces.len(),
    ensures
        occurs(join(pieces, sep), pieces[k]),
    decreases pieces.len(),
{
    if pieces.len() == 1 {
        assert(join(pieces, sep).subrange(0, pieces[k].len() as int) =~= pieces[k]);
        assert(occurs_at(join(pieces, sep), pieces[k], 0));
    } else if k == pieces.len() - 1 {
        assert(pieces.last().subrange(0, pieces[k].len() as int) =~= pieces[k]);
        assert(occurs_at(pieces.last(), pieces[k], 0));
        lemma_occurs_in_middle(join(pieces.drop_last(), sep) + sep, pieces.last(), Seq::<char>::empty(), pieces[k]);
        assert(join(pieces.drop_last(), sep) + sep + pieces.last() + Seq::<char>::empty() =~= join(pieces, sep));
    } else {
        lemma_join_holds_piece(pieces.drop_last(), sep, k);
        lemma_occurs_in_middle(Seq::<char>::empty(), join(pieces.drop_last(), sep), sep + pieces.last(), pieces[k]);
        assert(Seq::<char>::empty() + join(pieces.drop_last(), sep) + (sep + pieces.last()) =~= join(pieces, sep));
    }
}

/// Every exclusion pattern, with its count, occurs in the section that names
/// what a run left out.
pub proof fn lemma_section_names_exclusions(a: AdoptionView, k: int)
    requires
        0 <= k < a.excluded.len(),
    ensures
        occurs(adoption_section(a), exclusion_views(a.excluded)[k]),
{
    let pieces = exclusion_views(a.excluded);
    let section = adoption_section(a);
    lemma_join_holds_piece(pieces, ", "@, k);
    let tail = section.skip(("\n  excluded: "@.len() + join(pieces, ", "@).len()) as int);
    assert(section =~= "\n  excluded: "@ + join(pieces, ", "@) + tail);
    lemma_occurs_in_middle("\n  excluded: "@, join(pieces, ", "@), tail, pieces[k]);
}

/// The section calls out the patterns and the baseline entries that matched
/// nothing.
pub proof fn lemma_section_calls_out(a: AdoptionView)
    ensures
        dead_patterns(a.excluded).len() > 0 ==> occurs(adoption_section(a), dead_note(a)),
        a.baseline is Some && a.stale > 0 ==> occurs(adoption_section(a), stale_note(a)),
{
    let section = adoption_section(a);
    if dead_patterns(a.excluded).len() > 0 {
        assert(a.excluded.len() > 0) by {
            if a.excluded.len() == 0 {
                assert(dead_patterns(a.excluded) =~= Seq::<Seq<char>>::empty());
            }
        }
        let note = dead_note(a);
        let head = "\n  excluded: "@ + join(exclusion_views(a.excluded), ", "@) + "\n"@;
        let rest = section.skip((head.len() + note.len()) as int);
        assert(section =~= head + note + rest);
        assert(note.subrange(0, note.len() as int) =~= note);
        assert(occurs_at(note, note, 0));
        lemma_occurs_in_middle(head, note, rest, note);
    }
    if a.baseline is Some && a.stale > 0 {
        let note = stale_note(a);
        let head = section.take((section.len() - note.len()) as int);
        assert(section =~= head + note + Seq::<char>::empty());
        assert(note.subrange(0, note.len() as int) =~= note);
        assert(occurs_at(note, note, 0));
        lemma_occurs_in_middle(head, note, Seq::<char>::empty(), note);
    }
}

/// The section that names what a run left out stands whole in its report.
pub proof fn lemma_report_holds_section(
    files_scanned: nat,
    s: Seq<OffenceView>,
    threshold: nat,
    roster: RuleRoster,
    adoption: AdoptionView,
    config_file: Option<Seq<char>>,
    fixed: nat,
)
    ensures
        exists|front: Seq<char>, back: Seq<char>|
            text_report(files_scanned, s, threshold, roster, adoption, config_file, fixed) == front + adoption_section(
                adoption,
            ) + back,
{
    let report = text_report(files_scanned, s, threshold, roster, adoption, config_file, fixed);
    let section = adoption_section(adoption);
    let findings = if s.len() == 0 {
        if every_rule_applied(roster) { "All rules are satisfied.\n"@ } else { "All applied rules are satisfied.\n"@ }
    } else {
        table(s.take(shown_count(s.len(), threshold) as int)) + omitted_note(s.len(), threshold)
    };
    let front = "stern4rust report\n\n"@ + findings + roster_section(roster);
    let back = report.skip((front.len() + section.len()) as int);
    assert(report =~= front + section + back);
}

/// Nothing is left out silently: the report names every exclusion pattern
/// with the number of files it removed, zero included, and whenever a
/// baseline is in use the summary that ends the report states how many
/// offences it suppressed.
pub proof fn law_nothing_is_left_out_silently(
    files_scanned: nat,
    s: Seq<OffenceView>,
    threshold: nat,
    roster: RuleRoster,
    adoption: AdoptionView,
    config_file: Option<Seq<char>>,
    fixed: nat,
)
    ensures
        forall|k: int|
            0 <= k < adoption.excluded.len() ==> occurs(
                text_report(files_scanned, s, threshold, roster, adoption, config_file, fixed),
                #[trigger] exclusion_views(adoption.excluded)[k],
            ),
        adoption.baseline is Some ==> occurs(
            summary_line(files_scanned, s, roster, adoption, fixed),
            " baselined="@ + decimal(adoption.suppressed),
        ),
        dead_patterns(adoption.excluded).len() > 0 ==> occurs(
            text_report(files_scanned, s, threshold, roster, adoption, config_file, fixed),
            dead_note(adoption),
        ),
        adoption.baseline is Some && adoption.stale > 0 ==> occurs(
            text_report(files_scanned, s, threshold, roster, adoption, config_file, fixed),
            stale_note(adoption),
        ),
{
    let report = text_report(files_scanned, s, threshold, roster, adoption, config_file, fixed);
    lemma_report_holds_section(files_scanned, s, threshold, roster, adoption, config_file, fixed);
    let (front, back) = choose|front: Seq<char>, back: Seq<char>| report == front + adoption_section(adoption) + back;
    assert forall|k: int| 0 <= k < adoption.excluded.len() implies occurs(
        report,
        #[trigger] exclusion_views(adoption.excluded)[k],
    ) by {
        lemma_section_names_exclusions(adoption, k);
        lemma_occurs_in_middle(front, adoption_section(adoption), back, exclusion_views(adoption.excluded)[k]);
    }
    if dead_patterns(adoption.excluded).len() > 0 {
        lemma_section_calls_out(adoption);
        lemma_occurs_in_middle(front, adoption_section(adoption), back, dead_note(adoption));
    }
    if adoption.baseline is Some && adoption.stale > 0 {
        lemma_section_calls_out(adoption);
        lemma_occurs_in_middle(front, adoption_section(adoption), back, stale_note(adoption));
    }
    if adoption.baseline is Some {
        let summary = summary_line(files_scanned, s, roster, adoption, fixed);
        let head = "\nsummary: files_scanned="@ + decimal(files_scanned) + (if adoption.excluded.len() > 0 {
            " files_excluded="@ + decimal(sum_totals(adoption.excluded))
        } else {
            Seq::<char>::empty()
        }) + " offences="@ + decimal(s.len());
        let part = " baselined="@ + decimal(adoption.suppressed);
        let rest = summary.skip((head.len() + part.len()) as int);
        assert(summary =~= head + part + rest);
        assert(part.subrange(0, part.len() as int) =~= part);
        assert(occurs_at(part, part, 0));
        lemma_occurs_in_middle(head, part, rest, part);
    }
}

pub fn spaces_text(n: usize) -> (r: String)
    ensures
        r@ == spaces(n as nat),
{
    let mut r = String::new();
    let mut i: usize = 0;
    proof {
        reveal_strlit(" ");
    }
    assert(r@ =~= spaces(0));
    while i < n
        invariant
            i <= n,
            r@ == spaces(i as nat),
            " "@ == seq![' '],
        decreases n - i,
    {
        r.append(" ");
        assert(r@ =~= spaces((i + 1) as nat));
        i = i + 1;
    }
    r
}

pub fn dashes_text(n: usize) -> (r: String)
    ensures
        r@ == dashes(n as nat),
{
    let mut r = String::new();
    let mut i: usize = 0;
    proof {
        reveal_strlit("-");
    }
    assert(r@ =~= dashes(0));
    while i < n
        invariant
            i <= n,
            r@ == dashes(i as nat),
            "-"@ == seq!['-'],
        decreases n - i,
    {
        r.append("-");
        assert(r@ =~= dashes((i + 1) as nat));
        i = i + 1;
    }
    r
}

pub fn pad_right_text(s: &str, w: usize) -> (r: String)
    ensures
        r@ == pad_right(s@, w as nat),
{
    let n = s.unicode_len();
    let mut r = String::from_str(s);
    if n < w {
        r.append(spaces_text(w - n).as_str());
    }
    r
}

pub fn pad_left_text(s: &str, w: usize) -> (r: String)
    ensures
        r@ == pad_left(s@, w as nat),
{
    let n = s.unicode_len();
    if n < w {
        let mut r = spaces_text(w - n);
        r.append(s);
        r
    } else {
        String::from_str(s)
    }
}

/// Which column a width is taken of.
#[derive(Clone, Copy, PartialEq, Eq, Structural)]
enum Column {
    File,
    Line,
    Rule,
    Offence,
}

spec fn column_of(s: Seq<OffenceView>, c: Column) -> Seq<Seq<char>> {
    match c {
        Column::File => files_column(s),
        Column::Line => lines_column(s),
        Column::Rule => rules_column(s),
        Column::Offence => descriptions_column(s),
    }
}

fn widest_of(offences: &Vec<Offence>, n: usize, c: Column, least: usize) -> (r: usize)
    requires
        n <= offences.len(),
    ensures
        r == widest(column_of(offence_views(offences@).take(n as int), c), least as nat),
{
    let ghost all = offence_views(offences@).take(n as int);
    let mut r: usize = least;
    let mut i: usize = 0;
    assert(column_of(all.take(0), c) =~= Seq::<Seq<char>>::empty());
    while i < n
        invariant
            i <= n <= offences.len(),
            all == offence_views(offences@).take(n as int),
            r == widest(column_of(all.take(i as int), c), least as nat),
        decreases n - i,
    {
        assert(column_of(all.take(i + 1), c).drop_last() =~= column_of(all.take(i as int), c));
        let o = &offences[i];
        let cell_len = match c {
            Column::File => o.file.unicode_len(),
            Column::Line => decimal_text(o.line).unicode_len(),
            Column::Rule => o.rule.unicode_len(),
            Column::Offence => o.description.unicode_len(),
        };
        assert(column_of(all.take(i + 1), c).last().len() == cell_len);
        if cell_len > r {
            r = cell_len;
        }
        i = i + 1;
    }
    assert(all.take(n as int) =~= all);
    r
}

pub struct ReportPrinter;

impl ReportPrinter {
    /// How many offences a report shows.
    pub fn shown_count(total: usize, threshold: usize) -> (r: usize)
        ensures
            r == shown_count(total as nat, threshold as nat),
            r <= total,
    {
        if threshold == 0 || total <= threshold { total } else { threshold }
    }

    /// How many distinct rules the offences name.
    pub fn rules_broken(offences: &Vec<Offence>) -> (r: usize)
        ensures
            r == rules_broken(offence_views(offences@)),
    {
        let ghost all = offence_views(offences@);
        let mut seen: Vec<String> = Vec::new();
        let mut r: usize = 0;
        let mut i: usize = 0;
        assert(all.take(0) =~= Seq::<OffenceView>::empty());
        while i < offences.len()
            invariant
                i <= offences.len(),
                all == offence_views(offences@),
                r == rules_broken(all.take(i as int)),
                r <= i,
                forall|t: Seq<char>| #[trigger] views(seen@).contains(t) <==> rules_column(all.take(i as int)).contains(t),
            decreases offences.len() - i,
        {
            assert(all.take(i + 1).drop_last() =~= all.take(i as int));
            let rule = offences[i].rule.as_str();
            let ghost before = views(seen@);
            assert(rules_column(all.take(i + 1)) =~= rules_column(all.take(i as int)).push(rule@));
            if !crate::text::contains_text(&seen, rule) {
                r = r + 1;
                let c = String::from_str(rule);
                proof {
                    crate::text::lemma_views_push(seen@, c);
                }
                seen.push(c);
            }
            assert forall|t: Seq<char>| #[trigger] views(seen@).contains(t) <==> rules_column(all.take(i + 1)).contains(t) by {
                let col = rules_column(all.take(i as int));
                assert(before.contains(t) <==> col.contains(t));
                if t == rule@ {
                    assert(col.push(rule@)[col.len() as int] == t);
                    if !before.contains(t) {
                        assert(views(seen@)[before.len() as int] == t);
                    } else {
                        let k = choose|k: int| 0 <= k < before.len() && before[k] == t;
                        assert(views(seen@)[k] == t);
                    }
                } else {
                    if views(seen@).contains(t) {
                        let k = choose|k: int| 0 <= k < views(seen@).len() && views(seen@)[k] == t;
                        assert(k < before.len());
                        assert(before[k] == t);
                        assert(col.contains(t));
                        let j = choose|j: int| 0 <= j < col.len() && col[j] == t;
                        assert(col.push(rule@)[j] == t);
                    }
                    if col.push(rule@).contains(t) {
                        let j = choose|j: int| 0 <= j < col.push(rule@).len() && col.push(rule@)[j] == t;
                        assert(j < col.len());
                        assert(col[j] == t);
                        assert(before.contains(t));
                        let k = choose|k: int| 0 <= k < before.len() && before[k] == t;
                        assert(views(seen@)[k] == t);
                    }
                }
            }
            i = i + 1;
        }
        assert(all.take(offences.len() as int) =~= all);
        r
    }

    fn table(offences: &Vec<Offence>, n: usize) -> (r: String)
        requires
            n <= offences.len(),
        ensures
            r@ == table(offence_views(offences@).take(n as int)),
    {
        let ghost shown = offence_views(offences@).take(n as int);
        let wf = widest_of(offences, n, Column::File, 4);
        let wl = widest_of(offences, n, Column::Line, 4);
        let wr = widest_of(offences, n, Column::Rule, 4);
        let wd = widest_of(offences, n, Column::Offence, 7);
        let ghost w = widths_of(shown);
        assert(w.file == wf && w.line == wl && w.rule == wr && w.offence == wd);
        let mut r = pad_right_text("file", wf);
        r.append("  ");
        r.append(pad_left_text("line", wl).as_str());
        r.append("  ");
        r.append(pad_right_text("rule", wr).as_str());
        r.append("  ");
        r.append("offence\n");
        r.append(dashes_text(wf).as_str());
        r.append("  ");
        r.append(dashes_text(wl).as_str());
        r.append("  ");
        r.append(dashes_text(wr).as_str());
        r.append("  ");
        r.append(dashes_text(wd).as_str());
        r.append("\n");
        assert(r@ =~= table_header(w));
        let ghost head = r@;
        let mut i: usize = 0;
        assert(shown.take(0) =~= Seq::<OffenceView>::empty());
        while i < n
            invariant
                i <= n <= offences.len(),
                shown == offence_views(offences@).take(n as int),
                w == widths_of(shown),
                w.file == wf && w.line == wl && w.rule == wr,
                r@ == head + table_rows(shown.take(i as int), w),
            decreases n - i,
        {
            assert(shown.take(i + 1).drop_last() =~= shown.take(i as int));
            let o = &offences[i];
            let mut row = pad_right_text(o.file.as_str(), wf);
            row.append("  ");
            row.append(pad_left_text(decimal_text(o.line).as_str(), wl).as_str());
            row.append("  ");
            row.append(pad_right_text(o.rule.as_str(), wr).as_str());
            row.append("  ");
            row.append(o.description.as_str());
            row.append("\n");
            row.append(spaces_text(wf).as_str());
            row.append("  ");
            row.append(spaces_text(wl).as_str());
            row.append("  ");
            row.append(spaces_text(wr).as_str());
            row.append("  ");
            row.append("fix: ");
            row.append(o.correction.as_str());
            row.append("\n");
            assert(shown.take(i + 1).last() == o@);
            assert(row@ =~= table_row(o@, w));
            r.append(row.as_str());
            assert(r@ =~= head + table_rows(shown.take(i + 1), w));
            i = i + 1;
        }
        assert(shown.take(n as int) =~= shown);
        r
    }

    fn unconfigured_text(unconfigured: &Vec<(String, String)>) -> (r: Vec<String>)
        ensures
            views(r@) == unconfigured_views(unconfigured@),
    {
        let mut r: Vec<String> = Vec::new();
        let mut i: usize = 0;
        while i < unconfigured.len()
            invariant
                i <= unconfigured.len(),
                views(r@) == unconfigured_views(unconfigured@).take(i as int),
            decreases unconfigured.len() - i,
        {
            let mut t = unconfigured[i].0.clone();
            t.append(" (needs ");
            t.append(unconfigured[i].1.as_str());
            t.append(")");
            proof {
                crate::text::lemma_views_push(r@, t);
            }
            r.push(t);
            assert(unconfigured_views(unconfigured@).take(i + 1) =~= unconfigured_views(unconfigured@).take(i as int).push(t@));
            i = i + 1;
        }
        assert(unconfigured_views(unconfigured@).take(unconfigured.len() as int) =~= unconfigured_views(unconfigured@));
        r
    }

    fn roster_section(roster: &RuleRoster) -> (r: String)
        ensures
            r@ == roster_section(*roster),
    {
        if roster.skipped.len() == 0 && roster.unconfigured.len() == 0 {
            return String::new();
        }
        let mut r = String::from_str("\n  applied: ");
        r.append(join_texts(&roster.applied, ", ").as_str());
        r.append("\n");
        let ghost first = r@;
        if roster.skipped.len() > 0 {
            r.append("  skipped: ");
            r.append(join_texts(&roster.skipped, ", ").as_str());
            r.append("\n");
        }
        let ghost second = r@;
        if roster.unconfigured.len() > 0 {
            r.append("  not applied: ");
            r.append(join_texts(&Self::unconfigured_text(&roster.unconfigured), ", ").as_str());
            r.append("\n");
        }
        assert(r@ =~= roster_section(*roster));
        r
    }

    fn summary_line(
        files_scanned: usize,
        offences: &Vec<Offence>,
        roster: &RuleRoster,
        adoption: &Adoption,
        fixed: usize,
    ) -> (r: String)
        requires
            sum_totals(adoption@.excluded) <= usize::MAX,
        ensures
            r@ == summary_line(files_scanned as nat, offence_views(offences@), *roster, adoption@, fixed as nat),
    {
        let mut r = String::from_str("\nsummary: files_scanned=");
        r.append(decimal_text(files_scanned).as_str());
        if adoption.excluded.len() > 0 {
            r.append(" files_excluded=");
            r.append(decimal_text(Self::files_excluded(&adoption.excluded)).as_str());
        }
        r.append(" offences=");
        r.append(decimal_text(offences.len()).as_str());
        let ghost p1 = r@;
        let mut b = String::new();
        if adoption.baseline.is_some() {
            b.append(" baselined=");
            b.append(decimal_text(adoption.suppressed).as_str());
        }
        let mut m = String::from_str(" rules_broken=");
        m.append(decimal_text(Self::rules_broken(offences)).as_str());
        let mut f = String::new();
        if fixed > 0 {
            f.append(" fixed=");
            f.append(decimal_text(fixed).as_str());
        }
        let mut t = String::new();
        if !(roster.skipped.len() == 0 && roster.unconfigured.len() == 0) {
            t.append(" rules_applied=");
            t.append(decimal_text(roster.applied.len()).as_str());
            t.append(" rules_skipped=");
            t.append(decimal_text(roster.skipped.len()).as_str());
            t.append(" rules_unconfigured=");
            t.append(decimal_text(roster.unconfigured.len()).as_str());
        }
        r.append(b.as_str());
        r.append(m.as_str());
        r.append(f.as_str());
        r.append(t.as_str());
        r.append("\n");
        assert(offence_views(offences@).len() == offences.len());
        assert(r@ =~= p1 + b@ + m@ + f@ + t@ + "\n"@);
        r
    }

    fn exclusion_text(excluded: &Vec<(String, usize)>) -> (r: Vec<String>)
        ensures
            views(r@) == exclusion_views(count_views(excluded@)),
    {
        let mut r: Vec<String> = Vec::new();
        let mut i: usize = 0;
        while i < excluded.len()
            invariant
                i <= excluded.len(),
                views(r@) == exclusion_views(count_views(excluded@)).take(i as int),
            decreases excluded.len() - i,
        {
            let mut t = excluded[i].0.clone();
            t.append(" (");
            t.append(decimal_text(excluded[i].1).as_str());
            t.append(" files)");
            proof {
                crate::text::lemma_views_push(r@, t);
            }
            r.push(t);
            assert(exclusion_views(count_views(excluded@)).take(i + 1) =~= exclusion_views(count_views(excluded@)).take(
                i as int,
            ).push(t@));
            i = i + 1;
        }
        assert(exclusion_views(count_views(excluded@)).take(excluded.len() as int) =~= exclusion_views(
            count_views(excluded@),
        ));
        r
    }

    /// How many files the patterns removed in all.
    pub fn files_excluded(excluded: &Vec<(String, usize)>) -> (n: usize)
        requires
            sum_totals(count_views(excluded@)) <= usize::MAX,
        ensures
            n == sum_totals(count_views(excluded@)),
    {
        let ghost all = count_views(excluded@);
        let mut n: usize = 0;
        let mut i: usize = 0;
        while i < excluded.len()
            invariant
                i <= excluded.len(),
                all == count_views(excluded@),
                sum_totals(all) <= usize::MAX,
                n == sum_totals(all.take(i as int)),
            decreases excluded.len() - i,
        {
            assert(all.take(i + 1).drop_last() =~= all.take(i as int));
            proof {
                lemma_sum_totals_prefix(all, i + 1);
            }
            n = n + excluded[i].1;
            i = i + 1;
        }
        assert(all.take(excluded.len() as int) =~= all);
        n
    }

    fn dead_patterns(excluded: &Vec<(String, usize)>) -> (r: Vec<String>)
        ensures
            views(r@) == dead_patterns(count_views(excluded@)),
    {
        let ghost all = count_views(excluded@);
        let mut r: Vec<String> = Vec::new();
        let mut i: usize = 0;
        while i < excluded.len()
            invariant
                i <= excluded.len(),
                all == count_views(excluded@),
                views(r@) == dead_patterns(all.take(i as int)),
            decreases excluded.len() - i,
        {
            assert(all.take(i + 1).drop_last() =~= all.take(i as int));
            if excluded[i].1 == 0 {
                let name = excluded[i].0.clone();
                proof {
                    crate::text::lemma_views_push(r@, name);
                }
                r.push(name);
            }
            i = i + 1;
        }
        assert(all.take(excluded.len() as int) =~= all);
        r
    }

    fn exclusion_part(adoption: &Adoption) -> (r: String)
        ensures
            r@ == (if adoption@.excluded.len() > 0 {
                "\n  excluded: "@ + join(exclusion_views(adoption@.excluded), ", "@) + "\n"@ + (if dead_patterns(
                    adoption@.excluded,
                ).len() > 0 {
                    dead_note(adoption@)
                } else {
                    Seq::<char>::empty()
                })
            } else {
                Seq::<char>::empty()
            }),
    {
        let mut r = String::new();
        if adoption.excluded.len() > 0 {
            r.append("\n  excluded: ");
            r.append(join_texts(&Self::exclusion_text(&adoption.excluded), ", ").as_str());
            r.append("\n");
            let ghost listed = r@;
            let dead = Self::dead_patterns(&adoption.excluded);
            if dead.len() > 0 {
                let mut note = String::from_str("  matched nothing: ");
                note.append(join_texts(&dead, ", ").as_str());
                note.append(" -- delete the pattern or correct it\n");
                assert(note@ =~= dead_note(adoption@));
                r.append(note.as_str());
            }
            assert(r@ =~= listed + (if dead_patterns(adoption@.excluded).len() > 0 {
                dead_note(adoption@)
            } else {
                Seq::<char>::empty()
            }));
        }
        r
    }

    fn baseline_part(adoption: &Adoption) -> (r: String)
        ensures
            r@ == (match adoption@.baseline {
                Some(path) => "\n  baseline: "@ + path + " ("@ + decimal(adoption@.suppressed) + " suppressed)\n"@ + (if adoption@.stale
                    > 0 {
                    stale_note(adoption@)
                } else {
                    Seq::<char>::empty()
                }),
                None => Seq::<char>::empty(),
            }),
    {
        let mut r = String::new();
        match &adoption.baseline {
            Some(path) => {
                r.append("\n  baseline: ");
                r.append(path.as_str());
                r.append(" (");
                r.append(decimal_text(adoption.suppressed).as_str());
                r.append(" suppressed)\n");
                let ghost named = r@;
                if adoption.stale > 0 {
                    let mut note = String::from_str("  ");
                    note.append(decimal_text(adoption.stale).as_str());
                    note.append(" baseline entries matched nothing -- rerun with --write-baseline to refresh it\n");
                    assert(note@ =~= stale_note(adoption@));
                    r.append(note.as_str());
                }
                assert(r@ =~= named + (if adoption@.stale > 0 {
                    stale_note(adoption@)
                } else {
                    Seq::<char>::empty()
                }));
            },
            None => {},
        }
        r
    }

    fn adoption_section(adoption: &Adoption) -> (r: String)
        ensures
            r@ == adoption_section(adoption@),
    {
        let mut r = Self::exclusion_part(adoption);
        let b = Self::baseline_part(adoption);
        r.append(b.as_str());
        r
    }

    fn findings(offences: &Vec<Offence>, threshold: usize, roster: &RuleRoster) -> (r: String)
        ensures
            r@ == (if offences@.len() == 0 {
                if every_rule_applied(*roster) { "All rules are satisfied.\n"@ } else { "All applied rules are satisfied.\n"@ }
            } else {
                table(offence_views(offences@).take(shown_count(offences@.len(), threshold as nat) as int))
                    + omitted_note(offences@.len(), threshold as nat)
            }),
    {
        if offences.len() == 0 {
            if roster.skipped.len() == 0 && roster.unconfigured.len() == 0 {
                String::from_str("All rules are satisfied.\n")
            } else {
                String::from_str("All applied rules are satisfied.\n")
            }
        } else {
            let n = Self::shown_count(offences.len(), threshold);
            let mut r = Self::table(offences, n);
            let ghost shown_part = r@;
            if n < offences.len() {
                r.append("\n... and ");
                r.append(decimal_text(offences.len() - n).as_str());
                r.append(" more offences not shown. Raise --offence-threshold (currently ");
                r.append(decimal_text(threshold).as_str());
                r.append(", use 0 for all) to see them.\n");
            }
            assert(r@ =~= shown_part + omitted_note(offences@.len(), threshold as nat));
            r
        }
    }

    fn trailer(config_file: &Option<String>, fixed: usize) -> (r: String)
        ensures
            r@ == (if fixed > 0 {
                "\n  fixed: "@ + decimal(fixed as nat) + " file(s) rewritten\n"@
            } else {
                Seq::<char>::empty()
            }) + (match config_file {
                Some(path) => "\n  config: "@ + path@ + "\n"@,
                None => Seq::<char>::empty(),
            }),
    {
        let mut r = String::new();
        if fixed > 0 {
            r.append("\n  fixed: ");
            r.append(decimal_text(fixed).as_str());
            r.append(" file(s) rewritten\n");
        }
        let ghost first = r@;
        match config_file {
            Some(path) => {
                r.append("\n  config: ");
                r.append(path.as_str());
                r.append("\n");
            },
            None => {},
        }
        assert(r@ =~= first + (match config_file {
            Some(path) => "\n  config: "@ + path@ + "\n"@,
            None => Seq::<char>::empty(),
        }));
        r
    }

    /// The text report of a run, its offences already in report order.
    pub fn render(
        files_scanned: usize,
        offences: &Vec<Offence>,
        threshold: usize,
        roster: &RuleRoster,
        adoption: &Adoption,
        config_file: &Option<String>,
        fixed: usize,
    ) -> (r: String)
        requires
            sum_totals(adoption@.excluded) <= usize::MAX,
        ensures
            r@ == text_report(
                files_scanned as nat,
                offence_views(offences@),
                threshold as nat,
                *roster,
                adoption@,
                match config_file {
                    Some(p) => Some(p@),
                    None => None,
                },
                fixed as nat,
            ),
    {
        let mut r = String::from_str("stern4rust report\n\n");
        let a = Self::findings(offences, threshold, roster);
        let b = Self::roster_section(roster);
        let e = Self::adoption_section(adoption);
        let c = Self::trailer(config_file, fixed);
        let d = Self::summary_line(files_scanned, offences, roster, adoption, fixed);
        r.append(a.as_str());
        r.append(b.as_str());
        r.append(e.as_str());
        r.append(c.as_str());
        r.append(d.as_str());
        assert(offence_views(offences@).len() == offences@.len());
        assert(r@ =~= "stern4rust report\n\n"@ + a@ + b@ + e@ + c@ + d@);
        r
    }
}

/// A hexadecimal digit.
pub open spec fn hex_digit(n: nat) -> char {
    if n < 10 { ((n + 48) as u32) as char } else { ((n + 87) as u32) as char }
}

/// One character as it stands inside a JSON string.
pub open spec fn json_char(c: char) -> Seq<char> {
    if c == '"' {
        seq!['\\', '"']
    } else if c == '\\' {
        seq!['\\', '\\']
    } else if c == '\n' {
        seq!['\\', 'n']
    } else if c == '\r' {
        seq!['\\', 'r']
    } else if c == '\t' {
        seq!['\\', 't']
    } else if (c as u32) < 0x20 {
        seq!['\\', 'u', '0', '0', hex_digit((c as u32 / 16) as nat), hex_digit((c as u32 % 16) as nat)]
    } else {
        seq![c]
    }
}

pub open spec fn json_escaped(s: Seq<char>) -> Seq<char>
    decreases s.len(),
{
    if s.len() == 0 {
        Seq::<char>::empty()
    } else {
        json_escaped(s.drop_last()) + json_char(s.last())
    }
}

/// A text as a JSON string.
pub open spec fn json_string(s: Seq<char>) -> Seq<char> {
    seq!['"'] + json_escaped(s) + seq!['"']
}

pub open spec fn json_option(o: Option<Seq<char>>) -> Seq<char> {
    match o {
        Some(s) => json_string(s),
        None => "null"@,
    }
}

/// Texts as a JSON array on one line.
pub open spec fn json_strings(s: Seq<Seq<char>>) -> Seq<char> {
    "["@ + join(s.map_values(|t: Seq<char>| json_string(t)), ", "@) + "]"@
}

pub open spec fn json_offence(o: OffenceView) -> Seq<char> {
    "    {\n      \"file\": "@ + json_string(o.file) + ",\n      \"line\": "@ + decimal(o.line)
        + ",\n      \"rule\": "@ + json_string(o.rule) + ",\n      \"description\": "@ + json_string(o.description)
        + ",\n      \"correction\": "@ + json_string(o.correction) + ",\n      \"subject\": "@ + json_option(o.subject)
        + ",\n      \"expected\": "@ + json_option(o.expected) + "\n    }"@
}

pub open spec fn json_exclusion(p: (Seq<char>, nat)) -> Seq<char> {
    "{\"pattern\": "@ + json_string(p.0) + ", \"files\": "@ + decimal(p.1) + "}"@
}

pub open spec fn json_exclusions(v: Seq<(Seq<char>, nat)>) -> Seq<char> {
    "["@ + join(v.map_values(|p: (Seq<char>, nat)| json_exclusion(p)), ", "@) + "]"@
}

/// The document of a run: its counts, its rules and every offence, each key
/// always present so the shape does not vary.
pub open spec fn json_report(
    files_scanned: nat,
    s: Seq<OffenceView>,
    roster: RuleRoster,
    adoption: AdoptionView,
    config_file: Option<Seq<char>>,
    fixed: nat,
) -> Seq<char> {
    json_counts(files_scanned, s, fixed) + json_rules(roster) + json_adoption(adoption, config_file) + json_offence_list(s)
}

pub open spec fn json_counts(files_scanned: nat, s: Seq<OffenceView>, fixed: nat) -> Seq<char> {
    "{\n  \"files_scanned\": "@ + decimal(files_scanned) + ",\n  \"offences_found\": "@ + decimal(s.len())
        + ",\n  \"rules_broken\": "@ + decimal(rules_broken(s)) + ",\n  \"fixed\": "@ + decimal(fixed)
}

pub open spec fn json_rules(roster: RuleRoster) -> Seq<char> {
    ",\n  \"rules_applied\": "@ + json_strings(views(roster.applied@)) + ",\n  \"rules_skipped\": "@ + json_strings(
        views(roster.skipped@),
    ) + ",\n  \"rules_unconfigured\": "@ + json_strings(unconfigured_views(roster.unconfigured@))
}

pub open spec fn json_adoption(adoption: AdoptionView, config_file: Option<Seq<char>>) -> Seq<char> {
    ",\n  \"config\": "@ + json_option(config_file) + ",\n  \"excluded\": "@ + json_exclusions(adoption.excluded)
        + ",\n  \"baseline\": "@ + json_option(adoption.baseline) + ",\n  \"baselined\": "@ + decimal(adoption.suppressed)
        + ",\n  \"baseline_stale\": "@ + decimal(adoption.stale)
}

pub open spec fn json_offence_list(s: Seq<OffenceView>) -> Seq<char> {
    ",\n  \"offences\": ["@ + (if s.len() == 0 {
        Seq::<char>::empty()
    } else {
        "\n"@ + join(s.map_values(|o: OffenceView| json_offence(o)), ",\n"@) + "\n  "@
    }) + "]\n}\n"@
}

pub fn hex_digit_char(n: u32) -> (c: char)
    requires
        n < 16,
    ensures
        c == hex_digit(n as nat),
{
    if n < 10 {
        ((n + 48) as u8) as char
    } else {
        ((n + 87) as u8) as char
    }
}

pub fn json_string_text(s: &str) -> (r: String)
    ensures
        r@ == json_string(s@),
{
    let v = crate::text::chars_of(s);
    let mut out: Vec<char> = Vec::new();
    out.push('"');
    let mut i: usize = 0;
    assert(out@ =~= seq!['"'] + json_escaped(s@.take(0)));
    while i < v.len()
        invariant
            i <= v.len(),
            v@ == s@,
            out@ == seq!['"'] + json_escaped(s@.take(i as int)),
        decreases v.len() - i,
    {
        assert(s@.take(i + 1).drop_last() =~= s@.take(i as int));
        assert(s@.take(i + 1).last() == v@[i as int]);
        let c = v[i];
        let code: u32 = c as u32;
        if c == '"' {
            out.push('\\');
            out.push('"');
        } else if c == '\\' {
            out.push('\\');
            out.push('\\');
        } else if c == '\n' {
            out.push('\\');
            out.push('n');
        } else if c == '\r' {
            out.push('\\');
            out.push('r');
        } else if c == '\t' {
            out.push('\\');
            out.push('t');
        } else if code < 0x20 {
            out.push('\\');
            out.push('u');
            out.push('0');
            out.push('0');
            out.push(hex_digit_char(code / 16));
            out.push(hex_digit_char(code % 16));
        } else {
            out.push(c);
        }
        assert(out@ =~= seq!['"'] + json_escaped(s@.take(i + 1)));
        i = i + 1;
    }
    out.push('"');
    assert(s@.take(v.len() as int) =~= s@);
    crate::text::string_of(out.as_slice())
}

impl ReportPrinter {
    fn json_option(o: &Option<String>) -> (r: String)
        ensures
            r@ == json_option(match o {
                Some(s) => Some(s@),
                None => None,
            }),
    {
        match o {
            Some(s) => json_string_text(s.as_str()),
            None => String::from_str("null"),
        }
    }

    fn json_exclusions(excluded: &Vec<(String, usize)>) -> (r: String)
        ensures
            r@ == json_exclusions(count_views(excluded@)),
    {
        let ghost all = count_views(excluded@).map_values(|p: (Seq<char>, nat)| json_exclusion(p));
        let mut objects: Vec<String> = Vec::new();
        let mut i: usize = 0;
        while i < excluded.len()
            invariant
                i <= excluded.len(),
                all == count_views(excluded@).map_values(|p: (Seq<char>, nat)| json_exclusion(p)),
                views(objects@) == all.take(i as int),
            decreases excluded.len() - i,
        {
            let mut t = String::from_str("{\"pattern\": ");
            t.append(json_string_text(excluded[i].0.as_str()).as_str());
            t.append(", \"files\": ");
            t.append(decimal_text(excluded[i].1).as_str());
            t.append("}");
            assert(t@ =~= json_exclusion(count_views(excluded@)[i as int]));
            proof {
                crate::text::lemma_views_push(objects@, t);
            }
            objects.push(t);
            assert(all.take(i + 1) =~= all.take(i as int).push(all[i as int]));
            i = i + 1;
        }
        assert(all.take(excluded.len() as int) =~= all);
        let mut r = String::from_str("[");
        r.append(join_texts(&objects, ", ").as_str());
        r.append("]");
        assert(r@ =~= json_exclusions(count_views(excluded@)));
        r
    }

    fn json_strings(v: &Vec<String>) -> (r: String)
        ensures
            r@ == json_strings(views(v@)),
    {
        let mut quoted: Vec<String> = Vec::new();
        let mut i: usize = 0;
        while i < v.len()
            invariant
                i <= v.len(),
                views(quoted@) == views(v@).take(i as int).map_values(|t: Seq<char>| json_string(t)),
            decreases v.len() - i,
        {
            let q = json_string_text(v[i].as_str());
            proof {
                crate::text::lemma_views_push(quoted@, q);
            }
            quoted.push(q);
            assert(views(v@).take(i + 1).map_values(|t: Seq<char>| json_string(t)) =~= views(v@).take(i as int).map_values(
                |t: Seq<char>| json_string(t),
            ).push(json_string(v@[i as int]@)));
            i = i + 1;
        }
        assert(views(v@).take(v.len() as int) =~= views(v@));
        let mut r = String::from_str("[");
        r.append(join_texts(&quoted, ", ").as_str());
        r.append("]");
        r
    }

    fn json_offence(o: &Offence) -> (r: String)
        ensures
            r@ == json_offence(o@),
    {
        let mut r = String::from_str("    {\n      \"file\": ");
        r.append(json_string_text(o.file.as_str()).as_str());
        r.append(",\n      \"line\": ");
        r.append(decimal_text(o.line).as_str());
        r.append(",\n      \"rule\": ");
        r.append(json_string_text(o.rule.as_str()).as_str());
        r.append(",\n      \"description\": ");
        r.append(json_string_text(o.description.as_str()).as_str());
        r.append(",\n      \"correction\": ");
        r.append(json_string_text(o.correction.as_str()).as_str());
        r.append(",\n      \"subject\": ");
        r.append(Self::json_option(&o.subject).as_str());
        r.append(",\n      \"expected\": ");
        r.append(Self::json_option(&o.expected).as_str());
        r.append("\n    }");
        r
    }

    fn json_offences(offences: &Vec<Offence>) -> (r: String)
        ensures
            r@ == join(offence_views(offences@).map_values(|o: OffenceView| json_offence(o)), ",\n"@),
    {
        let mut objects: Vec<String> = Vec::new();
        let ghost all = offence_views(offences@).map_values(|o: OffenceView| json_offence(o));
        let mut i: usize = 0;
        while i < offences.len()
            invariant
                i <= offences.len(),
                all == offence_views(offences@).map_values(|o: OffenceView| json_offence(o)),
                views(objects@) == all.take(i as int),
            decreases offences.len() - i,
        {
            let object = Self::json_offence(&offences[i]);
            proof {
                crate::text::lemma_views_push(objects@, object);
            }
            objects.push(object);
            assert(all.take(i + 1) =~= all.take(i as int).push(all[i as int]));
            i = i + 1;
        }
        assert(all.take(offences.len() as int) =~= all);
        join_texts(&objects, ",\n")
    }

    fn json_counts(files_scanned: usize, offences: &Vec<Offence>, fixed: usize) -> (r: String)
        ensures
            r@ == json_counts(files_scanned as nat, offence_views(offences@), fixed as nat),
    {
        let mut r = String::from_str("{\n  \"files_scanned\": ");
        r.append(decimal_text(files_scanned).as_str());
        r.append(",\n  \"offences_found\": ");
        r.append(decimal_text(offences.len()).as_str());
        r.append(",\n  \"rules_broken\": ");
        r.append(decimal_text(Self::rules_broken(offences)).as_str());
        r.append(",\n  \"fixed\": ");
        r.append(decimal_text(fixed).as_str());
        assert(offence_views(offences@).len() == offences@.len());
        assert(r@ =~= json_counts(files_scanned as nat, offence_views(offences@), fixed as nat));
        r
    }

    fn json_rules(roster: &RuleRoster) -> (r: String)
        ensures
            r@ == json_rules(*roster),
    {
        let mut r = String::from_str(",\n  \"rules_applied\": ");
        r.append(Self::json_strings(&roster.applied).as_str());
        r.append(",\n  \"rules_skipped\": ");
        r.append(Self::json_strings(&roster.skipped).as_str());
        r.append(",\n  \"rules_unconfigured\": ");
        r.append(Self::json_strings(&Self::unconfigured_text(&roster.unconfigured)).as_str());
        assert(r@ =~= json_rules(*roster));
        r
    }

    fn json_adoption(adoption: &Adoption, config_file: &Option<String>) -> (r: String)
        ensures
            r@ == json_adoption(
                adoption@,
                match config_file {
                    Some(p) => Some(p@),
                    None => None,
                },
            ),
    {
        let mut r = String::from_str(",\n  \"config\": ");
        r.append(Self::json_option(config_file).as_str());
        r.append(",\n  \"excluded\": ");
        r.append(Self::json_exclusions(&adoption.excluded).as_str());
        r.append(",\n  \"baseline\": ");
        r.append(Self::json_option(&adoption.baseline).as_str());
        r.append(",\n  \"baselined\": ");
        r.append(decimal_text(adoption.suppressed).as_str());
        r.append(",\n  \"baseline_stale\": ");
        r.append(decimal_text(adoption.stale).as_str());
        assert(r@ =~= json_adoption(
            adoption@,
            match config_file {
                Some(p) => Some(p@),
                None => None,
            },
        ));
        r
    }

    fn json_offence_list(offences: &Vec<Offence>) -> (r: String)
        ensures
            r@ == json_offence_list(offence_views(offences@)),
    {
        let mut r = String::from_str(",\n  \"offences\": [");
        if offences.len() > 0 {
            r.append("\n");
            r.append(Self::json_offences(offences).as_str());
            r.append("\n  ");
        }
        r.append("]\n}\n");
        assert(offence_views(offences@).len() == offences@.len());
        assert(r@ =~= json_offence_list(offence_views(offences@)));
        r
    }

    /// The JSON document of a run.
    pub fn render_json(
        files_scanned: usize,
        offences: &Vec<Offence>,
        roster: &RuleRoster,
        adoption: &Adoption,
        config_file: &Option<String>,
        fixed: usize,
    ) -> (r: String)
        ensures
            r@ == json_report(
                files_scanned as nat,
                offence_views(offences@),
                *roster,
                adoption@,
                match config_file {
                    Some(p) => Some(p@),
                    None => None,
                },
                fixed as nat,
            ),
    {
        let mut r = Self::json_counts(files_scanned, offences, fixed);
        r.append(Self::json_rules(roster).as_str());
        r.append(Self::json_adoption(adoption, config_file).as_str());
        r.append(Self::json_offence_list(offences).as_str());
        r
    }
}

} // verus!
