//! The decisions a run makes between reading the tree and printing the report.
//!
//! Exit codes are the whole contract with a gate script: 0 when every rule is
//! satisfied, 1 when the run could not happen at all, 2 when at least one rule
//! was broken. The line between 1 and 2 is whether the work can still be
//! enumerated.
use vstd::prelude::*;
use crate::offence::{offence_views, Offence, OffenceView};
use crate::baseline::{kept_upto, stale_count, Baseline};
use crate::rewrite_lines::made_of_lines;
use crate::rule_registry::{file_findings, flattened, tree_findings, RuleRegistry};
use crate::report::{count_views, sum_totals, json_report, text_report, summary_line, law_threshold_caps_only_what_is_shown, Adoption, AdoptionView, ReportPrinter, RuleRoster};
use crate::settings::config::{same_config, OutputFormat};
use crate::rules::test_file_structure_rule::structure_applies;
use crate::source_file::{normalised_lines, rejoined, SourceFile, SourceFileView};
use crate::syntax::{parse_failure, ItemOutline};
use crate::test_file_parser::test_items;
use crate::test_file_rewriter::{owed_rewrite, rewritten, text_of, TestFileRewriter};
use crate::paths::{join_path, parent, parent_of, path_join};
use crate::settings::args::Args;
use crate::settings::config::Config;
use crate::settings::config_file::{joined_option, option_text, ConfigFile};
use crate::settings::package_config::PackageConfig;
use crate::settings::rule_selection::{copy_all, not_known, str_views, RuleSelection};
use crate::text::{
    decimal, forward_slashes, join, join_texts, lemma_views_push, same_text, text_at_most, text_le,
    views, with_forward_slashes,
};

verus! {

/// How a run ended, which is what decides the exit code.
#[derive(Clone, Copy, Debug, PartialEq, Eq, Structural)]
pub enum RunOutcome {
    /// Every applied rule satisfied.
    Clean,
    /// At least one rule broken.
    Broken,
}

impl RunOutcome {
    pub fn of(offences: usize) -> (r: RunOutcome)
        ensures
            r == (if offences == 0 { RunOutcome::Clean } else { RunOutcome::Broken }),
    {
        if offences == 0 { RunOutcome::Clean } else { RunOutcome::Broken }
    }

    pub fn exit_code(&self) -> (code: i32)
        ensures
            code == (if *self == RunOutcome::Clean { 0i32 } else { 2i32 }),
    {
        match self {
            RunOutcome::Clean => 0,
            RunOutcome::Broken => 2,
        }
    }
}

pub open spec fn strings_of(o: Option<&Vec<String>>) -> Option<Seq<Seq<char>>> {
    match o {
        Some(v) => Some(views(v@)),
        None => None,
    }
}

/// A section states its whole list rather than adding to the root's; an
/// empty one says nothing.
pub open spec fn section_or_root_list(section: Option<Seq<Seq<char>>>, root: Option<Seq<Seq<char>>>) -> Option<Seq<Seq<char>>> {
    match section {
        Some(values) => if values.len() != 0 { Some(values) } else { root },
        None => root,
    }
}

/// The command line wins over the file when it says anything at all.
pub open spec fn preferred_list(from_args: Seq<Seq<char>>, from_file: Option<Seq<Seq<char>>>) -> Seq<Seq<char>> {
    if from_args.len() != 0 {
        from_args
    } else {
        match from_file {
            Some(values) => values,
            None => Seq::<Seq<char>>::empty(),
        }
    }
}

pub open spec fn first_some<T>(a: Option<T>, b: Option<T>) -> Option<T> {
    match a {
        Some(x) => Some(x),
        None => b,
    }
}

pub open spec fn section_list(section: Option<&PackageConfig>, which: int) -> Option<Seq<Seq<char>>> {
    match section {
        Some(s) => Some(views(if which == 0 { s.rules@ } else if which == 1 { s.skip@ } else { s.exclude@ })),
        None => None,
    }
}

pub open spec fn file_list(found: Option<&ConfigFile>, which: int) -> Option<Seq<Seq<char>>> {
    match found {
        Some(f) => Some(views(if which == 0 { f.rules@ } else if which == 1 { f.skip@ } else { f.exclude@ })),
        None => None,
    }
}

pub open spec fn section_header(section: Option<&PackageConfig>, directory: Seq<char>) -> Option<Seq<char>> {
    match section {
        Some(s) => joined_option(directory, s.header_file),
        None => None,
    }
}

pub open spec fn file_header(found: Option<&ConfigFile>, directory: Seq<char>) -> Option<Seq<char>> {
    match found {
        Some(f) => joined_option(directory, f.header_file),
        None => None,
    }
}

/// The header file a run reads: the command line's, else the package
/// section's, else the configuration file's.
pub open spec fn header_file_choice(
    args: &Args,
    section: Option<&PackageConfig>,
    found: Option<&ConfigFile>,
    directory: Seq<char>,
) -> Option<Seq<char>> {
    first_some(option_text(args.header_file), first_some(section_header(section, directory), file_header(found, directory)))
}

pub open spec fn baseline_name() -> Seq<char> {
    "stern4rust-baseline.json"@
}

/// The default baseline beside the manifest: the destination whenever one is
/// being written, and otherwise only where it exists.
pub open spec fn discovered(directory: Seq<char>, writing: bool, present: bool) -> Option<Seq<char>> {
    if writing || present { Some(path_join(directory, baseline_name())) } else { None }
}

pub open spec fn baseline_choice(
    args: &Args,
    found: Option<&ConfigFile>,
    directory: Seq<char>,
    present: bool,
) -> Option<Seq<char>> {
    first_some(
        option_text(args.baseline),
        first_some(
            match found {
                Some(f) => joined_option(directory, f.baseline),
                None => None,
            },
            discovered(directory, args.write_baseline, present),
        ),
    )
}

pub open spec fn limit_choice(section: Option<usize>, file: Option<usize>) -> Option<usize> {
    first_some(section, file)
}

pub open spec fn threshold_choice(args: &Args, found: Option<&ConfigFile>) -> usize {
    match args.offence_threshold {
        Some(t) => t,
        None => match found {
            Some(f) => match f.offence_threshold {
                Some(t) => t,
                None => 100,
            },
            None => 100,
        },
    }
}

pub open spec fn list_choice(
    from_args: Seq<Seq<char>>,
    section: Option<&PackageConfig>,
    found: Option<&ConfigFile>,
    which: int,
) -> Seq<Seq<char>> {
    preferred_list(from_args, section_or_root_list(section_list(section, which), file_list(found, which)))
}

/// The command line wins over the file, every time and per setting: a list
/// given on the command line is the run's list whatever the package section or
/// the root of `stern4rust.toml` says, and only a silent command line lets the
/// file speak, the package section first.
pub proof fn law_the_command_line_wins(
    from_args: Seq<Seq<char>>,
    section: Option<&PackageConfig>,
    found: Option<&ConfigFile>,
    which: int,
)
    ensures
        from_args.len() != 0 ==> list_choice(from_args, section, found, which) == from_args,
        from_args.len() == 0 ==> list_choice(from_args, section, found, which) == match section_list(section, which) {
            Some(values) if values.len() != 0 => values,
            _ => match file_list(found, which) {
                Some(values) => values,
                None => Seq::<Seq<char>>::empty(),
            },
        },
{
}

pub open spec fn unknown_rules_message(unknown: Seq<Seq<char>>, known: Seq<Seq<char>>) -> Seq<char> {
    "unknown rule name(s): "@ + join(unknown, ", "@) + " -- the rules are: "@ + join(known, ", "@)
}

pub open spec fn header_needs_file_message() -> Seq<char> {
    "--rule header needs --header-file, otherwise the run would apply no rules at all"@
}

/// Where a pattern first sits among the totals.
pub open spec fn pattern_index(totals: Seq<(Seq<char>, nat)>, pattern: Seq<char>) -> Option<int>
    decreases totals.len(),
{
    if totals.len() == 0 {
        None
    } else if totals[0].0 == pattern {
        Some(0)
    } else {
        match pattern_index(totals.drop_first(), pattern) {
            Some(i) => Some(i + 1),
            None => None,
        }
    }
}

/// The totals so far with one more count added under its pattern: summed
/// where the pattern is already there, appended where it is new.
pub open spec fn add_count(totals: Seq<(Seq<char>, nat)>, pattern: Seq<char>, count: nat) -> Seq<(Seq<char>, nat)> {
    match pattern_index(totals, pattern) {
        Some(i) => totals.update(i, (pattern, totals[i].1 + count)),
        None => totals.push((pattern, count)),
    }
}

pub open spec fn sum_counts(counts: Seq<(String, usize)>) -> nat
    decreases counts.len(),
{
    if counts.len() == 0 { 0 } else { sum_counts(counts.drop_last()) + counts.last().1 as nat }
}

pub open spec fn sum_all(per_root: Seq<Vec<(String, usize)>>) -> nat
    decreases per_root.len(),
{
    if per_root.len() == 0 { 0 } else { sum_all(per_root.drop_last()) + sum_counts(per_root.last()@) }
}

pub proof fn lemma_pattern_index(totals: Seq<(Seq<char>, nat)>, pattern: Seq<char>)
    ensures
        match pattern_index(totals, pattern) {
            Some(i) => 0 <= i < totals.len() && totals[i].0 == pattern
                && forall|j: int| 0 <= j < i ==> totals[j].0 != pattern,
            None => forall|j: int| 0 <= j < totals.len() ==> totals[j].0 != pattern,
        },
    decreases totals.len(),
{
    if totals.len() > 0 && totals[0].0 != pattern {
        lemma_pattern_index(totals.drop_first(), pattern);
        match pattern_index(totals.drop_first(), pattern) {
            Some(i) => {
                assert forall|j: int| 0 <= j < i + 1 implies totals[j].0 != pattern by {
                    if j > 0 {
                        assert(totals[j] == totals.drop_first()[j - 1]);
                    }
                }
            },
            None => {
                assert forall|j: int| 0 <= j < totals.len() implies totals[j].0 != pattern by {
                    if j > 0 {
                        assert(totals[j] == totals.drop_first()[j - 1]);
                    }
                }
            },
        }
    }
}

pub proof fn lemma_sum_update(totals: Seq<(Seq<char>, nat)>, i: int, entry: (Seq<char>, nat))
    requires
        0 <= i < totals.len(),
    ensures
        sum_totals(totals.update(i, entry)) + totals[i].1 == sum_totals(totals) + entry.1,
    decreases totals.len(),
{
    let updated = totals.update(i, entry);
    if i == totals.len() - 1 {
        assert(updated.drop_last() == totals.drop_last());
    } else {
        lemma_sum_update(totals.drop_last(), i, entry);
        assert(updated.drop_last() == totals.drop_last().update(i, entry));
    }
}

pub proof fn lemma_entry_within_sum(totals: Seq<(Seq<char>, nat)>, i: int)
    requires
        0 <= i < totals.len(),
    ensures
        totals[i].1 <= sum_totals(totals),
    decreases totals.len(),
{
    if i < totals.len() - 1 {
        lemma_entry_within_sum(totals.drop_last(), i);
    }
}

pub proof fn lemma_add_count_sum(totals: Seq<(Seq<char>, nat)>, pattern: Seq<char>, count: nat)
    ensures
        sum_totals(add_count(totals, pattern, count)) == sum_totals(totals) + count,
{
    lemma_pattern_index(totals, pattern);
    match pattern_index(totals, pattern) {
        Some(i) => {
            lemma_sum_update(totals, i, (pattern, totals[i].1 + count));
        },
        None => {
            assert(totals.push((pattern, count)).drop_last() == totals);
        },
    }
}

pub open spec fn add_counts(totals: Seq<(Seq<char>, nat)>, counts: Seq<(String, usize)>) -> Seq<(Seq<char>, nat)>
    decreases counts.len(),
{
    if counts.len() == 0 {
        totals
    } else {
        add_count(add_counts(totals, counts.drop_last()), counts.last().0@, counts.last().1 as nat)
    }
}

/// Every root's counts summed per pattern, patterns in the order first seen.
pub open spec fn merged_counts(per_root: Seq<Vec<(String, usize)>>) -> Seq<(Seq<char>, nat)>
    decreases per_root.len(),
{
    if per_root.len() == 0 {
        Seq::<(Seq<char>, nat)>::empty()
    } else {
        add_counts(merged_counts(per_root.drop_last()), per_root.last()@)
    }
}

/// The same offences, each stated once, in the order first found.
pub open spec fn first_occurrences(s: Seq<OffenceView>) -> Seq<OffenceView>
    decreases s.len(),
{
    if s.len() == 0 {
        s
    } else if s.drop_last().contains(s.last()) {
        first_occurrences(s.drop_last())
    } else {
        first_occurrences(s.drop_last()).push(s.last())
    }
}

/// Where an offence stands in a report: by file, then by line.
pub open spec fn placed_no_later(a: OffenceView, b: OffenceView) -> bool {
    text_le(a.file, b.file) && (a.file == b.file ==> a.line <= b.line)
}

/// How many of the leading offences stand no later than `o`.
pub open spec fn place_for(sorted: Seq<OffenceView>, o: OffenceView) -> nat
    decreases sorted.len(),
{
    if sorted.len() > 0 && placed_no_later(sorted[0], o) {
        1 + place_for(sorted.drop_first(), o)
    } else {
        0
    }
}

/// The offences in report order: by file, then by line, ties in the order
/// found.
pub open spec fn in_report_order(s: Seq<OffenceView>) -> Seq<OffenceView>
    decreases s.len(),
{
    if s.len() == 0 {
        s
    } else {
        let sorted = in_report_order(s.drop_last());
        sorted.insert(place_for(sorted, s.last()) as int, s.last())
    }
}

pub open spec fn report_sorted(s: Seq<OffenceView>) -> bool {
    forall|i: int, j: int| 0 <= i < j < s.len() ==> placed_no_later(#[trigger] s[i], #[trigger] s[j])
}

/// Every package's findings, each package's stated once, one package after
/// another.
pub open spec fn all_findings(per_package: Seq<Vec<Offence>>) -> Seq<OffenceView>
    decreases per_package.len(),
{
    if per_package.len() == 0 {
        Seq::<OffenceView>::empty()
    } else {
        all_findings(per_package.drop_last()) + first_occurrences(offence_views(per_package.last()@))
    }
}

/// The offences a baseline leaves of a run, or all of them without one.
pub open spec fn unsuppressed(baseline: Option<&Baseline>, s: Seq<OffenceView>) -> Seq<OffenceView> {
    match baseline {
        Some(b) => kept_upto(b.entries(), s, s.len() as int),
        None => s,
    }
}

/// What a report says a run left out: the exclusion counts summed across
/// packages, and the baseline as named, with what it suppressed and how many
/// of its entries matched nothing.
pub open spec fn adoption_of(
    config: &Config,
    excluded: Seq<Vec<(String, usize)>>,
    baseline: Option<&Baseline>,
    s: Seq<OffenceView>,
) -> AdoptionView {
    AdoptionView {
        excluded: merged_counts(excluded),
        baseline: match config.baseline {
            Some(p) => Some(forward_slashes(p@)),
            None => None,
        },
        suppressed: (s.len() - unsuppressed(baseline, s).len()) as nat,
        stale: match baseline {
            Some(b) => stale_count(b.entries(), s),
            None => 0,
        },
    }
}

/// The report of a run in the format asked for.
pub open spec fn report_of(
    config: &Config,
    files_scanned: nat,
    s: Seq<OffenceView>,
    roster: RuleRoster,
    adoption: AdoptionView,
    fixed: nat,
) -> Seq<char> {
    let config_file = match config.config_file {
        Some(p) => Some(forward_slashes(p@)),
        None => None,
    };
    match config.format {
        OutputFormat::Text => text_report(
            files_scanned,
            s,
            config.offence_threshold as nat,
            roster,
            adoption,
            config_file,
            fixed,
        ),
        OutputFormat::Json => json_report(files_scanned, s, roster, adoption, config_file, fixed),
    }
}

/// What a repair did to one file: exactly the rewrite the rewriter owes it,
/// if any, with the file then read from the rewritten contents.
pub open spec fn repaired(before: SourceFileView, after: SourceFileView, rewrite: Option<String>) -> bool {
    &&& text_of(rewrite) == owed_rewrite(before)
    &&& match rewrite {
        None => after == before,
        Some(contents) => {
            &&& made_of_lines(contents@, before.lines)
            &&& after.path == before.path
            &&& after.lines == normalised_lines(contents@)
        },
    }
}

/// How many of the rewrites were made.
pub open spec fn rewrite_count(rewrites: Seq<Option<String>>) -> nat
    decreases rewrites.len(),
{
    if rewrites.len() == 0 {
        0
    } else {
        rewrite_count(rewrites.drop_last()) + if rewrites.last() is Some { 1nat } else { 0nat }
    }
}

/// A package's files after the mechanical repairs, with each file's rewrite
/// to be written back, if it had one.
pub struct Repair {
    pub files: Vec<SourceFile>,
    pub rewrites: Vec<Option<String>>,
    pub fixed: usize,
}

/// Why a run that would apply no rule stops.
pub open spec fn no_rules_message() -> Seq<char> {
    "no rules are configured, so nothing would be checked -- pass --header-file to enable the header rule"@
}

/// What a run does next.
pub enum RunStep {
    /// List every rule and stop: the listing needs no tree to answer.
    ListRules,
    /// Read the configuration and the workspace, and build the registry.
    Configure,
    /// Stop with this error.
    Refuse(String),
    /// Judge the package at this index among the ones chosen.
    JudgePackage(usize),
    /// Record the offences found as the baseline, and exit clean.
    RecordBaseline,
    /// Report the offences found.
    Report,
}

/// The threshold changes only what a report shows: two runs configured alike
/// but for the threshold give the same document, or, as text, end in the same
/// summary, which states every offence. The outcome of a run is decided
/// without it (`Runner::run_reporting`).
pub proof fn law_the_threshold_changes_only_what_is_shown(
    first: Config,
    second: Config,
    files_scanned: nat,
    s: Seq<OffenceView>,
    roster: RuleRoster,
    adoption: AdoptionView,
    fixed: nat,
)
    requires
        same_config(first, Config { offence_threshold: first.offence_threshold, ..second }),
    ensures
        first.format == OutputFormat::Json ==> report_of(&first, files_scanned, s, roster, adoption, fixed)
            == report_of(&second, files_scanned, s, roster, adoption, fixed),
        first.format == OutputFormat::Text ==> ({
            let summary = summary_line(files_scanned, s, roster, adoption, fixed);
            let a = report_of(&first, files_scanned, s, roster, adoption, fixed);
            let b = report_of(&second, files_scanned, s, roster, adoption, fixed);
            &&& a.len() >= summary.len() && a.subrange(a.len() - summary.len(), a.len() as int) == summary
            &&& b.len() >= summary.len() && b.subrange(b.len() - summary.len(), b.len() as int) == summary
        }),
{
    let config_file = match first.config_file {
        Some(p) => Some(forward_slashes(p@)),
        None => None,
    };
    assert(config_file == match second.config_file {
        Some(p) => Some(forward_slashes(p@)),
        None => None,
    });
    law_threshold_caps_only_what_is_shown(files_scanned, s, first.offence_threshold as nat, roster, adoption, config_file, fixed);
    law_threshold_caps_only_what_is_shown(files_scanned, s, second.offence_threshold as nat, roster, adoption, config_file, fixed);
}

pub struct Runner;

impl Runner {
    pub const BASELINE_NAME: &'static str = "stern4rust-baseline.json";
    pub const HEADER_RULE: &'static str = "header";

    /// A misspelled rule name is an error rather than a switch that quietly
    /// matches nothing, and asking for the header rule without a header file
    /// is an error rather than an empty run.
    pub fn validate_selection(config: &Config, known: &[&str]) -> (r: Result<(), String>)
        ensures
            not_known(config.selection@.selected + config.selection@.skipped, str_views(known@)).len() > 0
                ==> r is Err && r->Err_0@ == unknown_rules_message(
                    not_known(config.selection@.selected + config.selection@.skipped, str_views(known@)),
                    str_views(known@),
                ),
            not_known(config.selection@.selected + config.selection@.skipped, str_views(known@)).len() == 0
                && config.selection@.selected.contains("header"@) && config.expected_header.len() == 0
                ==> r is Err && r->Err_0@ == header_needs_file_message(),
            not_known(config.selection@.selected + config.selection@.skipped, str_views(known@)).len() == 0
                && !(config.selection@.selected.contains("header"@) && config.expected_header.len() == 0)
                ==> r is Ok,
    {
        let unknown = config.selection.unknown_in(known);
        if unknown.len() > 0 {
            let mut names: Vec<String> = Vec::new();
            let mut i: usize = 0;
            while i < known.len()
                invariant
                    i <= known.len(),
                    views(names@) == str_views(known@).take(i as int),
                decreases known.len() - i,
            {
                let c = String::from_str(known[i]);
                proof {
                    lemma_views_push(names@, c);
                }
                names.push(c);
                i = i + 1;
                assert(views(names@) =~= str_views(known@).take(i as int));
            }
            assert(str_views(known@).take(known.len() as int) == str_views(known@));
            let mut message = String::from_str("unknown rule name(s): ");
            message.append(join_texts(&unknown, ", ").as_str());
            message.append(" -- the rules are: ");
            message.append(join_texts(&names, ", ").as_str());
            return Err(message);
        }
        if config.selection.selects_explicitly(Self::HEADER_RULE) && config.expected_header.len() == 0 {
            proof {
                reveal_strlit("header");
            }
            return Err(String::from_str("--rule header needs --header-file, otherwise the run would apply no rules at all"));
        }
        proof {
            reveal_strlit("header");
        }
        Ok(())
    }

    pub fn section_or_root<'a>(
        section: Option<&'a Vec<String>>,
        root: Option<&'a Vec<String>>,
    ) -> (r: Option<&'a Vec<String>>)
        ensures
            strings_of(r) == section_or_root_list(strings_of(section), strings_of(root)),
    {
        match section {
            Some(values) => if values.len() != 0 { Some(values) } else { root },
            None => root,
        }
    }

    pub fn preferred(from_args: Vec<String>, from_file: Option<&Vec<String>>) -> (r: Vec<String>)
        ensures
            views(r@) == preferred_list(views(from_args@), strings_of(from_file)),
            from_args@.len() != 0 ==> views(r@) == views(from_args@),
    {
        if from_args.len() != 0 {
            return from_args;
        }
        match from_file {
            Some(values) => copy_all(values),
            None => {
                let r: Vec<String> = Vec::new();
                assert(views(r@) =~= Seq::<Seq<char>>::empty());
                r
            },
        }
    }

    pub fn header_file_for(
        args: &Args,
        section: Option<&PackageConfig>,
        found: Option<&ConfigFile>,
        directory: &str,
    ) -> (r: Option<String>)
        ensures
            option_text(r) == header_file_choice(args, section, found, directory@),
    {
        match &args.header_file {
            Some(path) => return Some(path.clone()),
            None => {},
        }
        match section {
            Some(s) => match s.header_file_from(directory) {
                Some(path) => return Some(path),
                None => {},
            },
            None => {},
        }
        match found {
            Some(f) => f.header_file_from(directory),
            None => None,
        }
    }

    pub fn discovered_baseline(directory: &str, writing: bool, present: bool) -> (r: Option<String>)
        ensures
            option_text(r) == discovered(directory@, writing, present),
    {
        if writing || present {
            Some(join_path(directory, Self::BASELINE_NAME))
        } else {
            None
        }
    }

    fn optional_copy(o: &Option<String>) -> (r: Option<String>)
        ensures
            option_text(r) == option_text(*o),
    {
        match o {
            Some(s) => Some(s.clone()),
            None => None,
        }
    }

    /// The command line wins over the file, every time and per setting; a
    /// package's own section wins over the root of the file.
    pub fn config_from(
        args: &Args,
        section: Option<&PackageConfig>,
        found: Option<&ConfigFile>,
        directory: &str,
        expected_header: Vec<String>,
        baseline_present: bool,
    ) -> (r: Config)
        ensures
            r.manifest_license.is_none(),
            r.workspace_dependencies.is_none(),
            option_text(r.baseline) == baseline_choice(args, found, directory@, baseline_present),
            r.write_baseline == args.write_baseline,
            r.fix == args.fix,
            option_text(r.config_file) == (if found.is_some() { Some(path_join(directory@, "stern4rust.toml"@)) } else { None }),
            option_text(r.manifest_path) == option_text(args.manifest_path),
            r.max_files_per_directory == limit_choice(
                match section { Some(s) => s.max_files_per_directory, None => None },
                match found { Some(f) => f.max_files_per_directory, None => None },
            ),
            r.max_subfolders_per_directory == limit_choice(
                match section { Some(s) => s.max_subfolders_per_directory, None => None },
                match found { Some(f) => f.max_subfolders_per_directory, None => None },
            ),
            views(r.packages@) == views(args.packages@),
            views(r.excludes@) == list_choice(views(args.excludes@), section, found, 2),
            views(r.expected_header@) == views(expected_header@),
            r.format == args.format,
            r.offence_threshold == threshold_choice(args, found),
            r.selection@.selected == list_choice(views(args.rules@), section, found, 0),
            r.selection@.skipped == list_choice(views(args.skipped_rules@), section, found, 1),
            args.rules@.len() != 0 ==> r.selection@.selected == views(args.rules@),
            args.skipped_rules@.len() != 0 ==> r.selection@.skipped == views(args.skipped_rules@),
            args.excludes@.len() != 0 ==> views(r.excludes@) == views(args.excludes@),
    {
        proof {
            law_the_command_line_wins(views(args.rules@), section, found, 0);
            law_the_command_line_wins(views(args.skipped_rules@), section, found, 1);
            law_the_command_line_wins(views(args.excludes@), section, found, 2);
        }
        let baseline = match &args.baseline {
            Some(path) => Some(path.clone()),
            None => match found {
                Some(f) => match f.baseline_from(directory) {
                    Some(path) => Some(path),
                    None => Self::discovered_baseline(directory, args.write_baseline, baseline_present),
                },
                None => Self::discovered_baseline(directory, args.write_baseline, baseline_present),
            },
        };
        let threshold = match args.offence_threshold {
            Some(t) => t,
            None => match found {
                Some(f) => match f.offence_threshold {
                    Some(t) => t,
                    None => Config::DEFAULT_THRESHOLD,
                },
                None => Config::DEFAULT_THRESHOLD,
            },
        };
        let config_file = match found {
            Some(_) => Some(join_path(directory, ConfigFile::NAME)),
            None => None,
        };
        let max_files = match section {
            Some(s) => match s.max_files_per_directory {
                Some(n) => Some(n),
                None => match found { Some(f) => f.max_files_per_directory, None => None },
            },
            None => match found { Some(f) => f.max_files_per_directory, None => None },
        };
        let max_subfolders = match section {
            Some(s) => match s.max_subfolders_per_directory {
                Some(n) => Some(n),
                None => match found { Some(f) => f.max_subfolders_per_directory, None => None },
            },
            None => match found { Some(f) => f.max_subfolders_per_directory, None => None },
        };
        let excludes = Self::preferred(
            copy_all(&args.excludes),
            Self::section_or_root(
                match section { Some(s) => Some(&s.exclude), None => None },
                match found { Some(f) => Some(&f.exclude), None => None },
            ),
        );
        let selected = Self::preferred(
            copy_all(&args.rules),
            Self::section_or_root(
                match section { Some(s) => Some(&s.rules), None => None },
                match found { Some(f) => Some(&f.rules), None => None },
            ),
        );
        let skipped = Self::preferred(
            copy_all(&args.skipped_rules),
            Self::section_or_root(
                match section { Some(s) => Some(&s.skip), None => None },
                match found { Some(f) => Some(&f.skip), None => None },
            ),
        );
        proof {
            reveal_strlit("stern4rust.toml");
        }
        Config {
            manifest_license: None,
            workspace_dependencies: None,
            baseline,
            write_baseline: args.write_baseline,
            fix: args.fix,
            config_file,
            manifest_path: Self::optional_copy(&args.manifest_path),
            max_files_per_directory: max_files,
            max_subfolders_per_directory: max_subfolders,
            packages: copy_all(&args.packages),
            excludes,
            expected_header,
            format: args.format,
            offence_threshold: threshold,
            selection: RuleSelection::new(selected, skipped),
        }
    }

    /// The configuration lives beside the manifest it configures.
    pub fn manifest_directory(manifest_path: &Option<String>) -> (r: String)
        ensures
            r@ == (match *manifest_path {
                Some(p) => match parent_of(p@) {
                    Some(d) => d,
                    None => "."@,
                },
                None => "."@,
            }),
    {
        match manifest_path {
            Some(p) => match parent(p.as_str()) {
                Some(d) => d,
                None => String::from_str("."),
            },
            None => String::from_str("."),
        }
    }

    pub fn owned(names: &[&str]) -> (r: Vec<String>)
        ensures
            views(r@) == str_views(names@),
    {
        let mut r: Vec<String> = Vec::new();
        let mut i: usize = 0;
        while i < names.len()
            invariant
                i <= names.len(),
                views(r@) == str_views(names@).take(i as int),
            decreases names.len() - i,
        {
            let c = String::from_str(names[i]);
            proof {
                lemma_views_push(r@, c);
            }
            r.push(c);
            i = i + 1;
            assert(views(r@) =~= str_views(names@).take(i as int));
        }
        assert(str_views(names@).take(names.len() as int) == str_views(names@));
        r
    }

    fn shown_path(path: &Option<String>) -> (r: Option<String>)
        ensures
            option_text(r) == (match *path {
                Some(p) => Some(forward_slashes(p@)),
                None => None,
            }),
    {
        match path {
            Some(p) => Some(with_forward_slashes(p.as_str())),
            None => None,
        }
    }

    /// The baseline in force, as the report names it.
    pub fn baseline_shown(config: &Config) -> (r: Option<String>)
        ensures
            option_text(r) == (match config.baseline {
                Some(p) => Some(forward_slashes(p@)),
                None => None,
            }),
    {
        Self::shown_path(&config.baseline)
    }

    /// The configuration file in force, as the report names it.
    pub fn shown(config: &Config) -> (r: Option<String>)
        ensures
            option_text(r) == (match config.config_file {
                Some(p) => Some(forward_slashes(p@)),
                None => None,
            }),
    {
        Self::shown_path(&config.config_file)
    }

    /// One package's exclusions say nothing on their own, so the counts are
    /// summed across roots, each pattern once, in the order first seen.
    pub fn merged(per_root: Vec<Vec<(String, usize)>>) -> (r: Vec<(String, usize)>)
        requires
            sum_all(per_root@) <= usize::MAX,
        ensures
            count_views(r@) == merged_counts(per_root@),
            sum_totals(count_views(r@)) == sum_all(per_root@),
    {
        let mut totals: Vec<(String, usize)> = Vec::new();
        let mut k: usize = 0;
        assert(per_root@.take(0) =~= Seq::<Vec<(String, usize)>>::empty());
        assert(count_views(totals@) =~= Seq::<(Seq<char>, nat)>::empty());
        while k < per_root.len()
            invariant
                k <= per_root.len(),
                sum_all(per_root@) <= usize::MAX,
                count_views(totals@) == merged_counts(per_root@.take(k as int)),
                sum_totals(count_views(totals@)) == sum_all(per_root@.take(k as int)),
            decreases per_root.len() - k,
        {
            let counts = &per_root[k];
            let ghost base = count_views(totals@);
            let mut c: usize = 0;
            assert(counts@.take(0) =~= Seq::<(String, usize)>::empty());
            proof {
                lemma_sum_all_prefix(per_root@, k + 1);
                assert(per_root@.take(k + 1).drop_last() == per_root@.take(k as int));
                assert(per_root@.take(k + 1).last() == per_root@[k as int]);
            }
            while c < counts.len()
                invariant
                    c <= counts.len(),
                    counts == &per_root@[k as int],
                    sum_all(per_root@.take(k as int)) + sum_counts(counts@) <= usize::MAX,
                    count_views(totals@) == add_counts(base, counts@.take(c as int)),
                    sum_totals(count_views(totals@)) == sum_totals(base) + sum_counts(counts@.take(c as int)),
                    sum_totals(base) == sum_all(per_root@.take(k as int)),
                decreases counts.len() - c,
            {
                let ghost before = count_views(totals@);
                let pattern = &counts[c].0;
                let count = counts[c].1;
                proof {
                    assert(counts@.take(c + 1).drop_last() == counts@.take(c as int));
                    assert(counts@.take(c + 1).last() == counts@[c as int]);
                    lemma_sum_counts_prefix(counts@, c + 1);
                    lemma_add_count_sum(before, pattern@, count as nat);
                    lemma_pattern_index(before, pattern@);
                }
                let mut i: usize = 0;
                while i < totals.len() && !same_text(totals[i].0.as_str(), pattern.as_str())
                    invariant
                        i <= totals.len(),
                        before == count_views(totals@),
                        forall|j: int| 0 <= j < i ==> before[j].0 != pattern@,
                    decreases totals.len() - i,
                {
                    i = i + 1;
                }
                if i < totals.len() {
                    proof {
                        lemma_entry_within_sum(before, i as int);
                        if pattern_index(before, pattern@) != Some(i as int) {
                            let m = pattern_index(before, pattern@).unwrap();
                            assert(before[i as int].0 == pattern@);
                        }
                    }
                    let total = totals[i].1 + count;
                    let name = totals[i].0.clone();
                    totals.set(i, (name, total));
                    assert(count_views(totals@) =~= before.update(i as int, (pattern@, before[i as int].1 + count as nat)));
                } else {
                    totals.push((pattern.clone(), count));
                    assert(count_views(totals@) =~= before.push((pattern@, count as nat)));
                }
                c = c + 1;
            }
            assert(counts@.take(counts.len() as int) == counts@);
            k = k + 1;
        }
        assert(per_root@.take(per_root.len() as int) == per_root@);
        totals
    }

    /// Repairs what can be repaired mechanically: each file the rewriter has
    /// something to change is read again from its new contents, and the new
    /// contents are handed back to be written; every other file stays as it
    /// was.
    pub fn repair(files: Vec<SourceFile>) -> (r: Repair)
        ensures
            r.files@.len() == files@.len(),
            r.rewrites@.len() == files@.len(),
            forall|i: int| 0 <= i < files@.len() ==> repaired(files@[i]@, #[trigger] r.files@[i]@, r.rewrites@[i]),
            r.fixed == rewrite_count(r.rewrites@),
    {
        let mut out: Vec<SourceFile> = Vec::new();
        let mut rewrites: Vec<Option<String>> = Vec::new();
        let mut fixed: usize = 0;
        let mut i: usize = 0;
        while i < files.len()
            invariant
                i <= files.len(),
                out@.len() == i,
                rewrites@.len() == i,
                forall|k: int| 0 <= k < i ==> repaired(files@[k]@, #[trigger] out@[k]@, rewrites@[k]),
                fixed == rewrite_count(rewrites@),
                fixed <= i,
            decreases files.len() - i,
        {
            let file = &files[i];
            let rewrite = TestFileRewriter::rewrite(file);
            let ghost prior = rewrites@;
            match &rewrite {
                Some(contents) => {
                    out.push(file.with_contents(contents.as_str()));
                    fixed = fixed + 1;
                },
                None => {
                    out.push(file.copied());
                },
            }
            rewrites.push(rewrite);
            assert(rewrites@.drop_last() =~= prior);
            i = i + 1;
        }
        Repair { files: out, rewrites, fixed }
    }

    /// Everything a package's rules find: the offences of the files that
    /// could not be read, then each file's findings in the order of the files,
    /// then the package's findings as a whole.
    pub fn judged(registry: &RuleRegistry, files: &Vec<SourceFile>, unreadable: Vec<Offence>) -> (r: Vec<Offence>)
        ensures
            exists|per_file: Seq<Seq<OffenceView>>, whole: Seq<OffenceView>| {
                &&& per_file.len() == files@.len()
                &&& forall|i: int| 0 <= i < files@.len() ==> file_findings(*registry, files@[i]@, #[trigger] per_file[i])
                &&& tree_findings(*registry, files@, whole)
                &&& offence_views(r@) == offence_views(unreadable@) + flattened(per_file) + whole
            },
    {
        let mut out = unreadable;
        let ghost start = offence_views(out@);
        let ghost mut per_file: Seq<Seq<OffenceView>> = Seq::empty();
        let mut i: usize = 0;
        while i < files.len()
            invariant
                i <= files.len(),
                per_file.len() == i,
                forall|k: int| 0 <= k < i ==> file_findings(*registry, files@[k]@, #[trigger] per_file[k]),
                offence_views(out@) == start + flattened(per_file),
            decreases files.len() - i,
        {
            let mut found = registry.check(&files[i]);
            let ghost part = offence_views(found@);
            let ghost before = out@;
            out.append(&mut found);
            proof {
                let prior = per_file;
                per_file = per_file.push(part);
                assert(per_file.drop_last() =~= prior);
                assert(offence_views(out@) =~= offence_views(before) + part);
            }
            i = i + 1;
        }
        let mut whole = registry.check_workspace(files);
        let ghost tail = offence_views(whole@);
        let ghost before = out@;
        out.append(&mut whole);
        assert(offence_views(out@) =~= offence_views(before) + tail);
        out
    }

    /// What a run does next: the rule listing before anything is read; the
    /// configuration before any judgement; a stop where no rule applies;
    /// each chosen package in turn; and, once every one is judged, the
    /// baseline recorded where that was asked for, the report otherwise.
    pub fn next_step(
        list_rules: bool,
        configured: bool,
        nothing_applies: bool,
        write_baseline: bool,
        judged: usize,
        packages: usize,
    ) -> (r: RunStep)
        ensures
            list_rules ==> r is ListRules,
            !list_rules && !configured ==> r is Configure,
            !list_rules && configured && nothing_applies ==> (r matches RunStep::Refuse(message)
                && message@ == no_rules_message()),
            !list_rules && configured && !nothing_applies && judged < packages ==> r == RunStep::JudgePackage(judged),
            !list_rules && configured && !nothing_applies && judged >= packages && write_baseline ==> r is RecordBaseline,
            !list_rules && configured && !nothing_applies && judged >= packages && !write_baseline ==> r is Report,
    {
        if list_rules {
            RunStep::ListRules
        } else if !configured {
            RunStep::Configure
        } else if nothing_applies {
            RunStep::Refuse(
                String::from_str(
                    "no rules are configured, so nothing would be checked -- pass --header-file to enable the header rule",
                ),
            )
        } else if judged < packages {
            RunStep::JudgePackage(judged)
        } else if write_baseline {
            RunStep::RecordBaseline
        } else {
            RunStep::Report
        }
    }

    /// Every package's findings, each package's stated once, in report order.
    pub fn collected(per_package: Vec<Vec<Offence>>) -> (r: Vec<Offence>)
        ensures
            offence_views(r@) == in_report_order(all_findings(per_package@)),
    {
        let mut all: Vec<Offence> = Vec::new();
        let mut per_package = per_package;
        let ghost packages = per_package@;
        let n = per_package.len();
        let mut k: usize = 0;
        while k < n
            invariant
                n == packages.len(),
                k <= n,
                per_package@ == packages.skip(k as int),
                offence_views(all@) == all_findings(packages.take(k as int)),
            decreases n - k,
        {
            let found = per_package.remove(0);
            assert(found == packages[k as int]);
            let settled = Self::settled(found);
            let ghost before = all@;
            let mut settled = settled;
            all.append(&mut settled);
            assert(packages.take(k + 1).drop_last() =~= packages.take(k as int));
            assert(offence_views(all@) =~= offence_views(before) + first_occurrences(offence_views(packages[k as int]@)));
            assert(per_package@ =~= packages.skip(k + 1));
            k = k + 1;
        }
        assert(packages.take(packages.len() as int) =~= packages);
        Self::in_report_order(all)
    }

    /// What a run ends in, once every package has been judged: the baseline
    /// takes away what it records, the exclusion counts are summed across
    /// packages, and the report of what is left, with everything the run left
    /// out named, is rendered in the format asked for. The outcome is decided
    /// from every offence the baseline did not suppress, however many the
    /// report shows.
    pub fn run_reporting(
        config: &Config,
        roster: &RuleRoster,
        offences: Vec<Offence>,
        excluded: Vec<Vec<(String, usize)>>,
        baseline: Option<&Baseline>,
        files_scanned: usize,
        fixed: usize,
    ) -> (r: (RunOutcome, String))
        requires
            sum_all(excluded@) <= usize::MAX,
            config.baseline.is_some() == baseline.is_some(),
        ensures
            r.0 == (if unsuppressed(baseline, offence_views(offences@)).len() == 0 {
                RunOutcome::Clean
            } else {
                RunOutcome::Broken
            }),
            r.1@ == report_of(
                config,
                files_scanned as nat,
                unsuppressed(baseline, offence_views(offences@)),
                *roster,
                adoption_of(config, excluded@, baseline, offence_views(offences@)),
                fixed as nat,
            ),
    {
        let ghost all = offence_views(offences@);
        let count = offences.len();
        let (kept, suppressed, stale) = match baseline {
            Some(b) => {
                let outcome = b.apply(offences);
                (outcome.kept, outcome.suppressed, outcome.stale)
            },
            None => (offences, 0, 0),
        };
        assert(offence_views(kept@) == unsuppressed(baseline, all));
        assert(offence_views(kept@).len() == kept@.len());
        let adoption = Adoption {
            excluded: Self::merged(excluded),
            baseline: Self::baseline_shown(config),
            suppressed,
            stale,
        };
        assert(adoption@ == adoption_of(config, excluded@, baseline, all));
        let config_file = Self::shown(config);
        let report = match config.format {
            OutputFormat::Text => ReportPrinter::render(
                files_scanned,
                &kept,
                config.offence_threshold,
                roster,
                &adoption,
                &config_file,
                fixed,
            ),
            OutputFormat::Json => ReportPrinter::render_json(files_scanned, &kept, roster, &adoption, &config_file, fixed),
        };
        (RunOutcome::of(kept.len()), report)
    }

    /// Two identical offences within one package are one finding, stated
    /// once; the first is kept where it stood.
    pub fn settled(found: Vec<Offence>) -> (r: Vec<Offence>)
        ensures
            offence_views(r@) == first_occurrences(offence_views(found@)),
    {
        let mut kept: Vec<Offence> = Vec::new();
        let ghost all = offence_views(found@);
        let mut i: usize = 0;
        assert(all.take(0) =~= Seq::<OffenceView>::empty());
        assert(offence_views(kept@) =~= first_occurrences(all.take(0)));
        while i < found.len()
            invariant
                i <= found.len(),
                all == offence_views(found@),
                offence_views(kept@) == first_occurrences(all.take(i as int)),
                forall|o: OffenceView| #[trigger] offence_views(kept@).contains(o) <==> all.take(i as int).contains(o),
            decreases found.len() - i,
        {
            let ghost before = offence_views(kept@);
            assert(all.take(i + 1).drop_last() == all.take(i as int));
            assert(all.take(i + 1).last() == found@[i as int]@);
            let mut j: usize = 0;
            while j < kept.len() && !Self::same_offence(&kept[j], &found[i])
                invariant
                    i < found.len(),
                    j <= kept.len(),
                    before == offence_views(kept@),
                    forall|m: int| 0 <= m < j ==> before[m] != found@[i as int]@,
                decreases kept.len() - j,
            {
                j = j + 1;
            }
            if j == kept.len() {
                assert(!before.contains(found@[i as int]@)) by {
                    if before.contains(found@[i as int]@) {
                        let m = choose|m: int| 0 <= m < before.len() && before[m] == found@[i as int]@;
                        assert(before[m] != found@[i as int]@);
                    }
                }
                let o = found[i].copied();
                kept.push(o);
                assert(offence_views(kept@) =~= before.push(o@));
                assert forall|x: OffenceView| offence_views(kept@).contains(x) <==> (before.contains(x) || x == found@[i as int]@) by {
                    let now = offence_views(kept@);
                    if now.contains(x) {
                        let m = choose|m: int| 0 <= m < now.len() && now[m] == x;
                        if m < before.len() {
                            assert(before[m] == x);
                        }
                    }
                    if before.contains(x) {
                        let m = choose|m: int| 0 <= m < before.len() && before[m] == x;
                        assert(now[m] == x);
                    }
                    if x == found@[i as int]@ {
                        assert(now[before.len() as int] == x);
                    }
                }
            } else {
                assert(before[j as int] == found@[i as int]@);
                assert(before.contains(found@[i as int]@));
            }
            assert forall|o: OffenceView| #[trigger] offence_views(kept@).contains(o) <==> all.take(i + 1).contains(o) by {
                let taken = all.take(i + 1);
                assert(before.contains(o) <==> all.take(i as int).contains(o));
                assert(taken.contains(o) <==> (all.take(i as int).contains(o) || o == found@[i as int]@));
                assert(offence_views(kept@).contains(o) <==> (before.contains(o) || o == found@[i as int]@));
                if all.take(i as int).contains(o) {
                    let m = choose|m: int| 0 <= m < i && all.take(i as int)[m] == o;
                    assert(taken[m] == o);
                }
                if taken.contains(o) {
                    let m = choose|m: int| 0 <= m < taken.len() && taken[m] == o;
                    if m < i {
                        assert(all.take(i as int)[m] == o);
                    }
                }
                if offence_views(kept@).contains(o) && !before.contains(o) {
                    assert(o == found@[i as int]@) by {
                        let m = choose|m: int| 0 <= m < offence_views(kept@).len() && offence_views(kept@)[m] == o;
                        if m < before.len() {
                            assert(before[m] == o);
                        }
                    }
                    assert(taken[i as int] == o);
                }
                if before.contains(o) {
                    let m = choose|m: int| 0 <= m < before.len() && before[m] == o;
                    assert(offence_views(kept@)[m] == o);
                }
            }
            i = i + 1;
        }
        assert(all.take(found.len() as int) == all);
        kept
    }

    fn same_text_option(a: &Option<String>, b: &Option<String>) -> (r: bool)
        ensures
            r == (option_text(*a) == option_text(*b)),
    {
        match (a, b) {
            (Some(x), Some(y)) => same_text(x.as_str(), y.as_str()),
            (None, None) => true,
            _ => false,
        }
    }

    fn same_offence(a: &Offence, b: &Offence) -> (r: bool)
        ensures
            r == (a@ == b@),
    {
        a.file == b.file && a.line == b.line && a.rule == b.rule && a.description == b.description
            && a.correction == b.correction && Self::same_text_option(&a.subject, &b.subject)
            && Self::same_text_option(&a.expected, &b.expected)
    }

    fn placed_no_later(a: &Offence, b: &Offence) -> (r: bool)
        ensures
            r == placed_no_later(a@, b@),
    {
        text_at_most(a.file.as_str(), b.file.as_str()) && (a.file != b.file || a.line <= b.line)
    }

    /// The offences by file, then by line; offences at the same place keep
    /// the order they were found in.
    pub fn in_report_order(offences: Vec<Offence>) -> (r: Vec<Offence>)
        ensures
            offence_views(r@) == in_report_order(offence_views(offences@)),
    {
        let mut sorted: Vec<Offence> = Vec::new();
        let ghost all = offence_views(offences@);
        let mut i: usize = 0;
        assert(all.take(0) =~= Seq::<OffenceView>::empty());
        assert(offence_views(sorted@) =~= in_report_order(all.take(0)));
        while i < offences.len()
            invariant
                i <= offences.len(),
                all == offence_views(offences@),
                offence_views(sorted@) == in_report_order(all.take(i as int)),
            decreases offences.len() - i,
        {
            let ghost before = offence_views(sorted@);
            assert(all.take(i + 1).drop_last() == all.take(i as int));
            assert(all.take(i + 1).last() == offences@[i as int]@);
            let mut p: usize = 0;
            assert(before.skip(0) == before);
            while p < sorted.len() && Self::placed_no_later(&sorted[p], &offences[i])
                invariant
                    i < offences.len(),
                    p <= sorted.len(),
                    before == offence_views(sorted@),
                    place_for(before, offences@[i as int]@) == p + place_for(before.skip(p as int), offences@[i as int]@),
                decreases sorted.len() - p,
            {
                assert(before.skip(p as int)[0] == sorted@[p as int]@);
                assert(before.skip(p as int).drop_first() == before.skip(p + 1));
                p = p + 1;
            }
            proof {
                if p < sorted.len() {
                    assert(before.skip(p as int)[0] == sorted@[p as int]@);
                }
            }
            let o = offences[i].copied();
            sorted.insert(p, o);
            assert(offence_views(sorted@) =~= before.insert(p as int, o@));
            i = i + 1;
        }
        assert(all.take(offences.len() as int) == all);
        sorted
    }
}

pub proof fn lemma_sum_all_prefix(per_root: Seq<Vec<(String, usize)>>, k: int)
    requires
        0 <= k <= per_root.len(),
    ensures
        sum_all(per_root.take(k)) <= sum_all(per_root),
        k >= 1 ==> sum_all(per_root.take(k - 1)) + sum_counts(per_root[k - 1]@) == sum_all(per_root.take(k)),
    decreases per_root.len() - k,
{
    if k < per_root.len() {
        lemma_sum_all_prefix(per_root.drop_last(), k);
        assert(per_root.drop_last().take(k) == per_root.take(k));
        if k >= 1 {
            assert(per_root.drop_last().take(k - 1) == per_root.take(k - 1));
        }
    } else {
        assert(per_root.take(k) == per_root);
    }
    if k >= 1 {
        assert(per_root.take(k).drop_last() == per_root.take(k - 1));
    }
}

pub proof fn lemma_sum_counts_prefix(counts: Seq<(String, usize)>, k: int)
    requires
        0 <= k <= counts.len(),
    ensures
        sum_counts(counts.take(k)) <= sum_counts(counts),
        k >= 1 ==> sum_counts(counts.take(k - 1)) + counts[k - 1].1 == sum_counts(counts.take(k)),
    decreases counts.len() - k,
{
    if k < counts.len() {
        lemma_sum_counts_prefix(counts.drop_last(), k);
        assert(counts.drop_last().take(k) == counts.take(k));
    } else {
        assert(counts.take(k) == counts);
    }
    if k >= 1 {
        assert(counts.take(k).drop_last() == counts.take(k - 1));
    }
}

/// Offences in report order stand by file, then by line, so what survives a
/// cap on the report is whole files from the top.
pub proof fn law_report_order_is_sorted(s: Seq<OffenceView>)
    ensures
        report_sorted(in_report_order(s)),
        in_report_order(s).len() == s.len(),
    decreases s.len(),
{
    if s.len() > 0 {
        law_report_order_is_sorted(s.drop_last());
        let sorted = in_report_order(s.drop_last());
        lemma_place_for_bounds(sorted, s.last());
        lemma_insert_in_place(sorted, s.last());
    }
}

/// Ordering the report loses nothing and adds nothing: it holds exactly the
/// offences found, each as often as it was found.
pub proof fn law_report_order_keeps_every_offence(s: Seq<OffenceView>)
    ensures
        in_report_order(s).to_multiset() == s.to_multiset(),
    decreases s.len(),
{
    if s.len() > 0 {
        law_report_order_keeps_every_offence(s.drop_last());
        law_report_order_is_sorted(s.drop_last());
        let sorted = in_report_order(s.drop_last());
        lemma_place_for_bounds(sorted, s.last());
        vstd::seq_lib::to_multiset_insert(sorted, place_for(sorted, s.last()) as int, s.last());
        vstd::seq_lib::to_multiset_build(s.drop_last(), s.last());
        assert(s.drop_last().push(s.last()) =~= s);
    }
}

/// Settling a package's offences states each finding once, and keeps every
/// one of them.
pub proof fn law_settled_states_each_finding_once(s: Seq<OffenceView>)
    ensures
        forall|i: int, j: int| 0 <= i < j < first_occurrences(s).len()
            ==> #[trigger] first_occurrences(s)[i] != #[trigger] first_occurrences(s)[j],
        forall|o: OffenceView| #[trigger] first_occurrences(s).contains(o) <==> s.contains(o),
    decreases s.len(),
{
    if s.len() > 0 {
        law_settled_states_each_finding_once(s.drop_last());
        let earlier = first_occurrences(s.drop_last());
        assert forall|o: OffenceView| #[trigger] first_occurrences(s).contains(o) <==> s.contains(o) by {
            if s.contains(o) && o != s.last() {
                let k = choose|k: int| 0 <= k < s.len() && s[k] == o;
                assert(s.drop_last()[k] == o);
            }
            if s.drop_last().contains(o) {
                let k = choose|k: int| 0 <= k < s.drop_last().len() && s.drop_last()[k] == o;
                assert(s[k] == o);
            }
            if o == s.last() {
                assert(s[s.len() - 1] == o);
            }
            if !s.drop_last().contains(s.last()) {
                if earlier.push(s.last()).contains(o) && o != s.last() {
                    let k = choose|k: int| 0 <= k < earlier.push(s.last()).len() && earlier.push(s.last())[k] == o;
                    assert(earlier[k] == o);
                }
                if earlier.contains(o) {
                    let k = choose|k: int| 0 <= k < earlier.len() && earlier[k] == o;
                    assert(earlier.push(s.last())[k] == o);
                }
                if o == s.last() {
                    assert(earlier.push(s.last())[earlier.len() as int] == o);
                }
            }
        }
        if !s.drop_last().contains(s.last()) {
            let out = earlier.push(s.last());
            assert forall|i: int, j: int| 0 <= i < j < out.len() implies #[trigger] out[i] != #[trigger] out[j] by {
                if j == out.len() - 1 {
                    assert(out[i] == earlier[i]);
                    if earlier[i] == s.last() {
                        assert(earlier.contains(s.last()));
                    }
                } else {
                    assert(out[i] == earlier[i] && out[j] == earlier[j]);
                }
            }
        }
    }
}

pub proof fn lemma_placed_total(a: OffenceView, b: OffenceView)
    ensures
        placed_no_later(a, b) || placed_no_later(b, a),
{
    crate::text::lemma_text_le_total(a.file, b.file);
    if text_le(a.file, b.file) && text_le(b.file, a.file) {
        crate::text::lemma_text_le_antisymmetric(a.file, b.file);
    }
}

pub proof fn lemma_placed_transitive(a: OffenceView, b: OffenceView, c: OffenceView)
    requires
        placed_no_later(a, b),
        placed_no_later(b, c),
    ensures
        placed_no_later(a, c),
{
    crate::text::lemma_text_le_transitive(a.file, b.file, c.file);
    if a.file == c.file {
        if a.file != b.file {
            crate::text::lemma_text_le_antisymmetric(a.file, b.file);
        }
    }
}

pub proof fn lemma_place_for_bounds(sorted: Seq<OffenceView>, o: OffenceView)
    requires
        report_sorted(sorted),
    ensures
        place_for(sorted, o) <= sorted.len(),
        forall|i: int| 0 <= i < place_for(sorted, o) ==> placed_no_later(#[trigger] sorted[i], o),
        forall|i: int| place_for(sorted, o) <= i < sorted.len() ==> !placed_no_later(#[trigger] sorted[i], o),
    decreases sorted.len(),
{
    if sorted.len() > 0 {
        let rest = sorted.drop_first();
        assert(report_sorted(rest)) by {
            assert forall|i: int, j: int| 0 <= i < j < rest.len() implies placed_no_later(#[trigger] rest[i], #[trigger] rest[j]) by {
                assert(sorted[i + 1] == rest[i] && sorted[j + 1] == rest[j]);
            }
        }
        lemma_place_for_bounds(rest, o);
        if placed_no_later(sorted[0], o) {
            assert forall|i: int| 0 <= i < place_for(sorted, o) implies placed_no_later(#[trigger] sorted[i], o) by {
                if i > 0 {
                    assert(sorted[i] == rest[i - 1]);
                }
            }
            assert forall|i: int| place_for(sorted, o) <= i < sorted.len() implies !placed_no_later(#[trigger] sorted[i], o) by {
                assert(sorted[i] == rest[i - 1]);
            }
        } else {
            assert forall|i: int| 0 <= i < sorted.len() implies !placed_no_later(#[trigger] sorted[i], o) by {
                if i > 0 && placed_no_later(sorted[i], o) {
                    assert(placed_no_later(sorted[0], sorted[i]));
                    lemma_placed_transitive(sorted[0], sorted[i], o);
                }
            }
        }
    }
}

pub proof fn lemma_insert_in_place(sorted: Seq<OffenceView>, o: OffenceView)
    requires
        report_sorted(sorted),
    ensures
        report_sorted(sorted.insert(place_for(sorted, o) as int, o)),
{
    lemma_place_for_bounds(sorted, o);
    let p = place_for(sorted, o) as int;
    let out = sorted.insert(p, o);
    assert forall|i: int, j: int| 0 <= i < j < out.len() implies placed_no_later(#[trigger] out[i], #[trigger] out[j]) by {
        if j < p {
            assert(out[i] == sorted[i] && out[j] == sorted[j]);
        } else if j == p {
            assert(out[i] == sorted[i]);
        } else if i == p {
            assert(out[j] == sorted[j - 1]);
            assert(!placed_no_later(sorted[j - 1], o));
            lemma_placed_total(sorted[j - 1], o);
        } else if i < p {
            assert(out[i] == sorted[i] && out[j] == sorted[j - 1]);
        } else {
            assert(out[i] == sorted[i - 1] && out[j] == sorted[j - 1]);
        }
    }
}

} // verus!
