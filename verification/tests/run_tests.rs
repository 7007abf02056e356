use stern4rust::offence::Offence;
use stern4rust::baseline::{Baseline, BaselineEntry};
use stern4rust::exclusion_set::{glob_matches, ExclusionSet};
use stern4rust::report::{json_string_text, Adoption, ReportPrinter, RuleRoster};
use stern4rust::rule_explanation::rule_listing;
use stern4rust::rule_registry::RuleRegistry;
use stern4rust::runner::{RunOutcome, RunStep, Runner};
use stern4rust::settings::args::Args;
use stern4rust::settings::config::{Config, OutputFormat};
use stern4rust::settings::manifest_resolver::{ManifestPackage, ManifestResolver};
use stern4rust::settings::package_config::PackageConfig;
use stern4rust::settings::rule_selection::RuleSelection;
use stern4rust::source_file::SourceFile;
use stern4rust::source_reader::SourceReader;
use stern4rust::source_walker::SourceWalker;

fn names(list: &[&str]) -> Vec<String> {
    list.iter().map(|name| name.to_string()).collect()
}

fn nothing_left_out() -> Adoption {
    Adoption { excluded: Vec::new(), baseline: None, suppressed: 0, stale: 0 }
}

fn entry(file: &str, rule: &str, description: &str, count: usize) -> BaselineEntry {
    BaselineEntry { file: file.to_string(), rule: rule.to_string(), description: description.to_string(), count }
}

fn config(selected: &[&str], skipped: &[&str], header: &[&str]) -> Config {
    Config {
        baseline: None,
        config_file: None,
        fix: false,
        write_baseline: false,
        manifest_license: None,
        workspace_dependencies: None,
        manifest_path: None,
        max_files_per_directory: None,
        max_subfolders_per_directory: None,
        packages: Vec::new(),
        excludes: Vec::new(),
        expected_header: names(header),
        format: OutputFormat::Text,
        offence_threshold: 100,
        selection: RuleSelection::new(names(selected), names(skipped)),
    }
}

fn offence(file: &str, line: usize, rule: &str, description: &str) -> Offence {
    Offence::new(file, line, rule, description.to_string(), format!("fix {description}"))
}

#[test]
fn a_skipped_rule_never_reports() {
    let registry = RuleRegistry::from_config(&config(&[], &["header"], &["// A"]));
    let file = SourceFile::new("src/lib.rs", "fn main() {}\n");

    let found = registry.check(&file);

    assert!(!registry.names().contains(&"header".to_string()));
    assert!(found.iter().all(|o| o.rule != "header"));
}

#[test]
fn skipping_wins_over_selecting() {
    let selection = RuleSelection::new(names(&["header"]), names(&["header"]));

    assert!(!selection.includes("header"));
}

#[test]
fn also_skipping_subtracts_from_the_selection() {
    let selection = RuleSelection::new(Vec::new(), names(&["tests-layout"])).also_skipping(&names(&["header"]));

    assert!(!selection.includes("header"));
    assert!(!selection.includes("tests-layout"));
    assert!(selection.includes("imported-paths"));
}

#[test]
fn the_header_rule_is_unconfigured_without_a_header() {
    let run = config(&[], &[], &[]);

    let unconfigured = RuleRegistry::unconfigured(&run);
    let registry = RuleRegistry::from_config(&run);

    assert_eq!(
        unconfigured,
        vec![
            ("header".to_string(), "--header-file".to_string()),
            ("spdx-matches-manifest".to_string(), "a `license` in Cargo.toml".to_string()),
        ]
    );
    assert_eq!(registry.names().len(), 18);
    assert!(RuleRegistry::skipped_names(&run).is_empty());
}

#[test]
fn a_selection_of_one_rule_applies_that_rule() {
    let run = config(&["imported-paths"], &[], &[]);

    let registry = RuleRegistry::from_config(&run);

    assert_eq!(registry.names(), names(&["imported-paths"]));
    assert_eq!(RuleRegistry::skipped_names(&run).len(), 19);
}

#[test]
fn an_unknown_rule_name_is_an_error() {
    let run = config(&["headr"], &[], &[]);

    let result = Runner::validate_selection(&run, &RuleRegistry::known_names());

    assert!(result.unwrap_err().starts_with("unknown rule name(s): headr -- the rules are: readable-source, header,"));
}

#[test]
fn the_header_rule_without_a_header_is_an_error() {
    let run = config(&["header"], &[], &[]);

    let result = Runner::validate_selection(&run, &RuleRegistry::known_names());

    assert_eq!(
        result,
        Err("--rule header needs --header-file, otherwise the run would apply no rules at all".to_string())
    );
}

#[test]
fn the_report_caps_what_it_shows_but_not_what_it_counts() {
    let offences = vec![offence("src/a.rs", 1, "header", "d1"), offence("src/b.rs", 12, "header", "d2")];
    let roster = RuleRoster { applied: names(&["header"]), skipped: Vec::new(), unconfigured: Vec::new() };

    let report = ReportPrinter::render(3, &offences, 1, &roster, &nothing_left_out(), &None, 0);

    let expected = String::new()
        + "stern4rust report\n\n"
        + "file      line  rule    offence\n"
        + "--------  ----  ------  -------\n"
        + "src/a.rs     1  header  d1\n"
        + "                        fix: fix d1\n"
        + "\n... and 1 more offences not shown. Raise --offence-threshold (currently 1, use 0 for all) to see them.\n"
        + "\nsummary: files_scanned=3 offences=2 rules_broken=1\n";
    assert_eq!(report, expected);
}

#[test]
fn a_clean_run_that_did_not_apply_every_rule_says_so() {
    let roster = RuleRoster {
        applied: names(&["readable-source", "tests-layout"]),
        skipped: Vec::new(),
        unconfigured: vec![("header".to_string(), "--header-file".to_string())],
    };

    let report = ReportPrinter::render(61, &Vec::new(), 100, &roster, &nothing_left_out(), &None, 0);

    let expected = String::new()
        + "stern4rust report\n\n"
        + "All applied rules are satisfied.\n"
        + "\n  applied: readable-source, tests-layout\n"
        + "  not applied: header (needs --header-file)\n"
        + "\nsummary: files_scanned=61 offences=0 rules_broken=0 rules_applied=2 rules_skipped=0 rules_unconfigured=1\n";
    assert_eq!(report, expected);
}

#[test]
fn the_json_report_carries_every_key() {
    let offences = vec![offence("tests/all_tests.rs", 3, "tests-layout", "the constant `LIMIT`")];
    let roster = RuleRoster { applied: names(&["tests-layout"]), skipped: Vec::new(), unconfigured: Vec::new() };

    let report = ReportPrinter::render_json(4, &offences, &roster, &nothing_left_out(), &None, 0);

    assert!(report.starts_with("{\n  \"files_scanned\": 4,\n  \"offences_found\": 1,\n  \"rules_broken\": 1,"));
    assert!(report.contains("      \"line\": 3,\n"));
    assert!(report.contains("      \"subject\": null,\n      \"expected\": null\n    }"));
    assert!(report.ends_with("\n  ]\n}\n"));
}

#[test]
fn json_strings_escape_quotes_and_control_characters() {
    assert_eq!(json_string_text("a\"b\nc\\d\u{1}"), "\"a\\\"b\\nc\\\\d\\u0001\"");
}

#[test]
fn the_exit_code_is_two_only_for_a_finding() {
    assert_eq!(RunOutcome::of(0).exit_code(), 0);
    assert_eq!(RunOutcome::of(3).exit_code(), 2);
}

#[test]
fn offences_are_reported_by_file_then_line() {
    let found = vec![
        offence("src/b.rs", 1, "r", "x"),
        offence("src/a.rs", 9, "r", "y"),
        offence("src/a.rs", 2, "r", "z"),
    ];

    let sorted = Runner::in_report_order(found);

    let places: Vec<(String, usize)> = sorted.iter().map(|o| (o.file.clone(), o.line)).collect();
    assert_eq!(
        places,
        vec![("src/a.rs".to_string(), 2), ("src/a.rs".to_string(), 9), ("src/b.rs".to_string(), 1)]
    );
}

#[test]
fn identical_offences_in_one_package_are_one_finding() {
    let found = vec![offence("src/a.rs", 1, "r", "x"), offence("src/a.rs", 1, "r", "x"), offence("src/a.rs", 2, "r", "x")];

    let settled = Runner::settled(found);

    assert_eq!(settled.len(), 2);
    assert_eq!(settled[1].line, 2);
}

#[test]
fn an_unknown_package_is_an_error() {
    let packages = vec![ManifestPackage {
        name: "alpha".to_string(),
        manifest_path: "/w/alpha/Cargo.toml".to_string(),
        license: Some("MIT".to_string()),
    }];

    let roots = ManifestResolver::package_roots(&packages, &names(&["beta"]));

    assert_eq!(roots, Err("package `beta` is not in this workspace".to_string()));
}

#[test]
fn package_roots_are_the_manifests_directories() {
    let packages = vec![
        ManifestPackage { name: "alpha".to_string(), manifest_path: "/w/alpha/Cargo.toml".to_string(), license: None },
        ManifestPackage { name: "beta".to_string(), manifest_path: "/w/beta/Cargo.toml".to_string(), license: None },
    ];

    let roots = ManifestResolver::package_roots(&packages, &Vec::new());

    assert_eq!(roots, Ok(names(&["/w/alpha", "/w/beta"])));
}

#[test]
fn the_licence_is_the_one_every_scanned_package_agrees_on() {
    let packages = vec![
        ManifestPackage { name: "alpha".to_string(), manifest_path: "/w/a/Cargo.toml".to_string(), license: Some("MIT".to_string()) },
        ManifestPackage { name: "beta".to_string(), manifest_path: "/w/b/Cargo.toml".to_string(), license: Some("MIT".to_string()) },
        ManifestPackage { name: "gamma".to_string(), manifest_path: "/w/c/Cargo.toml".to_string(), license: Some("Apache-2.0".to_string()) },
    ];

    assert_eq!(ManifestResolver::license(&packages, &names(&["alpha", "beta"])), Some("MIT".to_string()));
    assert_eq!(ManifestResolver::license(&packages, &Vec::new()), None);
    assert_eq!(ManifestResolver::license(&packages, &names(&["delta"])), None);
}

#[test]
fn the_cargo_subcommand_name_is_dropped() {
    let forwarded = Args::without_cargo_subcommand(names(&["cargo-stern4rust", "stern4rust", "--fix"]));

    assert_eq!(forwarded, names(&["cargo-stern4rust", "--fix"]));
}

#[test]
fn an_unreadable_file_becomes_a_finding() {
    let read = SourceReader::from_read("/w/alpha", "/w/alpha/src/lib.rs", Err("permission denied".to_string()));

    let offence = read.err().unwrap();
    assert_eq!(offence.file, "src/lib.rs");
    assert_eq!(offence.rule, "readable-source");
    assert_eq!(offence.description, "file could not be read: permission denied");
}

#[test]
fn a_read_file_is_known_by_its_relative_path() {
    let read = SourceReader::from_read("/w/alpha", "/w/alpha/src/lib.rs", Ok("a\r\nb".to_string()));

    let file = read.ok().unwrap();
    assert_eq!(file.relative_path(), "src/lib.rs");
    assert_eq!(file.contents(), "a\nb");
}

#[test]
fn the_walk_skips_target_and_git_but_not_the_root() {
    assert!(SourceWalker::is_skipped(false, "target"));
    assert!(SourceWalker::is_skipped(false, ".git"));
    assert!(!SourceWalker::is_skipped(true, "target"));
    assert!(!SourceWalker::is_skipped(false, "fixtures"));
    assert!(SourceWalker::is_source("src/lib.rs"));
    assert!(!SourceWalker::is_source("src/Cargo.toml"));
}

#[test]
fn a_glob_star_stays_within_one_directory() {
    assert!(glob_matches("vendor/*.rs", "vendor/a.rs"));
    assert!(!glob_matches("vendor/*.rs", "vendor/deep/a.rs"));
    assert!(glob_matches("vendor/**/*.rs", "vendor/deep/a.rs"));
    assert!(glob_matches("vendor/**", "vendor/deep/a.rs"));
    assert!(glob_matches("src/?.rs", "src/a.rs"));
    assert!(!glob_matches("src/?.rs", "src/ab.rs"));
}

#[test]
fn every_exclusion_pattern_is_counted_including_zero() {
    let set = ExclusionSet::new(&names(&["vendor/**", "generated/*.rs"]));
    let paths = names(&["/w/app/src/lib.rs", "/w/app/vendor/x/a.rs", "/w/app/vendor/b.rs"]);

    let outcome = set.apply(paths, "/w/app");

    assert_eq!(outcome.kept, names(&["/w/app/src/lib.rs"]));
    assert_eq!(outcome.excluded, vec![("vendor/**".to_string(), 2), ("generated/*.rs".to_string(), 0)]);
}

#[test]
fn exclusion_counts_are_summed_across_packages() {
    let per_root = vec![
        vec![("vendor/**".to_string(), 0), ("gen/*".to_string(), 2)],
        vec![("vendor/**".to_string(), 40)],
    ];

    let merged = Runner::merged(per_root);

    assert_eq!(merged, vec![("vendor/**".to_string(), 40), ("gen/*".to_string(), 2)]);
}

#[test]
fn a_fixed_offence_makes_room_for_a_new_identical_one_but_not_two() {
    let baseline = Baseline::new(vec![entry("src/a.rs", "header", "missing", 2)]);
    let two = vec![offence("src/a.rs", 1, "header", "missing"), offence("src/a.rs", 40, "header", "missing")];
    let three = vec![
        offence("src/a.rs", 1, "header", "missing"),
        offence("src/a.rs", 7, "header", "missing"),
        offence("src/a.rs", 40, "header", "missing"),
    ];

    let passing = baseline.apply(two);
    let failing = baseline.apply(three);

    assert!(passing.kept.is_empty());
    assert_eq!(passing.suppressed, 2);
    assert_eq!(failing.kept.len(), 1);
    assert_eq!(failing.kept[0].line, 40);
    assert_eq!(failing.suppressed, 2);
}

#[test]
fn a_baseline_of_a_run_suppresses_all_of_it() {
    let found = vec![
        offence("src/a.rs", 1, "header", "missing"),
        offence("src/b.rs", 3, "header", "missing"),
        offence("src/a.rs", 9, "header", "missing"),
    ];

    let baseline = Baseline::of(&found);
    let outcome = baseline.apply(found);

    assert_eq!(baseline.len(), 2);
    assert_eq!(baseline.entries_of()[0].count, 2);
    assert!(outcome.kept.is_empty());
    assert_eq!(outcome.suppressed, 3);
    assert_eq!(outcome.stale, 0);
}

#[test]
fn a_baseline_entry_that_matches_nothing_is_stale() {
    let baseline = Baseline::new(vec![entry("src/gone.rs", "header", "missing", 1), entry("src/a.rs", "r", "x", 1)]);

    let outcome = baseline.apply(vec![offence("src/a.rs", 1, "r", "x"), offence("src/b.rs", 2, "r", "y")]);

    assert_eq!(outcome.stale, 1);
    assert_eq!(outcome.suppressed, 1);
    assert_eq!(outcome.kept.len(), 1);
    assert_eq!(outcome.kept[0].file, "src/b.rs");
}

#[test]
fn the_report_names_exclusions_and_what_the_baseline_suppressed() {
    let roster = RuleRoster { applied: names(&["header"]), skipped: Vec::new(), unconfigured: Vec::new() };
    let adoption = Adoption {
        excluded: vec![("vendor/**".to_string(), 3), ("gen/*".to_string(), 0)],
        baseline: Some("stern4rust-baseline.json".to_string()),
        suppressed: 5,
        stale: 2,
    };

    let report = ReportPrinter::render(9, &Vec::new(), 100, &roster, &adoption, &None, 0);

    let expected = String::new()
        + "stern4rust report\n\n"
        + "All rules are satisfied.\n"
        + "\n  excluded: vendor/** (3 files), gen/* (0 files)\n"
        + "  matched nothing: gen/* -- delete the pattern or correct it\n"
        + "\n  baseline: stern4rust-baseline.json (5 suppressed)\n"
        + "  2 baseline entries matched nothing -- rerun with --write-baseline to refresh it\n"
        + "\nsummary: files_scanned=9 files_excluded=3 offences=0 baselined=5 rules_broken=0\n";
    assert_eq!(report, expected);
}

#[test]
fn the_json_report_carries_exclusions_and_the_baseline() {
    let roster = RuleRoster { applied: names(&["header"]), skipped: Vec::new(), unconfigured: Vec::new() };
    let adoption = Adoption {
        excluded: vec![("vendor/**".to_string(), 3)],
        baseline: Some("b.json".to_string()),
        suppressed: 5,
        stale: 0,
    };

    let report = ReportPrinter::render_json(9, &Vec::new(), &roster, &adoption, &None, 0);

    assert!(report.contains(
        "  \"excluded\": [{\"pattern\": \"vendor/**\", \"files\": 3}],\n  \"baseline\": \"b.json\",\n  \"baselined\": 5,\n  \"baseline_stale\": 0,\n"
    ));
    assert!(report.ends_with("\"offences\": []\n}\n"));
}

#[test]
fn findings_are_settled_per_package_then_put_in_report_order() {
    let per_package = vec![
        vec![offence("src/lib.rs", 4, "r", "x"), offence("src/lib.rs", 4, "r", "x")],
        vec![offence("src/lib.rs", 4, "r", "x"), offence("src/a.rs", 1, "r", "y")],
    ];

    let collected = Runner::collected(per_package);

    let places: Vec<(String, usize)> = collected.iter().map(|o| (o.file.clone(), o.line)).collect();
    assert_eq!(
        places,
        vec![("src/a.rs".to_string(), 1), ("src/lib.rs".to_string(), 4), ("src/lib.rs".to_string(), 4)]
    );
}

#[test]
fn a_run_whose_offences_the_baseline_records_is_clean_and_says_so() {
    let mut run = config(&["header"], &[], &["// A"]);
    run.baseline = Some("ci\\stern4rust-baseline.json".to_string());
    let roster = RuleRoster { applied: names(&["header"]), skipped: Vec::new(), unconfigured: Vec::new() };
    let offences = vec![offence("src/a.rs", 1, "header", "missing")];
    let baseline = Baseline::of(&offences);

    let (outcome, report) = Runner::run_reporting(
        &run,
        &roster,
        offences,
        vec![vec![("vendor/**".to_string(), 1)], vec![("vendor/**".to_string(), 2)]],
        Some(&baseline),
        7,
        0,
    );

    assert_eq!(outcome, RunOutcome::Clean);
    let expected = String::new()
        + "stern4rust report\n\n"
        + "All rules are satisfied.\n"
        + "\n  excluded: vendor/** (3 files)\n"
        + "\n  baseline: ci/stern4rust-baseline.json (1 suppressed)\n"
        + "\nsummary: files_scanned=7 files_excluded=3 offences=0 baselined=1 rules_broken=0\n";
    assert_eq!(report, expected);
}

#[test]
fn a_new_offence_beside_a_baseline_breaks_the_run() {
    let mut run = config(&["header"], &[], &["// A"]);
    run.baseline = Some("b.json".to_string());
    run.format = OutputFormat::Json;
    let roster = RuleRoster { applied: names(&["header"]), skipped: Vec::new(), unconfigured: Vec::new() };
    let baseline = Baseline::new(vec![entry("src/a.rs", "header", "missing", 1)]);
    let offences = vec![offence("src/a.rs", 1, "header", "missing"), offence("src/b.rs", 1, "header", "missing")];

    let (outcome, report) = Runner::run_reporting(&run, &roster, offences, Vec::new(), Some(&baseline), 2, 0);

    assert_eq!(outcome, RunOutcome::Broken);
    assert!(report.contains("\"offences_found\": 1,"));
    assert!(report.contains("\"baselined\": 1,"));
    assert!(report.contains("\"file\": \"src/b.rs\""));
}

#[test]
fn an_offence_that_moved_down_the_file_is_still_suppressed() {
    let recorded = Baseline::of(&vec![offence("src/a.rs", 3, "header", "missing")]);

    let outcome = recorded.apply(vec![offence("src/a.rs", 41, "header", "missing")]);

    assert!(outcome.kept.is_empty());
    assert_eq!(outcome.suppressed, 1);
}

#[test]
fn a_package_is_judged_unreadable_files_first_then_file_by_file() {
    let registry = RuleRegistry::from_config(&config(&["header", "readable-source"], &[], &["// A"]));
    let files = vec![
        SourceFile::new("src/lib.rs", "fn main() {}\n"),
        SourceFile::new("src/b.rs", "// A\nfn b() {}\n"),
        SourceFile::new("src/c.rs", "fn c( {}\n"),
    ];
    let unreadable = vec![offence("src/d.rs", 1, "readable-source", "could not be read")];

    let found = Runner::judged(&registry, &files, unreadable);

    let places: Vec<(String, String)> = found.iter().map(|o| (o.file.clone(), o.rule.clone())).collect();
    assert_eq!(
        places,
        vec![
            ("src/d.rs".to_string(), "readable-source".to_string()),
            ("src/lib.rs".to_string(), "header".to_string()),
            ("src/c.rs".to_string(), "readable-source".to_string()),
            ("src/c.rs".to_string(), "header".to_string()),
        ]
    );
}

#[test]
fn the_rule_listing_names_every_rule_and_shows_what_it_wants() {
    let listing = rule_listing(&RuleRegistry::known_names(), &RuleRegistry::explanations());

    assert!(listing.starts_with("readable-source\n\nheader\n\nspdx-matches-manifest\n  Every file's SPDX identifier says what the manifest says.\n"));
    assert!(listing.contains(
        "pure-traits\n  A trait declares; it does not implement.\n\n  breaks it:\n\ntrait Store {\n    fn commit(&self) -> bool {\n        true\n    }\n}\n\n  put right:\n\ntrait Store {\n    fn commit(&self) -> bool;\n}\n\n"
    ));
    for name in RuleRegistry::known_names() {
        assert!(listing.contains(&format!("{name}\n")));
    }
}

#[test]
fn nine_rules_explain_themselves() {
    let explanations = RuleRegistry::explanations();

    let names: Vec<&str> = explanations.iter().map(|e| e.name.as_str()).collect();
    assert_eq!(
        names,
        vec![
            "spdx-matches-manifest",
            "imported-paths",
            "pure-traits",
            "test-file-name-postfix",
            "arrange-act-assert",
            "directory-file-count",
            "directory-subfolder-count",
            "tested-public-api",
            "workspace-dependencies",
        ]
    );
    assert_eq!(explanations[5].put_right, "src/parsing/  -- 12 files\nsrc/parsing/naming/  -- 12 files");
}

#[test]
fn selections_are_equal_exactly_when_both_lists_are() {
    assert!(RuleSelection::new(names(&["header"]), names(&["tests-layout"])) == RuleSelection::new(names(&["header"]), names(&["tests-layout"])));
    assert!(RuleSelection::new(names(&["header"]), Vec::new()) != RuleSelection::new(Vec::new(), names(&["header"])));
    assert!(RuleSelection::new(Vec::new(), Vec::new()) == RuleSelection::default());
}

#[test]
fn the_default_configuration_sets_nothing_but_the_threshold() {
    let default = Config::default();

    assert!(default == config(&[], &[], &[]));
    assert_eq!(default.offence_threshold, 100);
    assert_eq!(default.format, OutputFormat::Text);
    let mut capped = Config::default();
    capped.offence_threshold = 1;
    assert!(capped != default);
}

#[test]
fn a_default_package_section_sets_nothing() {
    let section = PackageConfig::default();

    assert!(section.header_file.is_none() && section.rules.is_empty() && section.exclude.is_empty());
    assert!(section == PackageConfig::default());
}

#[test]
fn the_run_lists_rules_before_reading_anything_and_refuses_when_no_rule_applies() {
    assert!(matches!(Runner::next_step(true, false, false, false, 0, 0), RunStep::ListRules));
    assert!(matches!(Runner::next_step(false, false, false, false, 0, 0), RunStep::Configure));
    match Runner::next_step(false, true, true, false, 0, 2) {
        RunStep::Refuse(message) => assert!(message.starts_with("no rules are configured")),
        _ => panic!("an empty registry must stop the run"),
    }
    assert!(matches!(Runner::next_step(false, true, false, false, 1, 2), RunStep::JudgePackage(1)));
    assert!(matches!(Runner::next_step(false, true, false, true, 2, 2), RunStep::RecordBaseline));
    assert!(matches!(Runner::next_step(false, true, false, false, 2, 2), RunStep::Report));
}

#[test]
fn an_unknown_rule_in_a_package_section_is_an_error() {
    let section_config = config(&["hedaer"], &[], &[]);

    let result = Runner::validate_selection(&section_config, &RuleRegistry::known_names());

    assert!(result.unwrap_err().starts_with("unknown rule name(s): hedaer"));
}

#[test]
fn the_threshold_changes_what_is_shown_but_not_the_summary_or_the_outcome() {
    let roster = RuleRoster { applied: names(&["header"]), skipped: Vec::new(), unconfigured: Vec::new() };
    let offences = || vec![offence("src/a.rs", 1, "header", "d1"), offence("src/b.rs", 2, "header", "d2")];
    let mut capped = config(&["header"], &[], &["// A"]);
    capped.offence_threshold = 1;
    let mut uncapped = config(&["header"], &[], &["// A"]);
    uncapped.offence_threshold = 0;

    let (capped_outcome, capped_report) =
        Runner::run_reporting(&capped, &roster, offences(), Vec::new(), None, 2, 0);
    let (uncapped_outcome, uncapped_report) = Runner::run_reporting(&uncapped, &roster, offences(), Vec::new(), None, 2, 0);

    assert_eq!(capped_outcome, uncapped_outcome);
    let summary = "\nsummary: files_scanned=2 offences=2 rules_broken=1\n";
    assert!(capped_report.ends_with(summary));
    assert!(uncapped_report.ends_with(summary));
    assert_ne!(capped_report, uncapped_report);
}
