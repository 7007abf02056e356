use stern4rust::offence::Offence;
use stern4rust::rules::layout::directory_file_count_rule::DirectoryFileCountRule;
use stern4rust::rules::layout::directory_subfolder_count_rule::DirectorySubfolderCountRule;
use stern4rust::rules::manifest::workspace_dependencies_rule::WorkspaceDependenciesRule;
use stern4rust::rules::registry_completeness_rule::RegistryCompletenessRule;
use stern4rust::rules::testing::tested_public_api_rule::TestedPublicApiRule;
use stern4rust::rules::tests_layout_rule::TestsLayoutRule;
use stern4rust::runner::Runner;
use stern4rust::settings::manifest_dependency::ManifestDependency;
use stern4rust::source_file::SourceFile;

fn files(entries: &[(&str, &str)]) -> Vec<SourceFile> {
    entries.iter().map(|(path, text)| SourceFile::new(path, text)).collect()
}

fn row(o: &Offence) -> (String, usize, String) {
    (o.file.clone(), o.line, o.description.clone())
}

#[test]
fn tests_layout_reports_what_the_readme_shows() {
    let tree = files(&[
        ("tests/all_tests.rs", "use std::fmt;\npub mod rules;\nconst LIMIT: usize = 3;\n"),
        ("tests/rules/mod.rs", "pub mod deep;\n"),
        ("tests/rules/deep/alpha_tests.rs", "#[test]\nfn a() {}\n"),
    ]);

    let found = Runner::in_report_order(TestsLayoutRule::new().check_workspace(&tree));

    assert_eq!(found.len(), 3);
    assert_eq!(
        row(&found[0]),
        (
            "tests/all_tests.rs".to_string(),
            1,
            "the import `use std::fmt;` does not belong in a registry, which holds the header and pub mod declarations only".to_string(),
        )
    );
    assert_eq!(found[0].correction, "move the import `use std::fmt;` out of the registry into the file that needs it");
    assert_eq!(found[1].line, 3);
    assert_eq!(found[1].subject, Some("the constant `LIMIT`".to_string()));
    assert_eq!(found[1].correction, "move the constant `LIMIT` out of the registry into the file that needs it");
    assert_eq!(
        row(&found[2]),
        (
            "tests/rules/deep/mod.rs".to_string(),
            1,
            "a tests subfolder has no mod.rs, so nothing in it is compiled".to_string(),
        )
    );
    assert_eq!(
        found[2].correction,
        "create tests/rules/deep/mod.rs with the header and one `pub mod` line per file in that folder"
    );
}

#[test]
fn tests_layout_reports_a_missing_and_a_stray_door() {
    let tree = files(&[("tests/alpha_tests.rs", "#[test]\nfn a() {}\n"), ("tests/deep/all_tests.rs", "pub mod x;\n")]);

    let found = TestsLayoutRule::new().check_workspace(&tree);

    assert_eq!(found.len(), 3);
    assert_eq!(found[0].file, "tests/all_tests.rs");
    assert_eq!(found[0].description, "a tests folder is present but has no all_tests.rs, so nothing in it is compiled");
    assert_eq!(found[1].file, "tests/deep/all_tests.rs");
    assert_eq!(found[1].description, "only tests/all_tests.rs is a registry; this one is never reached");
    assert_eq!(found[2].file, "tests/deep/mod.rs");
}

#[test]
fn tests_layout_is_silent_without_a_tests_folder() {
    let tree = files(&[("src/lib.rs", "pub mod a;\n")]);

    let found = TestsLayoutRule::new().check_workspace(&tree);

    assert!(found.is_empty());
}

#[test]
fn registry_completeness_reports_an_undeclared_file() {
    let tree = files(&[
        ("tests/all_tests.rs", "pub mod alpha_tests;\n"),
        ("tests/alpha_tests.rs", "#[test]\nfn a() {}\n"),
        ("tests/beta_tests.rs", "#[test]\nfn b() {}\n"),
    ]);

    let found = RegistryCompletenessRule::new().check_workspace(&tree);

    assert_eq!(found.len(), 1);
    assert_eq!(found[0].file, "tests/all_tests.rs");
    assert_eq!(found[0].rule, "registry-completeness");
    assert_eq!(found[0].description, "`beta_tests` is not declared here, so its file is never compiled");
    assert_eq!(found[0].correction, "add `pub mod beta_tests;` to tests/all_tests.rs");
    assert_eq!(found[0].subject, Some("beta_tests".to_string()));
}

#[test]
fn registry_completeness_counts_folders_as_modules() {
    let tree = files(&[
        ("src/lib.rs", "pub mod a;\n"),
        ("src/a.rs", "pub fn f() {}\n"),
        ("src/deep/mod.rs", "pub mod x;\n"),
        ("src/deep/x.rs", "pub fn g() {}\n"),
    ]);

    let found = RegistryCompletenessRule::new().check_workspace(&tree);

    assert_eq!(found.len(), 1);
    assert_eq!(found[0].description, "`deep` is not declared here, so its file is never compiled");
}

#[test]
fn registry_completeness_says_nothing_for_a_registry_that_does_not_parse() {
    let tree = files(&[("src/lib.rs", "pub mod a\n"), ("src/a.rs", "pub fn f() {}\n"), ("src/b.rs", "pub fn g() {}\n")]);

    let found = RegistryCompletenessRule::new().check_workspace(&tree);

    assert!(found.is_empty());
}

#[test]
fn directory_file_count_reports_against_the_index() {
    let tree = files(&[("src/a.rs", ""), ("src/b.rs", ""), ("src/c.rs", ""), ("src/lib.rs", "")]);

    let found = DirectoryFileCountRule::new(2).check_workspace(&tree);

    assert_eq!(found.len(), 1);
    assert_eq!(found[0].file, "src/lib.rs");
    assert_eq!(found[0].description, "src holds 3 files, more than the 2 a directory may hold");
    assert_eq!(
        found[0].correction,
        "group the files of src into subfolders of at most 2 each, each with its own mod.rs declared by this index"
    );
    assert_eq!(found[0].subject, Some("src".to_string()));
}

#[test]
fn directory_file_count_names_the_package_root() {
    let tree = files(&[("a.rs", ""), ("b.rs", ""), ("c.rs", "")]);

    let found = DirectoryFileCountRule::new(2).check_workspace(&tree);

    assert_eq!(found.len(), 1);
    assert_eq!(found[0].file, "the package root");
    assert_eq!(found[0].description, "the package root holds 3 files, more than the 2 a directory may hold");
}

#[test]
fn directory_file_count_default_limit_is_twenty() {
    let tree: Vec<SourceFile> = (0..20).map(|i| SourceFile::new(&format!("src/f{i}.rs"), "")).collect();

    let found = DirectoryFileCountRule::with_default_limit().check_workspace(&tree);

    assert!(found.is_empty());
}

#[test]
fn directory_subfolder_count_reports_a_crowded_directory() {
    let tree = files(&[("src/a/x.rs", ""), ("src/b/y.rs", "")]);

    let found = DirectorySubfolderCountRule::new(1).check_workspace(&tree);

    assert_eq!(found.len(), 1);
    assert_eq!(found[0].file, "src");
    assert_eq!(found[0].description, "src holds 2 subfolders, more than the 1 a directory may hold");
    assert_eq!(found[0].correction, "group the subfolders of src so that no directory holds more than 1");
}

#[test]
fn workspace_dependencies_reports_a_member_declaration() {
    let declared = vec![
        ManifestDependency {
            name: "serde".to_string(),
            manifest: "alpha/Cargo.toml".to_string(),
            section: "dependencies".to_string(),
            takes_from_workspace: false,
        },
        ManifestDependency {
            name: "syn".to_string(),
            manifest: "alpha/Cargo.toml".to_string(),
            section: "dependencies".to_string(),
            takes_from_workspace: true,
        },
    ];

    let found = WorkspaceDependenciesRule::new(Some(declared)).check_workspace(&Vec::new());

    assert_eq!(found.len(), 1);
    assert_eq!(found[0].file, "alpha/Cargo.toml");
    assert_eq!(found[0].description, "alpha/Cargo.toml declares `serde` in [dependencies] rather than taking it from the workspace");
    assert_eq!(
        found[0].correction,
        "add `serde` to [workspace.dependencies] in the root manifest, and write `serde = { workspace = true }` here"
    );
    assert_eq!(found[0].expected, Some("serde = { workspace = true }".to_string()));
}

#[test]
fn workspace_dependencies_is_silent_outside_a_workspace() {
    let found = WorkspaceDependenciesRule::new(None).check_workspace(&Vec::new());

    assert!(found.is_empty());
}

#[test]
fn tested_public_api_reports_an_entry_point_no_test_calls() {
    let tree = files(&[
        (
            "src/lib.rs",
            "pub fn check(a: u8, b: u8) -> u8 { a }\npub fn other() {}\npub struct S;\nimpl S {\n    pub fn new() -> Self { S }\n    fn hidden(&self) {}\n    pub fn go(&self, x: u8) {}\n}\n",
        ),
        ("tests/api_tests.rs", "#[test]\nfn t() {\n    check(1, 2);\n    let s = S::new();\n    s.go(3);\n}\n"),
    ]);

    let found = TestedPublicApiRule::new().check_workspace(&tree);

    assert_eq!(found.len(), 1);
    assert_eq!(found[0].file, "src/lib.rs");
    assert_eq!(found[0].description, "`other` is public but no test calls it with 0 argument(s)");
    assert_eq!(found[0].correction, "call `other` from a test, or stop exposing it if nothing outside needs it");
    assert_eq!(found[0].subject, Some("other/0".to_string()));
}

#[test]
fn tested_public_api_tells_arities_apart() {
    let tree = files(&[
        ("src/lib.rs", "pub fn check(a: u8, b: u8) -> u8 { a }\n"),
        ("tests/api_tests.rs", "#[test]\nfn t() {\n    check(1);\n}\n"),
    ]);

    let found = TestedPublicApiRule::new().check_workspace(&tree);

    assert_eq!(found.len(), 1);
    assert_eq!(found[0].subject, Some("check/2".to_string()));
}

#[test]
fn tested_public_api_counts_a_closure_as_one_argument() {
    let tree = files(&[
        ("src/lib.rs", "pub fn run(f: u8) {}\n"),
        ("tests/api_tests.rs", "#[test]\nfn t() {\n    run(|a, b| a + b);\n}\n"),
    ]);

    let found = TestedPublicApiRule::new().check_workspace(&tree);

    assert!(found.is_empty());
}
